//! Attendance analysis. The exports of a meeting tool, one file per session,
//! are decoded into rows, the rows into participants, and the participants of
//! all sessions into one tally per student.
//!
//! The way of a file through the library: [`decode`] finds the encoding and
//! the delimiter of delimited text; [`source`] reads delimited text into rows
//! of cells, and takes the cells of a workbook from the caller who opened it;
//! [`rows`] finds the header row and reads one
//! participant from each row after it, with the help of [`names`], [`clock`]
//! and [`text`]; [`dedup`] keeps one record per person. [`config`] validates
//! the class-time window, [`status`] classifies a participant against it, and
//! [`tally`] folds session after session into the counters of each
//! [`student`]. [`report`] puts the records in the order of [`listing`], and
//! [`export`] writes the report as a table. [`theme`] describes how the front
//! end is drawn.

pub mod clock;
pub mod config;
pub mod decode;
pub mod dedup;
pub mod export;
pub mod listing;
pub mod names;
pub mod number;
pub mod order;
pub mod participant;
pub mod report;
pub mod rows;
pub mod source;
pub mod status;
pub mod student;
pub mod tally;
pub mod text;
pub mod theme;
