//! The two kinds of session file, delimited text and workbook, each read into
//! rows of cells and then into participants. Delimited text is read here from
//! its bytes. A workbook is opened by the caller, who hands over what came
//! back: the names of its sheets, then the cells of the sheet chosen here.

use vstd::prelude::*;
use vstd::string::StringExecFns;
use crate::number::{integer_text, whole_text};
use crate::decode::{decodable, decode_csv_text, decoded_text, delimiter_of, lossy_text};
use crate::participant::{distinct_keys, Participant, ParticipantView};
use crate::rows::{participants_from_rows, participants_of_rows, participants_view};

verus! {

/// What the `csv` reader makes of `text` with the delimiter `delimiter`,
/// without a header row and with rows of any width: the records, or the text
/// of its error.
pub uninterp spec fn csv_records(text: Seq<char>, delimiter: u8) -> Result<
    Seq<Seq<Seq<char>>>,
    Seq<char>,
>;

/// Rows of text, or the text of an error, as mathematical values.
pub open spec fn rows_view(result: Result<Vec<Vec<String>>, String>) -> Result<
    Seq<Seq<Seq<char>>>,
    Seq<char>,
> {
    match result {
        Ok(rows) => Ok(rows.deep_view()),
        Err(message) => Err(message@),
    }
}

/// `csv::ReaderBuilder` with `has_headers(false)`, the given delimiter and
/// `flexible(true)`, and `csv::Reader::records` over the whole text. The
/// records depend on the text and the delimiter alone and are named, not
/// spelled out; an error is handed back as its text.
#[verifier::external_body]
fn read_csv_records(text: &str, delimiter: u8) -> (records: Result<Vec<Vec<String>>, String>)
    ensures
        rows_view(records) == csv_records(text@, delimiter),
{
    let mut reader = csv::ReaderBuilder::new().has_headers(false).delimiter(delimiter).flexible(
        true,
    ).from_reader(text.as_bytes());
    let mut rows = Vec::new();
    for record in reader.records() {
        match record {
            Ok(cells) => rows.push(cells.iter().map(|cell| cell.to_string()).collect()),
            Err(error) => return Err(error.to_string()),
        }
    }
    Ok(rows)
}

/// A worksheet cell.
#[derive(Debug, Clone, PartialEq, Eq)]
pub enum Cell {
    /// A cell that holds text.
    Text(String),
    /// A cell that holds a whole number.
    Whole(i64),
    /// A cell that holds a truth value.
    Truth(bool),
    /// A cell of another kind, a fraction, a date, a duration or an error
    /// marker, as the text in which it prints.
    Printed(String),
    /// An empty cell.
    Empty,
}

/// What a [`Cell`] holds, as mathematical values.
pub enum CellView {
    Text(Seq<char>),
    Whole(int),
    Truth(bool),
    Printed(Seq<char>),
    Empty,
}

impl View for Cell {
    type V = CellView;

    open spec fn view(&self) -> CellView {
        match self {
            Cell::Text(text) => CellView::Text(text@),
            Cell::Whole(number) => CellView::Whole(*number as int),
            Cell::Truth(truth) => CellView::Truth(*truth),
            Cell::Printed(text) => CellView::Printed(text@),
            Cell::Empty => CellView::Empty,
        }
    }
}

impl DeepView for Cell {
    type V = CellView;

    open spec fn deep_view(&self) -> CellView {
        self@
    }
}

/// The text that stands for a cell: its text, its number in decimal, `true`
/// or `false`, the text in which it prints, or nothing for an empty cell.
pub open spec fn cell_text(cell: CellView) -> Seq<char> {
    match cell {
        CellView::Text(text) => text,
        CellView::Whole(number) => integer_text(number),
        CellView::Truth(truth) => if truth {
            "true"@
        } else {
            "false"@
        },
        CellView::Printed(text) => text,
        CellView::Empty => Seq::empty(),
    }
}

/// The text that stands for a cell.
pub fn cell_to_string(cell: &Cell) -> (text: String)
    ensures
        text@ == cell_text(cell@),
{
    match cell {
        Cell::Text(text) => text.clone(),
        Cell::Whole(number) => whole_text(*number),
        Cell::Truth(truth) => if *truth {
            String::from_str("true")
        } else {
            String::from_str("false")
        },
        Cell::Printed(text) => text.clone(),
        Cell::Empty => String::new(),
    }
}

/// The rows of text that stand for rows of cells.
pub open spec fn rows_of_cells(cells: Seq<Seq<CellView>>) -> Seq<Seq<Seq<char>>> {
    Seq::new(cells.len(), |i: int| Seq::new(cells[i].len(), |j: int| cell_text(cells[i][j])))
}

/// Turns every cell into its text.
pub fn cells_to_rows(cells: &Vec<Vec<Cell>>) -> (rows: Vec<Vec<String>>)
    ensures
        rows.deep_view() == rows_of_cells(cells.deep_view()),
{
    let mut rows: Vec<Vec<String>> = Vec::new();
    let mut i: usize = 0;
    while i < cells.len()
        invariant
            i <= cells.len(),
            rows.len() == i,
            forall|a: int|
                0 <= a < i ==> (#[trigger] rows[a]).deep_view() == Seq::new(
                    cells[a].len() as nat,
                    |j: int| cell_text(cells[a][j]@),
                ),
        decreases cells.len() - i,
    {
        let line = &cells[i];
        let mut row: Vec<String> = Vec::new();
        let mut j: usize = 0;
        while j < line.len()
            invariant
                j <= line.len(),
                row.len() == j,
                forall|b: int| 0 <= b < j ==> (#[trigger] row[b])@ == cell_text(line[b]@),
            decreases line.len() - j,
        {
            row.push(cell_to_string(&line[j]));
            j += 1;
        }
        assert(row.deep_view() =~= Seq::new(line.len() as nat, |b: int| cell_text(line[b]@)));
        rows.push(row);
        i += 1;
    }
    assert forall|a: int| 0 <= a < rows.len() implies rows.deep_view()[a] == rows_of_cells(
        cells.deep_view(),
    )[a] by {
        let line = cells.deep_view()[a];
        assert(line.len() == cells[a].len());
        assert forall|b: int| 0 <= b < line.len() implies line[b] == cells[a][b]@ by {}
        assert(rows[a].deep_view() =~= Seq::new(line.len(), |j: int| cell_text(line[j])));
    }
    assert(rows.deep_view() =~= rows_of_cells(cells.deep_view()));
    rows
}

/// The participants of a delimited text file: its bytes are decoded, the
/// delimiter is detected, the records are read, and the rows are gathered.
pub open spec fn csv_participants(data: Seq<u8>) -> Result<Seq<ParticipantView>, Seq<char>> {
    match csv_records(decoded_text(data), delimiter_of(lossy_text(data))) {
        Err(error) => Err("Failed to read CSV: "@ + error),
        Ok(rows) => participants_of_rows(rows),
    }
}

/// The sheet to read, given what opening the workbook gave: the first of
/// its sheets. A workbook that could not be opened and a workbook without
/// sheets are refused, each with its message.
pub open spec fn first_sheet_outcome(names: Result<Seq<Seq<char>>, Seq<char>>) -> Result<
    Seq<char>,
    Seq<char>,
> {
    match names {
        Err(error) => Err("Failed to open Excel data: "@ + error),
        Ok(names) => if names.len() == 0 {
            Err("Excel file is missing sheets."@)
        } else {
            Ok(names[0])
        },
    }
}

/// The participants of a sheet, given what reading it gave: those of the
/// rows of text that stand for its cells. A sheet that could not be read is
/// refused with its message.
pub open spec fn cells_participants(cells: Result<Seq<Seq<CellView>>, Seq<char>>) -> Result<
    Seq<ParticipantView>,
    Seq<char>,
> {
    match cells {
        Err(error) => Err("Failed to read Excel sheet: "@ + error),
        Ok(cells) => participants_of_rows(rows_of_cells(cells)),
    }
}

/// A text, or the text of an error, as mathematical values.
pub open spec fn text_view(result: Result<String, String>) -> Result<Seq<char>, Seq<char>> {
    match result {
        Ok(text) => Ok(text@),
        Err(message) => Err(message@),
    }
}

/// Sheet names, or the text of an error, as mathematical values.
pub open spec fn names_view(result: Result<Vec<String>, String>) -> Result<
    Seq<Seq<char>>,
    Seq<char>,
> {
    match result {
        Ok(names) => Ok(names.deep_view()),
        Err(message) => Err(message@),
    }
}

/// Rows of cells, or the text of an error, as mathematical values.
pub open spec fn cells_view(result: Result<Vec<Vec<Cell>>, String>) -> Result<
    Seq<Seq<CellView>>,
    Seq<char>,
> {
    match result {
        Ok(cells) => Ok(cells.deep_view()),
        Err(message) => Err(message@),
    }
}

/// The file takes part by its extension: `csv`, `xlsx` or `xls`, in lower
/// case.
pub open spec fn is_attendance_extension(extension: Seq<char>) -> bool {
    extension == "csv"@ || extension == "xlsx"@ || extension == "xls"@
}

/// Reads the participants of a delimited text file.
pub fn parse_csv_participants(data: &[u8]) -> (result: Result<Vec<Participant>, String>)
    requires
        decodable(data@),
    ensures
        participants_view(result) == csv_participants(data@),
        result matches Ok(participants) ==> distinct_keys(participants.deep_view()),
{
    let (text, delimiter) = decode_csv_text(data);
    match read_csv_records(text.as_str(), delimiter) {
        Err(error) => Err(String::from_str("Failed to read CSV: ").concat(error.as_str())),
        Ok(rows) => participants_from_rows(&rows),
    }
}

/// Reads the participants of a delimited text file of any length: `None`
/// where the file is longer than the decoders take.
pub fn try_parse_csv_participants(data: &[u8]) -> (result: Option<Result<Vec<Participant>, String>>)
    ensures
        match result {
            Some(outcome) => participants_view(outcome) == csv_participants(data@),
            None => !decodable(data@),
        },
        result matches Some(Ok(participants)) ==> distinct_keys(participants.deep_view()),
{
    if data.len() <= usize::MAX / 16 {
        Some(parse_csv_participants(data))
    } else {
        None
    }
}

/// Chooses the sheet of a workbook to read. `names` is what opening the
/// workbook gave: the names of its sheets in their order, or the text of the
/// error with which it could not be opened.
pub fn first_sheet(names: Result<Vec<String>, String>) -> (sheet: Result<String, String>)
    ensures
        text_view(sheet) == first_sheet_outcome(names_view(names)),
{
    match names {
        Err(error) => Err(String::from_str("Failed to open Excel data: ").concat(error.as_str())),
        Ok(names) => {
            if names.len() == 0 {
                Err(String::from_str("Excel file is missing sheets."))
            } else {
                Ok(names[0].clone())
            }
        },
    }
}

/// Reads the participants of a sheet. `cells` is what reading the sheet gave:
/// its rows of cells, or the text of the error with which it could not be
/// read.
pub fn participants_from_cells(cells: Result<Vec<Vec<Cell>>, String>) -> (result: Result<
    Vec<Participant>,
    String,
>)
    ensures
        participants_view(result) == cells_participants(cells_view(cells)),
        result matches Ok(participants) ==> distinct_keys(participants.deep_view()),
{
    match cells {
        Err(error) => Err(String::from_str("Failed to read Excel sheet: ").concat(error.as_str())),
        Ok(cells) => {
            let rows = cells_to_rows(&cells);
            participants_from_rows(&rows)
        },
    }
}

/// How a session file is read.
#[derive(Debug, Clone, Copy, PartialEq, Eq, Structural)]
pub enum FileKind {
    /// Delimited text, extension `csv`.
    Delimited,
    /// A workbook, extension `xlsx` or `xls`.
    Workbook,
    /// No session file.
    Other,
}

/// How a file with this extension is read.
pub open spec fn kind_of_extension(extension: Seq<char>) -> FileKind {
    if extension == "csv"@ {
        FileKind::Delimited
    } else if extension == "xlsx"@ || extension == "xls"@ {
        FileKind::Workbook
    } else {
        FileKind::Other
    }
}

/// How a file with this extension is read.
pub fn file_kind(extension: &str) -> (kind: FileKind)
    ensures
        kind == kind_of_extension(extension@),
{
    let given = String::from_str(extension);
    if given == String::from_str("csv") {
        FileKind::Delimited
    } else if given == String::from_str("xlsx") || given == String::from_str("xls") {
        FileKind::Workbook
    } else {
        FileKind::Other
    }
}

/// Whether a file with this extension is a session file.
pub fn is_attendance_file(extension: &str) -> (supported: bool)
    ensures
        supported == is_attendance_extension(extension@),
{
    let given = String::from_str(extension);
    given == String::from_str("csv") || given == String::from_str("xlsx") || given
        == String::from_str("xls")
}

/// What the path that the user chose turned out to be.
#[derive(Debug, Clone, Copy, PartialEq, Eq, Structural)]
pub enum SourceKind {
    /// A single file.
    File,
    /// A directory.
    Directory,
    /// Neither of the two, or nothing at all.
    Neither,
}

/// The file with this extension, if it has one, is a session file.
pub open spec fn is_session_extension(extension: Option<Seq<char>>) -> bool {
    match extension {
        Some(text) => is_attendance_extension(text),
        None => false,
    }
}

/// The places of the session files among files with the given extensions, in
/// rising order.
pub open spec fn session_places(extensions: Seq<Option<Seq<char>>>) -> Seq<usize>
    decreases extensions.len(),
{
    if extensions.len() == 0 {
        Seq::empty()
    } else if is_session_extension(extensions.last()) {
        session_places(extensions.drop_last()).push((extensions.len() - 1) as usize)
    } else {
        session_places(extensions.drop_last())
    }
}

/// The files to read, as places in the list of candidates, or the message for
/// a choice that gives none: a path that is neither file nor directory, a
/// single file of another kind, a directory without session files.
pub open spec fn selection(kind: SourceKind, extensions: Seq<Option<Seq<char>>>) -> Result<
    Seq<usize>,
    Seq<char>,
> {
    match kind {
        SourceKind::Neither => Err("Please select a valid directory or attendance file."@),
        SourceKind::File => if extensions.len() > 0 && is_session_extension(extensions[0]) {
            Ok(seq![0usize])
        } else {
            Err("Selected file is not a supported CSV/XLSX attendance export."@)
        },
        SourceKind::Directory => if session_places(extensions).len() == 0 {
            Err("No attendance CSV/XLSX files found in the directory."@)
        } else {
            Ok(session_places(extensions))
        },
    }
}

/// Places, or a message, as mathematical values.
pub open spec fn places_view(result: Result<Vec<usize>, String>) -> Result<Seq<usize>, Seq<char>> {
    match result {
        Ok(places) => Ok(places@),
        Err(message) => Err(message@),
    }
}

/// Whether a file with this extension, if it has one, is a session file.
pub fn is_session_file(extension: &Option<String>) -> (supported: bool)
    ensures
        supported == is_session_extension(extension.deep_view()),
{
    match extension {
        Some(text) => is_attendance_file(text.as_str()),
        None => false,
    }
}

/// Selects the files to read. `extensions` holds the extension of each
/// candidate, in the order in which the files are to be read: of the one file
/// where a single file was chosen, of every entry where a directory was.
pub fn select_sources(kind: SourceKind, extensions: &Vec<Option<String>>) -> (result: Result<
    Vec<usize>,
    String,
>)
    ensures
        places_view(result) == selection(kind, extensions.deep_view()),
{
    let ghost all = extensions.deep_view();
    match kind {
        SourceKind::Neither => Err(
            String::from_str("Please select a valid directory or attendance file."),
        ),
        SourceKind::File => {
            if extensions.len() > 0 && is_session_file(&extensions[0]) {
                let mut places: Vec<usize> = Vec::new();
                places.push(0);
                assert(places@ =~= seq![0usize]);
                Ok(places)
            } else {
                Err(String::from_str("Selected file is not a supported CSV/XLSX attendance export."))
            }
        },
        SourceKind::Directory => {
            let mut places: Vec<usize> = Vec::new();
            let mut at: usize = 0;
            assert(all.take(0) =~= Seq::<Option<Seq<char>>>::empty());
            while at < extensions.len()
                invariant
                    at <= extensions.len(),
                    all == extensions.deep_view(),
                    places@ == session_places(all.take(at as int)),
                decreases extensions.len() - at,
            {
                proof {
                    let next = all.take(at + 1);
                    assert(next.drop_last() =~= all.take(at as int));
                    assert(next.last() == extensions[at as int].deep_view());
                }
                if is_session_file(&extensions[at]) {
                    places.push(at);
                }
                at += 1;
            }
            assert(all.take(at as int) =~= all);
            if places.len() == 0 {
                Err(String::from_str("No attendance CSV/XLSX files found in the directory."))
            } else {
                Ok(places)
            }
        },
    }
}

} // verus!
