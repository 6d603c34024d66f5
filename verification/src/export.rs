//! The report as a table of text, and the table as delimited text: one line
//! per student under a fixed header, with the score column handed in by the
//! caller.

use vstd::prelude::*;
use vstd::string::StringExecFns;
use crate::number::{count_text, decimal_text};
use crate::report::{AttendanceReport, ReportView};
use crate::student::{StudentRecord, StudentView};

verus! {

/// The header of the table.
pub open spec fn table_header() -> Seq<Seq<char>> {
    seq!["Name"@, "Surname"@, "ID"@, "Normal"@, "Late"@, "Absent"@, "Score"@]
}

/// The line of the table for one student, with `score` in the last column.
pub open spec fn table_line(student: StudentView, score: Seq<char>) -> Seq<Seq<char>> {
    seq![
        student.name,
        student.surname,
        student.id,
        decimal_text(student.normal),
        decimal_text(student.late),
        decimal_text(student.absent),
        score,
    ]
}

/// The table of a report: the header, then one line per student in the order
/// of the report, with the scores in the last column.
pub open spec fn table_of(report: ReportView, scores: Seq<Seq<char>>) -> Seq<Seq<Seq<char>>> {
    Seq::new(
        report.students.len() + 1,
        |i: int|
            if i == 0 {
                table_header()
            } else {
                table_line(report.students[i - 1], scores[i - 1])
            },
    )
}

/// The line of the table for one student.
pub fn student_line(student: &StudentRecord, score: &str) -> (line: Vec<String>)
    ensures
        line.deep_view() == table_line(student@, score@),
{
    let mut line: Vec<String> = Vec::new();
    line.push(student.name.clone());
    line.push(student.surname.clone());
    line.push(student.id.clone());
    line.push(count_text(student.normal));
    line.push(count_text(student.late));
    line.push(count_text(student.absent));
    line.push(String::from_str(score));
    assert(line.deep_view() =~= table_line(student@, score@));
    line
}

/// The table of a report. `scores` holds the text of the score column, one
/// for each student in the order of the report.
pub fn report_table(report: &AttendanceReport, scores: &Vec<String>) -> (table: Vec<Vec<String>>)
    requires
        scores.len() == report.students.len(),
    ensures
        table.deep_view() == table_of(report@, scores.deep_view()),
{
    let mut table: Vec<Vec<String>> = Vec::new();
    let mut header: Vec<String> = Vec::new();
    header.push(String::from_str("Name"));
    header.push(String::from_str("Surname"));
    header.push(String::from_str("ID"));
    header.push(String::from_str("Normal"));
    header.push(String::from_str("Late"));
    header.push(String::from_str("Absent"));
    header.push(String::from_str("Score"));
    assert(header.deep_view() =~= table_header());
    table.push(header);
    let mut at: usize = 0;
    while at < report.students.len()
        invariant
            at <= report.students.len(),
            scores.len() == report.students.len(),
            table.len() == at + 1,
            table[0].deep_view() == table_header(),
            forall|k: int|
                1 <= k <= at ==> (#[trigger] table[k]).deep_view() == table_line(
                    report.students[k - 1]@,
                    scores[k - 1]@,
                ),
        decreases report.students.len() - at,
    {
        table.push(student_line(&report.students[at], scores[at].as_str()));
        at += 1;
    }
    assert(table.deep_view() =~= table_of(report@, scores.deep_view()));
    table
}

/// The cells of a line with a tab between neighbours.
pub open spec fn tabbed(cells: Seq<Seq<char>>) -> Seq<char>
    decreases cells.len(),
{
    if cells.len() == 0 {
        Seq::empty()
    } else if cells.len() == 1 {
        cells[0]
    } else {
        tabbed(cells.drop_last()) + seq!['\t'] + cells.last()
    }
}

/// The table as text: each line with tabs between its cells and a line feed
/// at its end.
pub open spec fn tabbed_text(table: Seq<Seq<Seq<char>>>) -> Seq<char>
    decreases table.len(),
{
    if table.len() == 0 {
        Seq::empty()
    } else {
        tabbed_text(table.drop_last()) + tabbed(table.last()) + seq!['\n']
    }
}

/// Writes a table as tab-delimited text.
pub fn text_export(table: &Vec<Vec<String>>) -> (text: String)
    ensures
        text@ == tabbed_text(table.deep_view()),
{
    let ghost all = table.deep_view();
    let mut text = String::new();
    let mut at: usize = 0;
    proof {
        reveal_strlit("\t");
        reveal_strlit("\n");
        assert("\t"@ =~= seq!['\t']);
        assert("\n"@ =~= seq!['\n']);
        assert(all.take(0) =~= Seq::<Seq<Seq<char>>>::empty());
    }
    while at < table.len()
        invariant
            at <= table.len(),
            all == table.deep_view(),
            text@ == tabbed_text(all.take(at as int)),
            "\t"@ == seq!['\t'],
            "\n"@ == seq!['\n'],
        decreases table.len() - at,
    {
        let line = &table[at];
        let ghost cells = line.deep_view();
        let ghost before = text@;
        let mut cell: usize = 0;
        proof {
            assert(cells.take(0) =~= Seq::<Seq<char>>::empty());
            assert(before + Seq::<char>::empty() =~= before);
        }
        while cell < line.len()
            invariant
                cell <= line.len(),
                cells == line.deep_view(),
                text@ == before + tabbed(cells.take(cell as int)),
                "\t"@ == seq!['\t'],
            decreases line.len() - cell,
        {
            proof {
                let more = cells.take(cell + 1);
                assert(more.drop_last() =~= cells.take(cell as int));
                assert(more.last() == line[cell as int]@);
                if cell == 0 {
                    assert(before + Seq::<char>::empty() + line[0]@ =~= before + line[0]@);
                } else {
                    assert(before + tabbed(cells.take(cell as int)) + seq!['\t'] + line[cell as int]@
                        =~= before + (tabbed(cells.take(cell as int)) + seq!['\t']
                        + line[cell as int]@));
                }
            }
            if cell > 0 {
                text.append("\t");
            }
            text.append(line[cell].as_str());
            cell += 1;
        }
        text.append("\n");
        proof {
            assert(cells.take(cell as int) =~= cells);
            let next = all.take(at + 1);
            assert(next.drop_last() =~= all.take(at as int));
            assert(next.last() == cells);
        }
        at += 1;
    }
    assert(all.take(at as int) =~= all);
    text
}

/// What `csv::Writer::write_record` writes for `cells` with the settings of a
/// new writer: the bytes of the record with its line end, or the text of its
/// error.
pub uninterp spec fn csv_record(cells: Seq<Seq<char>>) -> Result<Seq<u8>, Seq<char>>;

/// Bytes, or the text of an error, as mathematical values.
pub open spec fn bytes_view(result: Result<Vec<u8>, String>) -> Result<Seq<u8>, Seq<char>> {
    match result {
        Ok(bytes) => Ok(bytes@),
        Err(message) => Err(message@),
    }
}

/// `csv::Writer::write_record` on a new writer over memory, and
/// `csv::Writer::into_inner`. The bytes depend on the cells alone and are
/// named, not spelled out; an error is handed back as its text.
#[verifier::external_body]
fn write_csv_record(cells: &Vec<String>) -> (bytes: Result<Vec<u8>, String>)
    ensures
        bytes_view(bytes) == csv_record(cells.deep_view()),
{
    let mut writer = csv::Writer::from_writer(Vec::new());
    match writer.write_record(cells) {
        Ok(()) => writer.into_inner().map_err(|error| error.to_string()),
        Err(error) => Err(error.to_string()),
    }
}

/// The table as comma-separated values, given what the writer made of the
/// lines read so far; the message names the header or the row that it
/// refused.
pub open spec fn csv_text(table: Seq<Seq<Seq<char>>>) -> Result<Seq<u8>, Seq<char>>
    decreases table.len(),
{
    if table.len() == 0 {
        Ok(Seq::empty())
    } else {
        match csv_text(table.drop_last()) {
            Err(message) => Err(message),
            Ok(bytes) => match csv_record(table.last()) {
                Ok(line) => Ok(bytes + line),
                Err(error) => if table.len() == 1 {
                    Err("Failed to write CSV header: "@ + error)
                } else {
                    Err("Failed to write CSV row: "@ + error)
                },
            },
        }
    }
}

/// Once a line is refused, the lines after it do not change the message.
pub proof fn lemma_csv_error_stays(table: Seq<Seq<Seq<char>>>, upto: int)
    requires
        0 <= upto <= table.len(),
        csv_text(table.take(upto)) is Err,
    ensures
        csv_text(table) == csv_text(table.take(upto)),
    decreases table.len() - upto,
{
    if upto == table.len() {
        assert(table.take(upto) =~= table);
    } else {
        let next = table.take(upto + 1);
        assert(next.drop_last() =~= table.take(upto));
        lemma_csv_error_stays(table, upto + 1);
    }
}

/// Writes a table as comma-separated values, its first line being the header.
pub fn csv_export(table: &Vec<Vec<String>>) -> (result: Result<Vec<u8>, String>)
    ensures
        bytes_view(result) == csv_text(table.deep_view()),
{
    let ghost all = table.deep_view();
    let mut bytes: Vec<u8> = Vec::new();
    let mut at: usize = 0;
    assert(all.take(0) =~= Seq::<Seq<Seq<char>>>::empty());
    while at < table.len()
        invariant
            at <= table.len(),
            all == table.deep_view(),
            csv_text(all.take(at as int)) == Ok::<Seq<u8>, Seq<char>>(bytes@),
        decreases table.len() - at,
    {
        proof {
            let next = all.take(at + 1);
            assert(next.drop_last() =~= all.take(at as int));
            assert(next.last() == table[at as int].deep_view());
        }
        match write_csv_record(&table[at]) {
            Ok(mut line) => {
                bytes.append(&mut line);
            },
            Err(error) => {
                let message = if at == 0 {
                    String::from_str("Failed to write CSV header: ").concat(error.as_str())
                } else {
                    String::from_str("Failed to write CSV row: ").concat(error.as_str())
                };
                proof {
                    lemma_csv_error_stays(all, at + 1);
                }
                return Err(message);
            },
        }
        at += 1;
    }
    assert(all.take(at as int) =~= all);
    Ok(bytes)
}

} // verus!
