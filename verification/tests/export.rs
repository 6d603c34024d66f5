use presence::export::{csv_export, report_table, student_line, text_export};
use presence::number::{count_text, number_text, whole_text};
use presence::report::AttendanceReport;
use presence::student::StudentRecord;

fn student(name: &str, surname: &str, id: &str, counts: (u32, u32, u32)) -> StudentRecord {
    StudentRecord {
        name: name.to_string(),
        surname: surname.to_string(),
        id: id.to_string(),
        email: format!("{}@x.org", id),
        normal: counts.0,
        late: counts.1,
        absent: counts.2,
    }
}

fn score(student: &StudentRecord, total: f32, late_penalty: f32, absent_penalty: f32) -> f32 {
    (total - (student.late as f32 * late_penalty + student.absent as f32 * absent_penalty)).max(0.0)
}

fn report() -> AttendanceReport {
    AttendanceReport {
        students: vec![
            student("Ada", "King, Countess of \"Lovelace\"", "ada", (7, 2, 1)),
            student("Bob", "Ross", "bob", (0, 0, 20)),
            student("Plato", "", "", (10, 0, 0)),
        ],
        sessions: 10,
    }
}

fn scores(report: &AttendanceReport) -> Vec<String> {
    report.students.iter().map(|s| format!("{:.1}/{:.1}", score(s, 10.0, 0.5, 1.0), 10.0f32)).collect()
}

#[test]
fn counters_are_written_in_decimal() {
    assert_eq!(count_text(0), "0");
    assert_eq!(count_text(7), "7");
    assert_eq!(count_text(10), "10");
    assert_eq!(count_text(909), "909");
    assert_eq!(count_text(u32::MAX), "4294967295");
    assert_eq!(number_text(u64::MAX), "18446744073709551615");
}

#[test]
fn whole_numbers_are_written_with_their_sign() {
    assert_eq!(whole_text(0), "0");
    assert_eq!(whole_text(42), "42");
    assert_eq!(whole_text(-7), "-7");
    assert_eq!(whole_text(i64::MAX), "9223372036854775807");
    assert_eq!(whole_text(i64::MIN), "-9223372036854775808");
    for number in [-1000i64, -10, -1, 9, 10, 123_456_789] {
        assert_eq!(whole_text(number), number.to_string());
    }
}

#[test]
fn a_student_line_has_seven_cells() {
    assert_eq!(
        student_line(&student("Ada", "Lovelace", "ada", (7, 2, 1)), "8.0/10.0"),
        vec!["Ada", "Lovelace", "ada", "7", "2", "1", "8.0/10.0"]
    );
}

#[test]
fn the_table_starts_with_the_header() {
    let report = report();
    let table = report_table(&report, &scores(&report));
    assert_eq!(table.len(), 4);
    assert_eq!(table[0], vec!["Name", "Surname", "ID", "Normal", "Late", "Absent", "Score"]);
    assert_eq!(table[2], vec!["Bob", "Ross", "bob", "0", "0", "20", "0.0/10.0"]);
    assert_eq!(table[3], vec!["Plato", "", "", "10", "0", "0", "10.0/10.0"]);
}

#[test]
fn the_text_export_is_tab_delimited() {
    let report = AttendanceReport { students: vec![student("Bob", "Ross", "bob", (3, 1, 0))], sessions: 4 };
    let table = report_table(&report, &vec!["9.5/10.0".to_string()]);
    assert_eq!(
        text_export(&table),
        "Name\tSurname\tID\tNormal\tLate\tAbsent\tScore\nBob\tRoss\tbob\t3\t1\t0\t9.5/10.0\n"
    );
    assert_eq!(text_export(&Vec::new()), "");
    assert_eq!(text_export(&vec![Vec::new(), vec!["a".to_string()]]), "\na\n");
}

#[test]
fn the_csv_export_quotes_where_needed() {
    let report = report();
    let bytes = csv_export(&report_table(&report, &scores(&report))).unwrap();
    assert_eq!(
        String::from_utf8(bytes).unwrap(),
        "Name,Surname,ID,Normal,Late,Absent,Score\nAda,\"King, Countess of \"\"Lovelace\"\"\",ada,7,2,1,8.0/10.0\nBob,Ross,bob,0,0,20,0.0/10.0\nPlato,,,10,0,0,10.0/10.0\n"
    );
}

#[test]
fn the_score_is_never_negative() {
    let bob = student("Bob", "Ross", "bob", (0, 0, 20));
    assert_eq!(score(&bob, 10.0, 0.5, 1.0), 0.0);
    assert_eq!(format!("{:.1}/{:.1}", score(&bob, 10.0, 0.5, 1.0), 10.0f32), "0.0/10.0");
}

#[test]
fn the_csv_export_reads_back_with_the_same_counters_and_scores() {
    let report = report();
    let bytes = csv_export(&report_table(&report, &scores(&report))).unwrap();
    let mut reader = csv::ReaderBuilder::new().has_headers(true).from_reader(bytes.as_slice());
    let mut seen = 0;
    for record in reader.records() {
        let record = record.unwrap();
        let student = report
            .students
            .iter()
            .find(|s| s.id == &record[2] && s.name == &record[0])
            .unwrap();
        assert_eq!(&record[1], student.surname);
        assert_eq!(record[3].parse::<u32>().unwrap(), student.normal);
        assert_eq!(record[4].parse::<u32>().unwrap(), student.late);
        assert_eq!(record[5].parse::<u32>().unwrap(), student.absent);
        assert_eq!(&record[6], format!("{:.1}/{:.1}", score(student, 10.0, 0.5, 1.0), 10.0f32));
        seen += 1;
    }
    assert_eq!(seen, report.students.len());
}
