use presence::clock::Timestamp;
use presence::dedup::deduplicate;
use presence::participant::Participant;
use presence::rows::{
    cell_at, make_participant, parse_participant_row, participants_from_rows, row_cells, trim_row,
};

fn row(cells: &[&str]) -> Vec<String> {
    cells.iter().map(|cell| cell.to_string()).collect()
}

fn rows(table: &[&[&str]]) -> Vec<Vec<String>> {
    table.iter().map(|cells| row(cells)).collect()
}

fn person(name: &str, email: &str, second: u32) -> Participant {
    make_participant(name, email.to_string(), Timestamp { day: 738_900, second, nano: 0 })
}

fn summary(participants: &[Participant]) -> Vec<(String, String, String, u32)> {
    participants
        .iter()
        .map(|p| (p.name.clone(), p.surname.clone(), p.id.clone(), p.first_join.second))
        .collect()
}

#[test]
fn cell_at_trims_and_tolerates_short_rows() {
    let record = row(&[" a ", "b"]);
    assert_eq!(cell_at(&record, 0), "a");
    assert_eq!(cell_at(&record, 1), "b");
    assert_eq!(cell_at(&record, 2), "");
}

#[test]
fn trim_row_trims_every_cell() {
    assert_eq!(trim_row(&row(&[" Name ", "First Join\t", ""])), row(&["Name", "First Join", ""]));
}

#[test]
fn row_cells_are_picked_by_column_name() {
    let header = row(&["Email", "Duration", "Name", "First Join"]);
    let record = row(&[" ada@x.org ", "55", " Ada Lovelace ", " 1/15/24, 1:30:00 PM ", "extra"]);
    assert_eq!(
        row_cells(&header, &record),
        Some((
            "Ada Lovelace".to_string(),
            "1/15/24, 1:30:00 PM".to_string(),
            "ada@x.org".to_string()
        ))
    );
}

#[test]
fn row_cells_need_both_columns() {
    let record = row(&["Ada", "1/15/24, 1:30:00 PM"]);
    assert_eq!(row_cells(&row(&["Name", "Last Leave"]), &record), None);
    assert_eq!(row_cells(&row(&["Who", "First Join"]), &record), None);
    assert_eq!(row_cells(&row(&["name", "first join"]), &record), None);
}

#[test]
fn row_cells_pass_over_rows_without_name_or_join() {
    let header = row(&["Name", "First Join", "Email"]);
    assert_eq!(row_cells(&header, &row(&["  ", "1/15/24, 1:30:00 PM"])), None);
    assert_eq!(row_cells(&header, &row(&["Name", "1/15/24, 1:30:00 PM"])), None);
    assert_eq!(row_cells(&header, &row(&["Ada", " "])), None);
    assert_eq!(row_cells(&header, &row(&["Ada"])), None);
    assert_eq!(row_cells(&header, &row(&[])), None);
}

#[test]
fn row_cells_default_the_email_to_empty() {
    let record = row(&["Ada", "1/15/24, 1:30:00 PM"]);
    let expected = Some(("Ada".to_string(), "1/15/24, 1:30:00 PM".to_string(), String::new()));
    assert_eq!(row_cells(&row(&["Name", "First Join"]), &record), expected);
    assert_eq!(row_cells(&row(&["Name", "First Join", "Email"]), &record), expected);
}

#[test]
fn row_cells_use_the_first_column_of_a_name() {
    let header = row(&["Name", "First Join", "Name"]);
    let record = row(&["Ada", "1/15/24, 1:30:00 PM", "Bob"]);
    assert_eq!(row_cells(&header, &record).unwrap().0, "Ada");
}

#[test]
fn make_participant_splits_the_name_and_takes_the_id() {
    let p = person("Ada  King Lovelace", "ada@x.org", 5);
    assert_eq!(p.name, "Ada");
    assert_eq!(p.surname, "King Lovelace");
    assert_eq!(p.id, "ada");
    assert_eq!(p.email, "ada@x.org");
    assert_eq!(p.first_join, Timestamp { day: 738_900, second: 5, nano: 0 });
}

#[test]
fn parse_participant_row_reads_a_full_row() {
    let header = row(&["Name", "First Join", "Email"]);
    let record = row(&["Ada Lovelace", "01/15/2024, 01:30:00 PM", "ada@x.org"]);
    let p = parse_participant_row(&header, &record).unwrap().unwrap();
    assert_eq!(summary(&[p]), vec![("Ada".into(), "Lovelace".into(), "ada".into(), 48_600)]);
}

#[test]
fn parse_participant_row_fails_on_a_join_time_in_neither_pattern() {
    let header = row(&["Name", "First Join"]);
    let record = row(&["Ada", "yesterday"]);
    assert_eq!(
        parse_participant_row(&header, &record).unwrap_err(),
        "Invalid datetime: yesterday"
    );
}

#[test]
fn parse_participant_row_passes_over_without_parsing() {
    let header = row(&["Name", "Email"]);
    let record = row(&["Ada", "yesterday"]);
    assert!(parse_participant_row(&header, &record).unwrap().is_none());
}

#[test]
fn rows_before_the_header_are_discarded() {
    let table = rows(&[
        &["Meeting summary"],
        &["Ada", "1/15/24, 1:00:00 PM"],
        &[],
        &["Name", "First Join", "Email"],
        &["Bob Ross", "1/15/24, 1:30:00 PM", "bob@x.org"],
    ]);
    let found = participants_from_rows(&table).unwrap();
    assert_eq!(summary(&found), vec![("Bob".into(), "Ross".into(), "bob".into(), 48_600)]);
}

#[test]
fn the_header_cell_must_be_name_letter_for_letter() {
    let table = rows(&[&[" Name", "First Join"], &["Bob Ross", "1/15/24, 1:30:00 PM"]]);
    assert!(participants_from_rows(&table).unwrap().is_empty());
}

#[test]
fn the_other_header_cells_are_trimmed() {
    let table = rows(&[&["Name", " First Join ", " Email"], &["Bob", "1/15/24, 1:30:00 PM", "b@x"]]);
    let found = participants_from_rows(&table).unwrap();
    assert_eq!(summary(&found), vec![("Bob".into(), "".into(), "b".into(), 48_600)]);
}

#[test]
fn a_repeated_header_row_is_passed_over() {
    let table = rows(&[
        &["Name", "First Join"],
        &["Name", "First Join"],
        &["Bob", "1/15/24, 1:30:00 PM"],
    ]);
    assert_eq!(participants_from_rows(&table).unwrap().len(), 1);
}

#[test]
fn a_header_without_first_join_gives_no_participants() {
    let table = rows(&[
        &["Name", "Email", "Duration"],
        &["Bob", "bob@x.org", "55"],
        &["Ada", "not a time", "1/15/24, 1:30:00 PM"],
    ]);
    assert_eq!(participants_from_rows(&table).map(|found| found.len()), Ok(0));
}

#[test]
fn no_rows_give_no_participants() {
    assert_eq!(participants_from_rows(&Vec::new()).map(|found| found.len()), Ok(0));
    assert_eq!(participants_from_rows(&rows(&[&["x"], &["y"]])).map(|found| found.len()), Ok(0));
}

#[test]
fn the_first_bad_join_time_aborts_the_file() {
    let table = rows(&[
        &["Name", "First Join"],
        &["Ada", "1/15/24, 1:30:00 PM"],
        &["Bob", "soon"],
        &["Cy", "later"],
    ]);
    assert_eq!(participants_from_rows(&table).unwrap_err(), "Invalid datetime: soon");
}

#[test]
fn the_earlier_of_two_rows_with_one_key_is_kept() {
    let table = rows(&[
        &["Name", "First Join", "Email"],
        &["Ada Lovelace", "1/15/24, 1:45:00 PM", "ada@x.org"],
        &["Bob Ross", "1/15/24, 1:31:00 PM", "bob@x.org"],
        &["Ada L.", "1/15/24, 1:29:00 PM", "ada@x.org"],
        &["Ada Again", "1/15/24, 1:50:00 PM", "ada@y.org"],
    ]);
    let found = participants_from_rows(&table).unwrap();
    assert_eq!(
        summary(&found),
        vec![
            ("Ada".into(), "L.".into(), "ada".into(), 48_540),
            ("Bob".into(), "Ross".into(), "bob".into(), 48_660),
        ]
    );
}

#[test]
fn the_order_of_the_rows_does_not_change_the_join_time_kept() {
    let early = person("Ada Lovelace", "ada@x.org", 100);
    let late = person("Ada Lovelace", "ada@x.org", 200);
    let other = person("Bob Ross", "", 150);
    let one = deduplicate(vec![early.clone(), other.clone(), late.clone()]);
    let two = deduplicate(vec![late, other, early]);
    assert_eq!(
        summary(&one),
        vec![("Ada".into(), "Lovelace".into(), "ada".into(), 100), ("Bob".into(), "Ross".into(), "".into(), 150)]
    );
    assert_eq!(summary(&one), summary(&two));
}

#[test]
fn of_two_rows_with_the_same_join_time_the_first_is_kept() {
    let first = person("Ada Lovelace", "ada@x.org", 100);
    let second = person("Countess Lovelace", "ada@x.org", 100);
    let kept = deduplicate(vec![first, second]);
    assert_eq!(summary(&kept), vec![("Ada".into(), "Lovelace".into(), "ada".into(), 100)]);
}

#[test]
fn people_without_id_are_told_apart_by_email_and_then_by_name() {
    let kept = deduplicate(vec![
        person("Ada Lovelace", "", 100),
        person("Ada  Lovelace", "", 50),
        person("Ada Byron", "", 70),
        person("X", "@x.org", 10),
        person("Y", "@x.org", 5),
    ]);
    assert_eq!(
        summary(&kept),
        vec![
            ("Ada".into(), "Lovelace".into(), "".into(), 50),
            ("Ada".into(), "Byron".into(), "".into(), 70),
            ("Y".into(), "".into(), "".into(), 5),
        ]
    );
}
