use std::io::{Cursor, Write};

use presence::report::generate_report;
use presence::config::AttendanceConfig;
use calamine::{Data, Reader, Xlsx};
use presence::order::reading_order;
use presence::participant::Participant;
use presence::source::{
    cell_to_string, cells_to_rows, file_kind, first_sheet, is_attendance_file, is_session_file,
    parse_csv_participants, participants_from_cells, select_sources, try_parse_csv_participants,
    Cell, FileKind, SourceKind,
};

fn cell_of(cell: &Data) -> Cell {
    match cell {
        Data::String(value) => Cell::Text(value.clone()),
        Data::Int(value) => Cell::Whole(*value),
        Data::Bool(value) => Cell::Truth(*value),
        Data::Float(value) => Cell::Printed(value.to_string()),
        Data::DateTime(value) => Cell::Printed(value.to_string()),
        Data::DateTimeIso(value) => Cell::Printed(value.to_string()),
        Data::DurationIso(value) => Cell::Printed(value.to_string()),
        Data::Error(error) => Cell::Printed(format!("{:?}", error)),
        Data::Empty => Cell::Empty,
    }
}

fn parse_excel_participants(data: &[u8]) -> Result<Vec<Participant>, String> {
    let mut workbook: Xlsx<_> = match Xlsx::new(Cursor::new(data)) {
        Ok(workbook) => workbook,
        Err(error) => return first_sheet(Err(error.to_string())).map(|_| Vec::new()),
    };
    let sheet_name = first_sheet(Ok(workbook.sheet_names()))?;
    let cells = workbook
        .worksheet_range(&sheet_name)
        .map(|range| range.rows().map(|row| row.iter().map(cell_of).collect()).collect())
        .map_err(|error| error.to_string());
    participants_from_cells(cells)
}

fn texts(list: &[&str]) -> Vec<String> {
    list.iter().map(|text| text.to_string()).collect()
}

fn extensions(list: &[Option<&str>]) -> Vec<Option<String>> {
    list.iter().map(|extension| extension.map(str::to_string)).collect()
}

fn workbook(sheets: &[(&str, &str)]) -> Vec<u8> {
    let mut book = String::from(
        "<?xml version=\"1.0\" encoding=\"UTF-8\"?><workbook xmlns=\"http://schemas.openxmlformats.org/spreadsheetml/2006/main\" xmlns:r=\"http://schemas.openxmlformats.org/officeDocument/2006/relationships\"><sheets>",
    );
    let mut rels = String::from(
        "<?xml version=\"1.0\" encoding=\"UTF-8\"?><Relationships xmlns=\"http://schemas.openxmlformats.org/package/2006/relationships\">",
    );
    for (index, (name, _)) in sheets.iter().enumerate() {
        let n = index + 1;
        book.push_str(&format!("<sheet name=\"{}\" sheetId=\"{}\" r:id=\"rId{}\"/>", name, n, n));
        rels.push_str(&format!(
            "<Relationship Id=\"rId{}\" Type=\"http://schemas.openxmlformats.org/officeDocument/2006/relationships/worksheet\" Target=\"worksheets/sheet{}.xml\"/>",
            n, n
        ));
    }
    book.push_str("</sheets></workbook>");
    rels.push_str("</Relationships>");
    let mut writer = zip::ZipWriter::new(Cursor::new(Vec::new()));
    let options = zip::write::SimpleFileOptions::default();
    writer.start_file("xl/workbook.xml", options).unwrap();
    writer.write_all(book.as_bytes()).unwrap();
    writer.start_file("xl/_rels/workbook.xml.rels", options).unwrap();
    writer.write_all(rels.as_bytes()).unwrap();
    for (index, (_, data)) in sheets.iter().enumerate() {
        if data.is_empty() {
            continue;
        }
        writer.start_file(format!("xl/worksheets/sheet{}.xml", index + 1), options).unwrap();
        writer.write_all(
            format!(
                "<?xml version=\"1.0\" encoding=\"UTF-8\"?><worksheet xmlns=\"http://schemas.openxmlformats.org/spreadsheetml/2006/main\"><sheetData>{}</sheetData></worksheet>",
                data
            )
            .as_bytes(),
        )
        .unwrap();
    }
    writer.finish().unwrap().into_inner()
}

fn text(cell: &str, value: &str) -> String {
    format!("<c r=\"{}\" t=\"inlineStr\"><is><t>{}</t></is></c>", cell, value)
}

fn sheet_rows(rows: &[String]) -> String {
    rows.iter()
        .enumerate()
        .map(|(index, cells)| format!("<row r=\"{}\">{}</row>", index + 1, cells))
        .collect()
}

#[test]
fn a_comma_file_is_read() {
    let data = b"Name,First Join,Email\nAda Lovelace,\"1/15/24, 1:30:00 PM\",ada@x.org\nBob Ross,\"1/15/24, 1:45:10 PM\",\n";
    let found = parse_csv_participants(data).unwrap();
    assert_eq!(found.len(), 2);
    assert_eq!(found[0].name, "Ada");
    assert_eq!(found[0].surname, "Lovelace");
    assert_eq!(found[0].id, "ada");
    assert_eq!(found[0].first_join.second, 48_600);
    assert_eq!(found[1].name, "Bob");
    assert_eq!(found[1].email, "");
    assert_eq!(found[1].first_join.second, 49_510);
}

#[test]
fn a_tab_file_in_utf16_with_a_preamble_is_read() {
    let content = "Meeting title\tPhysics\n\nName\tFirst Join\tEmail\nZoë Brontë\t1/15/24, 1:30:00 PM\tzoe@x.org\n";
    let mut data = vec![0xFF, 0xFE];
    for unit in content.encode_utf16() {
        data.extend_from_slice(&unit.to_le_bytes());
    }
    let found = parse_csv_participants(&data).unwrap();
    assert_eq!(found.len(), 1);
    assert_eq!(found[0].name, "Zoë");
    assert_eq!(found[0].surname, "Brontë");
}

#[test]
fn a_semicolon_file_in_windows_1252_is_read() {
    let data = b"Name;First Join;Email\nZo\xEB Bront\xEB;1/15/24, 1:30:00 PM;zoe@x.org\n";
    let found = parse_csv_participants(data).unwrap();
    assert_eq!(found.len(), 1);
    assert_eq!(found[0].name, "Zoë");
    assert_eq!(found[0].surname, "Brontë");
}

#[test]
fn rows_of_different_widths_are_read() {
    let data = b"Name,First Join,Email\nAda,\"1/15/24, 1:30:00 PM\"\nBob,\"1/15/24, 1:30:00 PM\",bob@x.org,extra,cells\nCy\n";
    let found = parse_csv_participants(data).unwrap();
    assert_eq!(found.len(), 2);
    assert_eq!(found[1].id, "bob");
}

#[test]
fn a_file_without_the_join_column_gives_no_participants_and_no_session() {
    let data = b"Name,Email\nAda,ada@x.org\n";
    let found = parse_csv_participants(data).unwrap();
    assert!(found.is_empty());
    let config = AttendanceConfig {
        class_start: "13:30".to_string(),
        class_end: "15:00".to_string(),
        late_minutes: "10".to_string(),
        absent_minutes: "30".to_string(),
        total_points: "10".to_string(),
        late_penalty: "0.5".to_string(),
        absent_penalty: "1".to_string(),
    };
    let report = generate_report(vec![found], config).unwrap();
    assert_eq!(report.sessions, 0);
    assert!(report.students.is_empty());
}

#[test]
fn a_bad_join_time_in_a_file_is_an_error() {
    let data = b"Name,First Join\nAda,15.01.2024 13:30\n";
    assert_eq!(parse_csv_participants(data).unwrap_err(), "Invalid datetime: 15.01.2024 13:30");
}

#[test]
fn an_empty_file_gives_no_participants() {
    assert!(parse_csv_participants(b"").unwrap().is_empty());
}

#[test]
fn the_extension_says_how_a_file_is_read() {
    assert_eq!(file_kind("csv"), FileKind::Delimited);
    assert_eq!(file_kind("xlsx"), FileKind::Workbook);
    assert_eq!(file_kind("xls"), FileKind::Workbook);
    assert_eq!(file_kind("txt"), FileKind::Other);
    assert_eq!(file_kind("CSV"), FileKind::Other);
    assert_eq!(file_kind(""), FileKind::Other);
}

#[test]
fn the_first_sheet_is_chosen() {
    assert_eq!(first_sheet(Ok(texts(&["Report", "Other"]))), Ok("Report".to_string()));
    assert_eq!(first_sheet(Ok(texts(&[""]))), Ok(String::new()));
}

#[test]
fn a_workbook_that_did_not_open_is_refused_with_its_error() {
    assert_eq!(
        first_sheet(Err("not a zip".to_string())),
        Err("Failed to open Excel data: not a zip".to_string())
    );
    assert_eq!(first_sheet(Ok(Vec::new())), Err("Excel file is missing sheets.".to_string()));
}

#[test]
fn a_sheet_that_could_not_be_read_is_refused_with_its_error() {
    assert_eq!(
        participants_from_cells(Err("gone".to_string())).unwrap_err(),
        "Failed to read Excel sheet: gone"
    );
}

#[test]
fn cells_stand_in_the_rows_as_their_text() {
    assert_eq!(cell_to_string(&Cell::Text(" Ada ".to_string())), " Ada ");
    assert_eq!(cell_to_string(&Cell::Whole(-12)), "-12");
    assert_eq!(cell_to_string(&Cell::Whole(0)), "0");
    assert_eq!(cell_to_string(&Cell::Truth(true)), "true");
    assert_eq!(cell_to_string(&Cell::Truth(false)), "false");
    assert_eq!(cell_to_string(&Cell::Printed("45306.5625".to_string())), "45306.5625");
    assert_eq!(cell_to_string(&Cell::Empty), "");
    assert_eq!(
        cells_to_rows(&vec![vec![Cell::Text("Name".to_string()), Cell::Empty], vec![], vec![Cell::Whole(7)]]),
        vec![texts(&["Name", ""]), texts(&[]), texts(&["7"])]
    );
}

#[test]
fn participants_are_read_from_cells() {
    let cells = vec![
        vec![Cell::Printed("2024".to_string())],
        vec![Cell::Text("Name".to_string()), Cell::Text("First Join".to_string()), Cell::Text("Email".to_string())],
        vec![
            Cell::Text("Ada Lovelace".to_string()),
            Cell::Text("1/15/24, 1:30:00 PM".to_string()),
            Cell::Text("ada@x.org".to_string()),
        ],
        vec![Cell::Whole(7), Cell::Text("1/15/24, 1:31:00 PM".to_string()), Cell::Empty],
        vec![Cell::Truth(true), Cell::Empty],
    ];
    let found = participants_from_cells(Ok(cells)).unwrap();
    assert_eq!(found.len(), 2);
    assert_eq!((found[0].name.as_str(), found[0].id.as_str()), ("Ada", "ada"));
    assert_eq!((found[1].name.as_str(), found[1].first_join.second), ("7", 48_660));
}

#[test]
fn files_are_read_in_the_byte_order_of_their_paths() {
    let paths = texts(&["b/2.csv", "a/10.csv", "a/2.csv", "B.csv", "a/10.csv", "a-b.csv", "é.csv", ""]);
    assert_eq!(reading_order(&paths), vec![7, 3, 5, 1, 4, 2, 0, 6]);
    assert_eq!(reading_order(&Vec::new()), Vec::<usize>::new());
    let mut sorted = paths.clone();
    sorted.sort();
    let ours: Vec<String> = reading_order(&paths).into_iter().map(|place| paths[place].clone()).collect();
    assert_eq!(ours, sorted);
}

#[test]
fn attendance_files_are_known_by_their_extension() {
    assert!(is_attendance_file("csv"));
    assert!(is_attendance_file("xlsx"));
    assert!(is_attendance_file("xls"));
    assert!(!is_attendance_file("CSV"));
    assert!(!is_attendance_file("txt"));
    assert!(!is_attendance_file("xlsm"));
    assert!(!is_attendance_file(""));
}

#[test]
fn bytes_that_are_no_workbook_are_refused() {
    let message = parse_excel_participants(b"Name,First Join\n").unwrap_err();
    assert!(message.starts_with("Failed to open Excel data: "), "{}", message);
    let message = parse_excel_participants(b"").unwrap_err();
    assert!(message.starts_with("Failed to open Excel data: "), "{}", message);
}

#[test]
fn a_workbook_without_sheets_is_refused() {
    assert_eq!(parse_excel_participants(&workbook(&[])).unwrap_err(), "Excel file is missing sheets.");
}

#[test]
fn a_workbook_whose_first_sheet_is_missing_is_refused() {
    let message = parse_excel_participants(&workbook(&[("Gone", "")])).unwrap_err();
    assert!(message.starts_with("Failed to read Excel sheet: "), "{}", message);
}

#[test]
fn an_empty_sheet_gives_no_participants() {
    let data = workbook(&[("Empty", " ")]);
    assert!(parse_excel_participants(&data).unwrap().is_empty());
}

#[test]
fn the_first_sheet_of_a_workbook_is_read() {
    let first = sheet_rows(&[
        text("A1", "Attendance") + "<c r=\"B1\"><v>2024</v></c>",
        text("A2", "Name") + &text("B2", " First Join ") + &text("C2", "Email") + &text("D2", "Minutes"),
        text("A3", "Ada Lovelace")
            + &text("B3", "1/15/24, 1:30:00 PM")
            + &text("C3", "ada@x.org")
            + "<c r=\"D3\"><v>55.5</v></c>",
        text("A4", "Bob Ross") + &text("B4", "01/15/2024, 01:42:00 PM") + "<c r=\"D4\" t=\"b\"><v>1</v></c>",
        "<c r=\"A5\"><v>7</v></c>".to_string() + &text("B5", "1/15/24, 1:30:00 PM"),
    ]);
    let second = sheet_rows(&[text("A1", "Name") + &text("B1", "First Join"), text("A2", "Eve") + &text("B2", "1/15/24, 1:30:00 PM")]);
    let data = workbook(&[("Report", &first), ("Other", &second)]);
    let found = parse_excel_participants(&data).unwrap();
    let seen: Vec<(String, String, String, u32)> = found
        .iter()
        .map(|p| (p.name.clone(), p.surname.clone(), p.id.clone(), p.first_join.second))
        .collect();
    assert_eq!(
        seen,
        vec![
            ("Ada".to_string(), "Lovelace".to_string(), "ada".to_string(), 48_600),
            ("Bob".to_string(), "Ross".to_string(), "".to_string(), 49_320),
            ("7".to_string(), "".to_string(), "".to_string(), 48_600),
        ]
    );
}

#[test]
fn a_bad_join_time_in_a_workbook_is_an_error() {
    let sheet = sheet_rows(&[
        text("A1", "Name") + &text("B1", "First Join"),
        text("A2", "Ada") + "<c r=\"B2\"><v>45306.5625</v></c>",
    ]);
    let data = workbook(&[("Sheet1", &sheet)]);
    assert_eq!(parse_excel_participants(&data).unwrap_err(), "Invalid datetime: 45306.5625");
}

#[test]
fn a_single_session_file_is_selected() {
    assert_eq!(select_sources(SourceKind::File, &extensions(&[Some("xlsx")])), Ok(vec![0]));
    assert_eq!(select_sources(SourceKind::File, &extensions(&[Some("csv"), Some("txt")])), Ok(vec![0]));
}

#[test]
fn a_single_file_of_another_kind_is_refused() {
    let message = "Selected file is not a supported CSV/XLSX attendance export.";
    assert_eq!(select_sources(SourceKind::File, &extensions(&[Some("pdf")])).unwrap_err(), message);
    assert_eq!(select_sources(SourceKind::File, &extensions(&[None])).unwrap_err(), message);
    assert_eq!(select_sources(SourceKind::File, &extensions(&[])).unwrap_err(), message);
}

#[test]
fn the_session_files_of_a_directory_are_selected_in_order() {
    let found = select_sources(
        SourceKind::Directory,
        &extensions(&[Some("txt"), Some("csv"), None, Some("xls"), Some("CSV"), Some("xlsx")]),
    );
    assert_eq!(found, Ok(vec![1, 3, 5]));
}

#[test]
fn a_directory_without_session_files_is_refused() {
    let message = "No attendance CSV/XLSX files found in the directory.";
    assert_eq!(select_sources(SourceKind::Directory, &extensions(&[])).unwrap_err(), message);
    assert_eq!(
        select_sources(SourceKind::Directory, &extensions(&[Some("txt"), None])).unwrap_err(),
        message
    );
}

#[test]
fn a_path_that_is_neither_file_nor_directory_is_refused() {
    assert_eq!(
        select_sources(SourceKind::Neither, &extensions(&[Some("csv")])).unwrap_err(),
        "Please select a valid directory or attendance file."
    );
}

#[test]
fn a_file_without_extension_is_no_session_file() {
    assert!(!is_session_file(&None));
    assert!(!is_session_file(&Some(String::new())));
    assert!(is_session_file(&Some("csv".to_string())));
}

#[test]
fn the_checked_reader_reads_what_the_reader_reads() {
    let data = b"Name,First Join\nAda,\"1/15/24, 1:30:00 PM\"\nBob,never\n";
    assert_eq!(
        try_parse_csv_participants(data).unwrap().unwrap_err(),
        "Invalid datetime: never"
    );
    let data = b"Name,First Join\nAda,\"1/15/24, 1:30:00 PM\"\n";
    assert_eq!(try_parse_csv_participants(data).unwrap().unwrap().len(), 1);
}
