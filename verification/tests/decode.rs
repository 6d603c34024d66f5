use presence::decode::{
    choose_delimiter, decode_csv_text, delimiter_of_sample, detect_delimiter, sniff_encoding,
    Encoding,
};

#[test]
fn comma_wins_with_three_commas_and_nothing_else() {
    assert_eq!(choose_delimiter(3, 0, 0), b',');
    assert_eq!(detect_delimiter(b"a,b,c,d\n1\t2\n"), b',');
}

#[test]
fn tab_wins_a_tie_with_commas() {
    assert_eq!(choose_delimiter(2, 2, 0), b'\t');
    assert_eq!(detect_delimiter(b"a,b\tc,d\te\n"), b'\t');
}

#[test]
fn semicolon_must_beat_the_comma() {
    assert_eq!(choose_delimiter(1, 0, 2), b';');
    assert_eq!(choose_delimiter(2, 0, 2), b',');
    assert_eq!(choose_delimiter(0, 2, 2), b'\t');
    assert_eq!(choose_delimiter(0, 2, 3), b';');
    assert_eq!(detect_delimiter(b"a;b;c,d\n"), b';');
}

#[test]
fn a_line_without_any_delimiter_gives_the_tab() {
    assert_eq!(choose_delimiter(0, 0, 0), b'\t');
    assert_eq!(detect_delimiter(b"Name\n"), b'\t');
    assert_eq!(detect_delimiter(b""), b'\t');
    assert_eq!(detect_delimiter(b"\n \n\t\n"), b'\t');
}

#[test]
fn the_first_line_that_is_not_blank_decides() {
    assert_eq!(detect_delimiter(b"\n  \r\n \na,b,c\nx;y;z;w;v\n"), b',');
    assert_eq!(detect_delimiter(b"\t\t\t\nx;y\n"), b';');
    assert_eq!(delimiter_of_sample("\u{a0}\u{2003}\nx;y\n"), b';');
    assert_eq!(delimiter_of_sample("a,b"), b',');
}

#[test]
fn a_later_line_does_not_change_the_choice() {
    assert_eq!(detect_delimiter(b"Meeting\tsummary\nName,First Join,Email\n"), b'\t');
}

#[test]
fn the_delimiter_is_found_in_utf16_bytes() {
    let mut bytes = vec![0xFF, 0xFE];
    for unit in "a;b;c\n".encode_utf16() {
        bytes.extend_from_slice(&unit.to_le_bytes());
    }
    assert_eq!(detect_delimiter(&bytes), b';');
}

#[test]
fn the_delimiter_is_found_among_invalid_bytes() {
    assert_eq!(detect_delimiter(b"caf\xE9,au,lait\n"), b',');
}

#[test]
fn byte_order_marks_are_told_apart() {
    assert_eq!(sniff_encoding(&[0xFF, 0xFE, 0x41, 0x00]), Some(Encoding::Utf16Le));
    assert_eq!(sniff_encoding(&[0xFE, 0xFF, 0x00, 0x41]), Some(Encoding::Utf16Be));
    assert_eq!(sniff_encoding(&[0xEF, 0xBB, 0xBF, 0x41]), Some(Encoding::Utf8));
    assert_eq!(sniff_encoding(&[0xEF, 0xBB]), None);
    assert_eq!(sniff_encoding(&[0xFF]), None);
    assert_eq!(sniff_encoding(b"Name"), None);
    assert_eq!(sniff_encoding(&[]), None);
}

#[test]
fn utf16_little_endian_is_decoded_without_its_mark() {
    let mut bytes = vec![0xFF, 0xFE];
    for unit in "Name,Zoë\n".encode_utf16() {
        bytes.extend_from_slice(&unit.to_le_bytes());
    }
    assert_eq!(decode_csv_text(&bytes), ("Name,Zoë\n".to_string(), b','));
}

#[test]
fn utf16_big_endian_is_decoded_without_its_mark() {
    let mut bytes = vec![0xFE, 0xFF];
    for unit in "Name\tZoë\n".encode_utf16() {
        bytes.extend_from_slice(&unit.to_be_bytes());
    }
    assert_eq!(decode_csv_text(&bytes), ("Name\tZoë\n".to_string(), b'\t'));
}

#[test]
fn utf8_with_a_mark_is_decoded_without_it() {
    let mut bytes = vec![0xEF, 0xBB, 0xBF];
    bytes.extend_from_slice("Name;Zoë\n".as_bytes());
    let (text, _) = decode_csv_text(&bytes);
    assert_eq!(text, "Name;Zoë\n");
}

#[test]
fn utf8_with_a_mark_has_invalid_bytes_replaced() {
    let (text, _) = decode_csv_text(&[0xEF, 0xBB, 0xBF, b'a', 0xFF, b'b']);
    assert_eq!(text, "a\u{fffd}b");
}

#[test]
fn valid_utf8_without_a_mark_is_taken_as_it_is() {
    assert_eq!(decode_csv_text("Name,Zoë\n".as_bytes()), ("Name,Zoë\n".to_string(), b','));
    assert_eq!(decode_csv_text(b""), (String::new(), b'\t'));
}

#[test]
fn invalid_utf8_without_a_mark_is_read_as_windows_1252() {
    let (text, delimiter) = decode_csv_text(b"Name,Zo\xEB,\x80\n");
    assert_eq!(text, "Name,Zoë,€\n");
    assert_eq!(delimiter, b',');
}
