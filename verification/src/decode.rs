//! From the bytes of a delimited text file to its text and its delimiter.

use vstd::prelude::*;
use vstd::utf8::{decode_utf8, valid_utf8};
use crate::text::{chars_of, is_whitespace, is_whitespace_at};

verus! {

/// A character encoding that an export may be written in.
#[derive(Debug, Clone, Copy, PartialEq, Eq, Structural)]
pub enum Encoding {
    Utf8,
    Utf16Le,
    Utf16Be,
    Windows1252,
}

/// What `encoding_rs::Encoding::decode_with_bom_removal` makes of `bytes` in
/// the encoding `encoding`: the text, malformed sequences replaced.
pub uninterp spec fn bom_removed_text(encoding: Encoding, bytes: Seq<u8>) -> Seq<char>;

/// What `encoding_rs::Encoding::decode_without_bom_handling` makes of `bytes`
/// in the encoding `encoding`: the text, malformed sequences replaced.
pub uninterp spec fn unmarked_text(encoding: Encoding, bytes: Seq<u8>) -> Seq<char>;

/// What `String::from_utf8_lossy` makes of `bytes`: the text, each invalid
/// sequence replaced.
pub uninterp spec fn lossy_text(bytes: Seq<u8>) -> Seq<char>;

/// The largest input that the decoders take: they reserve up to three bytes of
/// text for each byte read, twice over.
pub open spec fn decodable(bytes: Seq<u8>) -> bool {
    bytes.len() <= usize::MAX / 16
}

/// `encoding_rs::Encoding::decode_with_bom_removal`, on the static encoding
/// that `encoding` stands for. The text depends on the encoding and the bytes
/// alone and is named, not spelled out. The outside function panics when the
/// size of its buffer overflows, which the bound on the length rules out.
#[verifier::external_body]
fn decode_with_bom_removal(encoding: Encoding, bytes: &[u8]) -> (text: String)
    requires
        decodable(bytes@),
    ensures
        text@ == bom_removed_text(encoding, bytes@),
{
    let decoder = match encoding {
        Encoding::Utf8 => encoding_rs::UTF_8,
        Encoding::Utf16Le => encoding_rs::UTF_16LE,
        Encoding::Utf16Be => encoding_rs::UTF_16BE,
        Encoding::Windows1252 => encoding_rs::WINDOWS_1252,
    };
    decoder.decode_with_bom_removal(bytes).0.into_owned()
}

/// `encoding_rs::Encoding::decode_without_bom_handling`, on the static
/// encoding that `encoding` stands for. The text depends on the encoding and
/// the bytes alone and is named, not spelled out. The outside function panics
/// when the size of its buffer overflows, which the bound on the length rules
/// out.
#[verifier::external_body]
fn decode_without_bom_handling(encoding: Encoding, bytes: &[u8]) -> (text: String)
    requires
        decodable(bytes@),
    ensures
        text@ == unmarked_text(encoding, bytes@),
{
    let decoder = match encoding {
        Encoding::Utf8 => encoding_rs::UTF_8,
        Encoding::Utf16Le => encoding_rs::UTF_16LE,
        Encoding::Utf16Be => encoding_rs::UTF_16BE,
        Encoding::Windows1252 => encoding_rs::WINDOWS_1252,
    };
    decoder.decode_without_bom_handling(bytes).0.into_owned()
}

/// `std::str::from_utf8`: the text where the bytes are valid UTF-8, nothing
/// where they are not.
#[verifier::external_body]
fn strict_utf8(bytes: &[u8]) -> (text: Option<String>)
    ensures
        text is Some <==> valid_utf8(bytes@),
        text is Some ==> text->0@ == decode_utf8(bytes@),
{
    match std::str::from_utf8(bytes) {
        Ok(text) => Some(text.to_string()),
        Err(_) => None,
    }
}

/// `String::from_utf8_lossy`. The text depends on the bytes alone and is
/// named, not spelled out.
#[verifier::external_body]
fn lossy_utf8(bytes: &[u8]) -> (text: String)
    ensures
        text@ == lossy_text(bytes@),
{
    String::from_utf8_lossy(bytes).into_owned()
}

/// The encoding that a byte-order mark at the start of `bytes` announces:
/// `FF FE` for UTF-16 little-endian, `FE FF` for UTF-16 big-endian,
/// `EF BB BF` for UTF-8. `None` without a mark.
pub open spec fn marked_encoding(bytes: Seq<u8>) -> Option<Encoding> {
    if bytes.len() >= 2 && bytes[0] == 0xFF && bytes[1] == 0xFE {
        Some(Encoding::Utf16Le)
    } else if bytes.len() >= 2 && bytes[0] == 0xFE && bytes[1] == 0xFF {
        Some(Encoding::Utf16Be)
    } else if bytes.len() >= 3 && bytes[0] == 0xEF && bytes[1] == 0xBB && bytes[2] == 0xBF {
        Some(Encoding::Utf8)
    } else {
        None
    }
}

/// The text of a file: decoded as its byte-order mark says; without a mark,
/// read as UTF-8 where the bytes are valid UTF-8 and as Windows-1252 where
/// they are not.
pub open spec fn decoded_text(bytes: Seq<u8>) -> Seq<char> {
    match marked_encoding(bytes) {
        Some(encoding) => bom_removed_text(encoding, bytes),
        None => if valid_utf8(bytes) {
            decode_utf8(bytes)
        } else {
            unmarked_text(Encoding::Windows1252, bytes)
        },
    }
}

/// Looks for a byte-order mark at the start of `bytes`.
pub fn sniff_encoding(bytes: &[u8]) -> (encoding: Option<Encoding>)
    ensures
        encoding == marked_encoding(bytes@),
{
    if bytes.len() >= 2 && bytes[0] == 0xFF && bytes[1] == 0xFE {
        Some(Encoding::Utf16Le)
    } else if bytes.len() >= 2 && bytes[0] == 0xFE && bytes[1] == 0xFF {
        Some(Encoding::Utf16Be)
    } else if bytes.len() >= 3 && bytes[0] == 0xEF && bytes[1] == 0xBB && bytes[2] == 0xBF {
        Some(Encoding::Utf8)
    } else {
        None
    }
}

/// The delimiter for a first line with the given numbers of commas, tabs and
/// semicolons: the tab where no other is more frequent, else the semicolon
/// where it is more frequent than the comma, else the comma. A tie goes to the
/// tab, and a tie of semicolon and comma to the comma.
pub open spec fn chosen_delimiter(commas: nat, tabs: nat, semicolons: nat) -> u8 {
    if tabs >= commas && tabs >= semicolons {
        0x09
    } else if semicolons > commas {
        0x3B
    } else {
        0x2C
    }
}

/// Chooses the delimiter from the three counts of a sample line.
pub fn choose_delimiter(commas: usize, tabs: usize, semicolons: usize) -> (delimiter: u8)
    ensures
        delimiter == chosen_delimiter(commas as nat, tabs as nat, semicolons as nat),
        delimiter == 0x09 || delimiter == 0x3B || delimiter == 0x2C,
        commas > 0 && tabs == 0 && semicolons == 0 ==> delimiter == 0x2C,
        tabs == commas && tabs >= semicolons ==> delimiter == 0x09,
{
    if tabs >= commas && tabs >= semicolons {
        0x09
    } else if semicolons > commas {
        0x3B
    } else {
        0x2C
    }
}

/// The first line of `text`: what stands before its first line feed.
pub open spec fn first_line(text: Seq<char>) -> Seq<char>
    decreases text.len(),
{
    if text.len() == 0 || text[0] == '\n' {
        Seq::empty()
    } else {
        seq![text[0]] + first_line(text.drop_first())
    }
}

/// A first line is no longer than the text.
pub proof fn lemma_first_line_len(text: Seq<char>)
    ensures
        first_line(text).len() <= text.len(),
    decreases text.len(),
{
    if text.len() > 0 && text[0] != '\n' {
        lemma_first_line_len(text.drop_first());
    }
}

/// The line holds nothing but white space.
pub open spec fn is_blank(line: Seq<char>) -> bool {
    forall|i: int| 0 <= i < line.len() ==> is_whitespace(#[trigger] line[i])
}

/// The first line of `text` that is not blank, or the empty line where every
/// line is blank.
pub open spec fn sample_line(text: Seq<char>) -> Seq<char>
    decreases text.len(),
    via sample_line_terminates
{
    let line = first_line(text);
    if !is_blank(line) {
        line
    } else if line.len() >= text.len() {
        Seq::empty()
    } else {
        sample_line(text.skip(line.len() as int + 1))
    }
}

#[via_fn]
proof fn sample_line_terminates(text: Seq<char>) {
    lemma_first_line_len(text);
}

/// How often `c` stands in `line`.
pub open spec fn count_of(line: Seq<char>, c: char) -> nat
    decreases line.len(),
{
    if line.len() == 0 {
        0
    } else {
        count_of(line.drop_last(), c) + if line.last() == c {
            1nat
        } else {
            0nat
        }
    }
}

/// The delimiter that `sample` suggests: the one chosen from the commas, tabs
/// and semicolons of its first line that is not blank.
pub open spec fn delimiter_of(sample: Seq<char>) -> u8 {
    let line = sample_line(sample);
    chosen_delimiter(count_of(line, ','), count_of(line, '\t'), count_of(line, ';'))
}

/// Detects the delimiter of decoded sample text.
pub fn delimiter_of_sample(sample: &str) -> (delimiter: u8)
    ensures
        delimiter == delimiter_of(sample@),
{
    let chars = chars_of(sample);
    let n = chars.len();
    let ghost text = chars@;
    let mut from: usize = 0;
    assert(text.skip(0) =~= text);
    while from < n
        invariant
            from <= n,
            n == chars.len(),
            text == chars@,
            text == sample@,
            sample_line(text) == sample_line(text.skip(from as int)),
        decreases n - from,
    {
        let mut at: usize = from;
        let mut blank = true;
        let mut commas: usize = 0;
        let mut tabs: usize = 0;
        let mut semicolons: usize = 0;
        let ghost rest = text.skip(from as int);
        assert(text.subrange(from as int, from as int) =~= Seq::<char>::empty());
        while at < n && chars[at] != '\n'
            invariant
                from <= at <= n,
                n == chars.len(),
                text == chars@,
                rest == text.skip(from as int),
                first_line(rest) == text.subrange(from as int, at as int) + first_line(
                    text.skip(at as int),
                ),
                blank == is_blank(text.subrange(from as int, at as int)),
                commas == count_of(text.subrange(from as int, at as int), ','),
                tabs == count_of(text.subrange(from as int, at as int), '\t'),
                semicolons == count_of(text.subrange(from as int, at as int), ';'),
                commas <= at - from,
                tabs <= at - from,
                semicolons <= at - from,
            decreases n - at,
        {
            let c = chars[at];
            let ghost seen = text.subrange(from as int, at as int);
            let ghost more = text.subrange(from as int, at + 1);
            proof {
                assert(text.skip(at as int).drop_first() =~= text.skip(at + 1));
                assert(more =~= seen.push(c));
                assert(more.drop_last() =~= seen);
                assert(seen + (seq![c] + first_line(text.skip(at + 1))) =~= more + first_line(
                    text.skip(at + 1),
                ));
            }
            let white = is_whitespace_at(&chars, at);
            proof {
                if blank && white {
                    assert forall|i: int| 0 <= i < more.len() implies is_whitespace(
                        #[trigger] more[i],
                    ) by {
                        if i < seen.len() {
                            assert(more[i] == seen[i]);
                        }
                    }
                } else if !white {
                    assert(!is_whitespace(more[more.len() - 1]));
                } else {
                    let i = choose|i: int| 0 <= i < seen.len() && !is_whitespace(#[trigger] seen[i]);
                    assert(!is_whitespace(more[i]));
                }
            }
            blank = blank && white;
            if c == ',' {
                commas += 1;
            }
            if c == '\t' {
                tabs += 1;
            }
            if c == ';' {
                semicolons += 1;
            }
            at += 1;
        }
        proof {
            assert(first_line(text.skip(at as int)) =~= Seq::<char>::empty());
            assert(text.subrange(from as int, at as int) + Seq::<char>::empty() =~= text.subrange(
                from as int,
                at as int,
            ));
            lemma_first_line_len(rest);
        }
        if !blank {
            return choose_delimiter(commas, tabs, semicolons);
        }
        if at == n {
            proof {
                assert(first_line(rest).len() >= rest.len());
                assert(count_of(Seq::<char>::empty(), ',') == 0);
            }
            return choose_delimiter(0, 0, 0);
        }
        proof {
            assert(rest.skip(first_line(rest).len() as int + 1) =~= text.skip(at + 1));
        }
        from = at + 1;
    }
    proof {
        let rest = text.skip(n as int);
        assert(rest.len() == 0);
        assert(first_line(rest) =~= Seq::<char>::empty());
        assert(is_blank(first_line(rest)));
        assert(sample_line(rest) =~= Seq::<char>::empty());
    }
    choose_delimiter(0, 0, 0)
}

/// Detects the delimiter of a file from its raw bytes, read as UTF-8 with
/// invalid sequences replaced.
pub fn detect_delimiter(bytes: &[u8]) -> (delimiter: u8)
    ensures
        delimiter == delimiter_of(lossy_text(bytes@)),
{
    let sample = lossy_utf8(bytes);
    delimiter_of_sample(sample.as_str())
}

/// Decodes the bytes of a delimited text file and detects its delimiter. The
/// delimiter is looked for in the raw bytes, not in the decoded text.
pub fn decode_csv_text(bytes: &[u8]) -> (decoded: (String, u8))
    requires
        decodable(bytes@),
    ensures
        decoded.0@ == decoded_text(bytes@),
        decoded.1 == delimiter_of(lossy_text(bytes@)),
{
    let delimiter = detect_delimiter(bytes);
    let text = match sniff_encoding(bytes) {
        Some(encoding) => decode_with_bom_removal(encoding, bytes),
        None => match strict_utf8(bytes) {
            Some(text) => text,
            None => decode_without_bom_handling(Encoding::Windows1252, bytes),
        },
    };
    (text, delimiter)
}

} // verus!
