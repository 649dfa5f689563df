use binspect::{binspect_string, write_internal, Record};
use std::io::Write;

/// The address that `{:p}` shows for `t` (for a wide pointer it is written
/// beside the metadata, as `Pointer { addr: 0x.., metadata: .. }`).
fn address_of<T: ?Sized>(t: &T) -> usize {
    let text = format!("{:p}", t);
    let start = text.find("0x").unwrap() + 2;
    let digits: String = text[start..].chars().take_while(|c| c.is_ascii_hexdigit()).collect();
    usize::from_str_radix(&digits, 16).unwrap()
}

/// The two words of a `&str`: where its bytes are, then how many there are.
fn str_ref_bytes(s: &str) -> Vec<u8> {
    let mut v = address_of(s).to_ne_bytes().to_vec();
    v.extend_from_slice(&s.len().to_ne_bytes());
    v
}

fn record<'a, T: ?Sized>(
    t: &'a T,
    bytes: &'a [u8],
    sized: bool,
    type_label: &'a str,
    source: &'a str,
) -> Record<'a> {
    Record {
        address: address_of(t),
        bytes,
        sized,
        type_label,
        source,
        label: None,
        file: "tests/binspect.rs",
        line: 0,
        column: 0,
    }
}

fn at(address: usize, bytes: &[u8], absolute: bool) -> String {
    let r = Record {
        address,
        bytes,
        sized: true,
        type_label: "str",
        source: "*s",
        label: None,
        file: "",
        line: 0,
        column: 0,
    };
    let mut out = String::new();
    write_internal(&mut out, &r, absolute);
    out
}

fn contents_of(s: &str) -> String {
    binspect_string(&record(s, s.as_bytes(), true, "str", "*s"))
}

#[test]
fn test_binspect_string() {
    let s = "ABC";
    let words = str_ref_bytes(s);
    let actual: String = binspect_string(&record(&s, &words, true, "&str", "s"));
    assert!(actual.starts_with("-----+ 0x"));
    assert!(actual.contains("0000 |"));
    assert!(actual.contains(": &str = s"));
    let actual: String = binspect_string(&record(s, s.as_bytes(), true, "str", "*s"));
    assert!(actual.starts_with("-----+ 0x"));
    assert!(actual.contains(": str = *s"));
    assert!(actual.contains("0000 |"));
}

#[test]
fn test_binspect_string_with_len() {
    let s = "ABC";
    let actual: String = binspect_string(&record(s, &s.as_bytes()[..3], false, "str", "*s"));
    assert!(actual.starts_with("-----+ 0x"));
    assert!(actual.contains(": str = *s"));
    assert!(actual.contains("0000 |"));
}

#[test]
fn test_binspect_string_various() {
    let cases: [(&str, &[&str], &[&str]); 6] = [
        ("", &["-----+ 0x"], &["0000 |", " : ", "0010 |"]),
        ("0", &["-----+ 0x", "0000 |"], &[" : ", "0010 |"]),
        ("01234567", &["-----+ 0x", "0000 |"], &[" : ", "0010 |"]),
        ("012345678", &["-----+ 0x", "0000 |", " : "], &["0010 |"]),
        ("0123456789ABCDEF", &["-----+ 0x", "0000 |", " : "], &["0010 |"]),
        ("0123456789ABCDEF0", &["-----+ 0x", "0000 |", " : ", "0010 |"], &[]),
    ];
    for (s, contains, not_contains) in cases {
        let text = binspect_string(&record(s, s.as_bytes(), true, "str", "*\"\""));
        for c in contains {
            assert!(text.contains(c));
        }
        for c in not_contains {
            assert!(!text.contains(c));
        }
    }
}

#[test]
fn write_binspect() {
    let s = "ABC";
    let words = str_ref_bytes(s);
    let mut buf = String::new();
    write_internal(&mut buf, &record(&s, &words, true, "&str", "s"), false);
    let actual = buf;
    assert!(actual.starts_with("-----+ 0x"));
    assert!(actual.contains("0000 |"));
    assert!(actual.contains(": &str = s"));
    let mut buf = String::new();
    write_internal(&mut buf, &record(s, s.as_bytes(), true, "str", "*s"), false);
    let actual = buf;
    assert!(actual.starts_with("-----+ 0x"));
    assert!(actual.contains(": str = *s"));
    assert!(actual.contains("0000 |"));
}

#[test]
fn write_binspect_with_len() {
    let s = "ABC";
    let mut buf = String::new();
    write_internal(&mut buf, &record(s, &s.as_bytes()[..3], false, "str", "*s"), false);
    let actual = buf;
    assert!(actual.starts_with("-----+ 0x"));
    assert!(actual.contains(": str = *s"));
    assert!(actual.contains("0000 |"));
}

#[test]
fn test_binspect() {
    let s = "ABC";
    let words = str_ref_bytes(s);
    let mut out = std::io::stdout().lock();
    out.write_all(binspect_string(&record(&s, &words, true, "&str", "s")).as_bytes()).unwrap();
    out.write_all(binspect_string(&record(s, s.as_bytes(), true, "str", "*s")).as_bytes()).unwrap();
}

#[test]
fn test_binspect_with_len() {
    let s = "ABC";
    let text = binspect_string(&record(s, &s.as_bytes()[..3], false, "str", "*s"));
    std::io::stdout().lock().write_all(text.as_bytes()).unwrap();
}

#[test]
fn test_ebinspect() {
    let s = "ABC";
    let words = str_ref_bytes(s);
    let mut err = std::io::stderr().lock();
    err.write_all(binspect_string(&record(&s, &words, true, "&str", "s")).as_bytes()).unwrap();
    err.write_all(binspect_string(&record(s, s.as_bytes(), true, "str", "*s")).as_bytes()).unwrap();
}

#[test]
fn test_ebinspect_with_len() {
    let s = "ABC";
    let text = binspect_string(&record(s, &s.as_bytes()[..3], false, "str", "*s"));
    std::io::stderr().lock().write_all(text.as_bytes()).unwrap();
}

#[test]
fn three_bytes_make_one_row() {
    assert_eq!(at(0x1000, b"ABC", false), "-----+ 0x1000: str = *s\n0000 | 41 42 43\n");
}

#[test]
fn empty_view_is_header_only() {
    assert_eq!(at(0x1000, b"", false), "-----+ 0x1000: str = *s\n");
    assert_eq!(at(0x1000, b"", true), "0x1000 : str = *s\n");
    let text = contents_of("");
    assert!(!text.contains("0000 |"));
    assert_eq!(text.matches('\n').count(), 1);
}

#[test]
fn eight_bytes_have_no_separator() {
    assert_eq!(
        at(0x20, b"01234567", false),
        "-----+ 0x20: str = *s\n0000 | 30 31 32 33 34 35 36 37\n"
    );
}

#[test]
fn nine_bytes_have_separator_before_the_ninth() {
    assert_eq!(
        at(0x20, b"012345678", false),
        "-----+ 0x20: str = *s\n0000 | 30 31 32 33 34 35 36 37 : 38\n"
    );
}

#[test]
fn seventeen_bytes_make_two_rows() {
    assert_eq!(
        at(0x20, b"0123456789ABCDEF0", false),
        "-----+ 0x20: str = *s\n\
         0000 | 30 31 32 33 34 35 36 37 : 38 39 41 42 43 44 45 46\n\
         0010 | 30\n"
    );
}

#[test]
fn absolute_mode_shows_row_addresses() {
    assert_eq!(
        at(0x7ff0, b"0123456789ABCDEF0", true),
        "0x7ff0 : str = *s\n\
         0x7ff0 | 30 31 32 33 34 35 36 37 : 38 39 41 42 43 44 45 46\n\
         0x8000 | 30\n"
    );
}

#[test]
fn zero_address_has_one_digit() {
    assert_eq!(at(0, b"\x00", false), "-----+ 0x0: str = *s\n0000 | 00\n");
}

#[test]
fn byte_values_are_two_lower_case_digits() {
    assert_eq!(
        at(0xABCDEF, &[0x00, 0x0a, 0xab, 0xff], false),
        "-----+ 0xabcdef: str = *s\n0000 | 00 0a ab ff\n"
    );
}

#[test]
fn explicit_length_dumps_a_prefix() {
    let s = "ABCDEF";
    let whole = binspect_string(&record(s, s.as_bytes(), true, "str", "*s"));
    let full_len = binspect_string(&record(s, &s.as_bytes()[..6], false, "str", "*s"));
    assert_eq!(whole, full_len);
    let prefix = binspect_string(&record(s, &s.as_bytes()[..2], false, "str", "*s"));
    assert!(prefix.ends_with("\n0000 | 41 42\n"));
}

#[test]
fn rows_and_cells_match_length() {
    for len in [1usize, 15, 16, 17, 31, 32, 33, 100, 256] {
        let bytes: Vec<u8> = (0..len).map(|i| i as u8).collect();
        let text = at(0x10, &bytes, false);
        let rows: Vec<&str> = text.lines().skip(1).collect();
        assert_eq!(rows.len(), (len + 15) / 16);
        let mut cells = 0;
        for (k, row) in rows.iter().enumerate() {
            assert!(row.starts_with(&format!("{:04x} |", 16 * k)));
            let tokens: Vec<&str> = row.split(' ').skip(2).filter(|t| *t != ":").collect();
            assert!(tokens.iter().all(|t| t.len() == 2));
            cells += tokens.len();
            let in_row = std::cmp::min(16, len - 16 * k);
            assert_eq!(row.matches(" :").count(), if in_row > 8 { 1 } else { 0 });
        }
        assert_eq!(cells, len);
        assert!(text.ends_with('\n'));
        assert!(!text.ends_with("\n\n"));
    }
}

#[test]
fn offsets_past_four_digits_keep_growing() {
    let bytes = vec![0u8; 0x10011];
    let text = at(0, &bytes, false);
    assert!(text.contains("\nfff0 | 00"));
    assert!(text.contains("\n10000 | 00"));
    assert!(text.contains("\n10010 | 00\n"));
}

#[test]
fn labels_are_kept_verbatim() {
    let r = Record {
        address: 0x10,
        bytes: b"",
        sized: true,
        type_label: "Vec<Option<&'static str>>",
        source: "a.b[0] = \"x\"",
        label: None,
        file: "",
        line: 0,
        column: 0,
    };
    assert_eq!(binspect_string(&r), "-----+ 0x10: Vec<Option<&'static str>> = a.b[0] = \"x\"\n");
}

#[test]
fn write_internal_appends() {
    let r = Record {
        address: 0x10,
        bytes: b"A",
        sized: true,
        type_label: "u8",
        source: "a",
        label: None,
        file: "",
        line: 0,
        column: 0,
    };
    let mut out = String::from("before\n");
    write_internal(&mut out, &r, false);
    assert_eq!(out, "before\n-----+ 0x10: u8 = a\n0000 | 41\n");
}
