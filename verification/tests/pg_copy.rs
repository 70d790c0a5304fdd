use wxyc_etl::pg::copy::{escape_copy_text, escape_copy_text_into};
// -- escape_copy_text tests --

#[test]
fn test_escape_backslash() {
    assert_eq!(escape_copy_text("a\\b"), "a\\\\b");
}

#[test]
fn test_escape_newline() {
    assert_eq!(escape_copy_text("line1\nline2"), "line1\\nline2");
}

#[test]
fn test_escape_tab() {
    assert_eq!(escape_copy_text("col1\tcol2"), "col1\\tcol2");
}

#[test]
fn test_escape_cr() {
    assert_eq!(escape_copy_text("a\rb"), "a\\rb");
}

#[test]
fn test_escape_no_special() {
    assert_eq!(escape_copy_text("plain text"), "plain text");
}

#[test]
fn test_escape_mixed() {
    assert_eq!(
        escape_copy_text("line1\nline2\ttab\\slash"),
        "line1\\nline2\\ttab\\\\slash"
    );
}

// -- escape_copy_text_into tests --

#[test]
fn test_escape_into_plain() {
    let mut buf = Vec::new();
    escape_copy_text_into(&mut buf, "hello world");
    assert_eq!(buf, b"hello world");
}

#[test]
fn test_escape_into_special_chars() {
    let mut buf = Vec::new();
    escape_copy_text_into(&mut buf, "line1\nline2\ttab\\slash\rret");
    assert_eq!(buf, b"line1\\nline2\\ttab\\\\slash\\rret");
}

#[test]
fn test_escape_into_matches_escape_copy_text() {
    let cases = ["hello", "a\tb", "a\nb", "a\\b", "a\rb", "mix\t\n\\end"];
    for s in &cases {
        let mut buf = Vec::new();
        escape_copy_text_into(&mut buf, s);
        assert_eq!(
            String::from_utf8(buf).unwrap(),
            escape_copy_text(s),
            "Mismatch for input: {:?}",
            s,
        );
    }
}

#[test]
fn escaped_text_has_no_raw_delimiters() {
    let out = escape_copy_text("a\tb\nc\rd\\e");
    assert_eq!(out, "a\\tb\\nc\\rd\\\\e");
    assert!(!out.contains('\t') && !out.contains('\n') && !out.contains('\r'));
}

fn unescape(s: &str) -> String {
    let mut out = String::new();
    let mut it = s.chars().peekable();
    while let Some(c) = it.next() {
        if c == '\\' {
            if let Some(&n) = it.peek() {
                it.next();
                out.push(match n {
                    'n' => '\n',
                    'r' => '\r',
                    't' => '\t',
                    other => other,
                });
                continue;
            }
        }
        out.push(c);
    }
    out
}

#[test]
fn escape_round_trips_through_unescape() {
    for s in ["a\\b", "line1\nline2\r\tend", "\\n is not a newline", "", "plain", "trailing\\"] {
        assert_eq!(unescape(&escape_copy_text(s)), s);
    }
    assert_eq!(escape_copy_text("a\\b"), "a\\\\b");
}
