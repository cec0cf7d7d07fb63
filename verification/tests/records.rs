use cargo_edit_completion::crates::Crate;
use cargo_edit_completion::error::Error;
use cargo_edit_completion::records::{load_records, record_lines};
use cargo_edit_completion::text::{chars_of, string_of, trim};

fn strings(items: &[&str]) -> Vec<String> {
    items.iter().map(|s| s.to_string()).collect()
}

fn release(version: &str) -> Crate {
    Crate { name: "demo".to_string(), version: version.to_string(), features: Vec::new(), yanked: false }
}

#[test]
fn record_lines_split_at_line_feeds() {
    assert_eq!(record_lines("a\nb\nc"), strings(&["a", "b", "c"]));
    assert_eq!(record_lines("a\nb\n"), strings(&["a", "b"]));
    assert_eq!(record_lines("\n\n a\nb \n\n"), strings(&["a", "b"]));
}

#[test]
fn record_lines_keep_empty_lines_inside() {
    assert_eq!(record_lines("a\n\nb"), strings(&["a", "", "b"]));
}

#[test]
fn record_lines_drop_one_carriage_return() {
    assert_eq!(record_lines("a\r\nb\r\nc"), strings(&["a", "b", "c"]));
    assert_eq!(record_lines("a\r\r\nb"), strings(&["a\r", "b"]));
    assert_eq!(record_lines("a\rb\nc"), strings(&["a\rb", "c"]));
}

#[test]
fn record_lines_of_blank_text_is_empty() {
    assert_eq!(record_lines(""), Vec::<String>::new());
    assert_eq!(record_lines(" \n\t\r\n "), Vec::<String>::new());
}

#[test]
fn record_lines_agree_with_std() {
    for text in ["", "x", "x\n", "\nx", "a\r\nb\n\nc\r", "  {\"a\":1}\n{\"b\":2}\n\n", "a\n \nb", "\r\n", "a\u{2028}b\nc\u{a0}"] {
        let expected: Vec<String> = text.trim().lines().map(|l| l.to_string()).collect();
        assert_eq!(record_lines(text), expected);
    }
}

#[test]
fn trim_agrees_with_std() {
    for text in ["", " ", "a", " a b ", "\t\n\u{b}\u{c}\r x\u{85}\u{a0}", "\u{1680}\u{2000}\u{200a}y\u{2028}\u{2029}\u{202f}\u{205f}\u{3000}", "\u{200b}z\u{200b}", "\u{feff}w"] {
        assert_eq!(string_of(&trim(&chars_of(text))), text.trim());
    }
}

#[test]
fn load_records_keeps_file_order() {
    let decoded = vec![Some(release("1.0.0")), Some(release("0.9.0")), Some(release("1.1.0"))];
    let records = load_records(decoded).unwrap();
    let versions: Vec<&str> = records.iter().map(|r| r.version.as_str()).collect();
    assert_eq!(versions, vec!["1.0.0", "0.9.0", "1.1.0"]);
}

#[test]
fn load_records_fails_on_one_bad_line() {
    assert_eq!(load_records(vec![Some(release("1.0.0")), None, Some(release("1.1.0"))]), Err(Error::DecodeFailure));
    assert_eq!(load_records(vec![None]), Err(Error::DecodeFailure));
}

#[test]
fn load_records_of_no_lines_is_empty() {
    assert_eq!(load_records(Vec::new()), Ok(Vec::new()));
}
