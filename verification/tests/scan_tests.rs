use anpai::position::TextPosition;
use anpai::scan::{ScanError, Scanner, Token};

fn tokens_of(input: &str) -> Vec<(String, String)> {
    let mut scanner = Scanner::new(input);
    let mut out = Vec::new();
    loop {
        scanner.next_token().unwrap();
        let t = scanner.current_token();
        out.push((t.kind.to_string(), t.value.clone()));
        if t.kind == "eof" {
            break;
        }
    }
    out
}

#[test]
fn scan_test_token_expect() {
    let token = Token {
        kind: "abc",
        value: "xyz".to_owned(),
        position: TextPosition::zero(),
    };
    assert!(token.expect_kinds(&["abc", "kkk"]));
    assert!(!token.expect_kinds(&["abcdef", "kkk"]));
}

#[test]
fn scan_test_token_expect_keywords() {
    let token = Token {
        kind: "keyword",
        value: "xyz".to_owned(),
        position: TextPosition::zero(),
    };
    assert!(!token.expect_keywords(&["abc", "kkk"]));
    assert!(token.expect_keywords(&["xyz", "kkk"]));
}

#[test]
fn test_value_ahead_01() {
    let text = r#"
    abc 
    def ghi
    ok"#;
    let cursor = TextPosition::zero().increase(text);
    assert_eq!(cursor.chars, text.len());
    assert_eq!(cursor.lines, 3);
    assert_eq!(cursor.cols, 6);
}

#[test]
fn test_value_ahead_02() {
    let text = "2 + +";
    let cursor = TextPosition::zero().increase(text);
    assert_eq!(cursor.chars, text.len());
    assert_eq!(cursor.lines, 0);
    assert_eq!(cursor.cols, 5);
}

#[test]
fn test_value_ahead_03() {
    let text = "\n\n2 + +";
    let cursor = TextPosition::zero().increase(text);
    assert_eq!(cursor.chars, text.len());
    assert_eq!(cursor.lines, 2);
    assert_eq!(cursor.cols, 5);
}

#[test]
fn position_zero_is_zero() {
    assert!(TextPosition::zero().is_zero());
    assert!(!TextPosition::zero().increase("a").is_zero());
}

#[test]
fn position_increase_composes() {
    let a = TextPosition::zero().increase("ab\ncd").increase("e\nfgh");
    let b = TextPosition::zero().increase("ab\ncde\nfgh");
    assert_eq!(a, b);
    assert_eq!(a.lines, 2);
    assert_eq!(a.cols, 3);
}

#[test]
fn position_counts_bytes() {
    let p = TextPosition::zero().increase("é\nü");
    assert_eq!(p.chars, 5);
    assert_eq!(p.lines, 1);
    assert_eq!(p.cols, 2);
}

#[test]
fn line_pointers_marks_the_column() {
    let text = "first\nsecond line\nthird";
    let pos = TextPosition { chars: 9, lines: 1, cols: 3 };
    assert_eq!(pos.line_pointers(text), "second line\n  ^\n");
}

#[test]
fn scan_error_from_str() {
    let e = ScanError::from_str("boom");
    assert_eq!(e.message, "boom");
}

#[test]
fn scanner_reads_operators_names_and_numbers() {
    let toks = tokens_of("a + 12.5 >= b");
    let kinds: Vec<&str> = toks.iter().map(|(k, _)| k.as_str()).collect();
    assert_eq!(kinds, vec!["name", "+", "number", ">=", "name", "eof"]);
    assert_eq!(toks[2].1, "12.5");
}

#[test]
fn scanner_reads_keywords_strings_and_temporals() {
    let toks = tokens_of("if \"x y\" then @\"2020-01-01\" else null");
    let kinds: Vec<&str> = toks.iter().map(|(k, _)| k.as_str()).collect();
    assert_eq!(kinds, vec!["keyword", "string", "keyword", "temporal", "keyword", "keyword", "eof"]);
    assert_eq!(toks[1].1, "\"x y\"");
    assert_eq!(toks[3].1, "@\"2020-01-01\"");
}

#[test]
fn scanner_skips_comments() {
    let toks = tokens_of("1 // one\n+ /* two */ 2");
    let kinds: Vec<&str> = toks.iter().map(|(k, _)| k.as_str()).collect();
    assert_eq!(kinds, vec!["number", "+", "number", "eof"]);
}

#[test]
fn scanner_token_positions() {
    let mut scanner = Scanner::new("ab\n  cd");
    scanner.next_token().unwrap();
    scanner.next_token().unwrap();
    let t = scanner.current_token();
    assert_eq!(t.value, "cd");
    assert_eq!(t.position, TextPosition { chars: 5, lines: 1, cols: 2 });
    assert!(scanner.is_eof());
    assert!(!scanner.expect("eof"));
    scanner.next_token().unwrap();
    assert!(scanner.expect("eof"));
    assert_eq!(scanner.text_range(0, 2), "ab");
}

#[test]
fn scanner_rejects_unknown_character() {
    let mut scanner = Scanner::new("a # b");
    scanner.next_token().unwrap();
    let e = scanner.next_token().unwrap_err();
    assert!(!e.message.is_empty());
}

#[test]
fn scanner_rewind_restores_token() {
    let mut scanner = Scanner::new("a + b");
    scanner.next_token().unwrap();
    let first = scanner.current_token();
    scanner.next_token().unwrap();
    assert!(scanner.expect("+"));
    scanner.rewind(first);
    assert!(scanner.expect("name"));
    scanner.next_token().unwrap();
    assert!(scanner.expect("+"));
}

#[test]
fn scanner_reads_han_and_greek_names() {
    let toks = tokens_of("世界 + αβ");
    assert_eq!(toks[0], ("name".to_owned(), "世界".to_owned()));
    assert_eq!(toks[1], ("+".to_owned(), "+".to_owned()));
    assert_eq!(toks[2], ("name".to_owned(), "αβ".to_owned()));
}
