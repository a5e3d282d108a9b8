use anpai::script::token::{Scanner, Token};

#[test]
fn token_test_token_expect() {
    let token = Token {
        kind: "abc",
        value: "xyz".to_owned(),
        position: 0,
    };
    assert!(token.expect_kinds(&["abc", "kkk"]));
    assert!(!token.expect_kinds(&["abcdef", "kkk"]));
}

#[test]
fn token_test_token_expect_keywords() {
    let token = Token {
        kind: "keyword",
        value: "xyz".to_owned(),
        position: 0,
    };
    assert!(!token.expect_keywords(&["abc", "kkk"]));
    assert!(token.expect_keywords(&["xyz", "kkk"]));
}

#[test]
fn script_find_tokens_kinds_and_positions() {
    let mut scanner = Scanner::new("a > -3; ?");
    let tokens = scanner.find_tokens().unwrap();
    let kinds: Vec<&str> = tokens.iter().map(|t| t.kind).collect();
    assert_eq!(kinds, vec!["name", ">", "-", "number", ";", "?"]);
    assert_eq!(tokens[3].value, "3");
    assert_eq!(tokens[3].position, 5);
    assert_eq!(tokens[5].position, 8);
}

#[test]
fn script_next_token_reaches_eof() {
    let mut scanner = Scanner::new("x");
    assert!(scanner.current_token().is_none());
    scanner.next_token().unwrap();
    assert!(scanner.expect("name"));
    assert!(scanner.is_eof());
    scanner.next_token().unwrap();
    assert!(scanner.expect("eof"));
    assert_eq!(scanner.unwrap_current_token().value, "");
}

#[test]
fn script_next_token_fails_on_unknown_character() {
    let mut scanner = Scanner::new("#");
    assert_eq!(scanner.next_token(), Err("fail to find token".to_owned()));
}

#[test]
fn script_names_are_single_words() {
    let mut scanner = Scanner::new("date and time(x)");
    let tokens = scanner.find_tokens().unwrap();
    let kinds: Vec<&str> = tokens.iter().map(|t| t.kind).collect();
    assert_eq!(kinds, vec!["name", "keyword", "name", "(", "name", ")"]);
    assert_eq!(tokens[2].value, "time");
}

#[test]
fn script_names_may_be_han() {
    let mut scanner = Scanner::new("你好 > 1");
    let tokens = scanner.find_tokens().unwrap();
    assert_eq!(tokens[0].kind, "name");
    assert_eq!(tokens[0].value, "你好");
    assert_eq!(tokens[1].position, 7);
}
