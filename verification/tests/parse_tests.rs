use anpai::script::ast::Node;
use anpai::script::parse::{parse, ParseError};

fn printed(input: &str) -> String {
    parse(input).unwrap().to_string()
}

fn error_of(input: &str) -> String {
    match parse(input) {
        Ok(n) => panic!("parsed as {}", n.to_string()),
        Err(e) => e.to_string(),
    }
}

#[test]
fn test_parse_results() {
    let testcases = [
        ("a + b(4, 9)", "(+ a (call b [4, 9]))"),
        ("if a > 6 then true else false", "(if (> a 6) true false)"),
        ("{a: 1, \"bbb\": [2, 1]}", r#"{a: 1, "bbb": [2, 1]}"#),
        ("> 2, <= 1, a>8", "(> ? 2), (<= ? 1), (> a 8)"),
    ];

    for (input, output) in testcases {
        let node = parse(input).unwrap();
        assert_eq!(node.to_string(), output);
    }
}

#[test]
fn parse_precedence() {
    assert_eq!(printed("1 + 2 * 3"), "(+ 1 (* 2 3))");
    assert_eq!(printed("1 or 2 and 3"), "(or 1 (and 2 3))");
    // a name is one word, so a keyword after it is an operator
    assert_eq!(printed("a or b"), "(or a b)");
    assert_eq!(printed("1 - 2 - 3"), "(- (- 1 2) 3)");
}

#[test]
fn parse_several_expressions() {
    match *parse("1; 2").unwrap() {
        Node::ExprList { ref elements } => assert_eq!(elements.len(), 2),
        ref other => panic!("unexpected {}", other.to_string()),
    }
    match *parse("").unwrap() {
        Node::ExprList { ref elements } => assert!(elements.is_empty()),
        ref other => panic!("unexpected {}", other.to_string()),
    }
}

#[test]
fn parse_index_dot_and_ranges() {
    assert_eq!(printed("a[1]"), "([] a 1)");
    assert!(matches!(*parse("a.b c").unwrap(), Node::DotOp { .. }));
    assert!(matches!(*parse("(1..2]").unwrap(), Node::Range { start_open: true, end_open: false, .. }));
    assert!(matches!(*parse("[1..2)").unwrap(), Node::Range { start_open: false, end_open: true, .. }));
    assert_eq!(printed("[]"), "[]");
}

#[test]
fn parse_function_definition() {
    match *parse("function(a, b) a + b").unwrap() {
        Node::FuncDef { ref arg_names, .. } => assert_eq!(arg_names, &vec!["a".to_owned(), "b".to_owned()]),
        ref other => panic!("unexpected {}", other.to_string()),
    }
}

#[test]
fn parse_quantified_reads_for_expression() {
    // the test after `satisfies` is a whole expression, a `for` among them
    assert!(parse("some x in [1] satisfies for y in [2] return y").is_ok());
    assert!(parse("every a in [2, 8, 3, 6] satisfies a > 4").is_ok());
}

#[test]
fn parse_errors() {
    assert_eq!(error_of("(1"), "ParseError: unexpected token eof, expect ')', '..'");
    assert_eq!(error_of("if 1 else 2"), "ParseError: unexpected keyword else, expect then");
    assert_eq!(error_of("#"), "ScanError: fail to find token");
    assert_eq!(error_of("?"), "ParseError: expression consumed no input");
    assert_eq!(error_of("{1: 2}"), "ParseError: unexpected token number, expect name or string");
}

#[test]
fn parse_error_new() {
    let e = ParseError::new("bad".to_owned());
    assert_eq!(e.to_string(), "ParseError: bad");
}
