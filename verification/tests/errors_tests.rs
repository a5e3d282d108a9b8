use anpai::eval::{EvalError, EvalErrorKind};
use anpai::parse::{ParseError, ParseTop};
use anpai::position::TextPosition;
use anpai::prelude::{from_feel_index, range_check, to_feel_index};
use anpai::scan::ScanError;
use anpai::values::{TypeError, ValueError};

#[test]
fn eval_test_number_parse() {
    let r = "2342404820143892034890".parse::<i64>();
    assert!(r.is_err());
}

#[test]
fn parse_top_defaults_to_expression() {
    assert_eq!(ParseTop::default(), ParseTop::Expression);
}

#[test]
fn parse_error_texts() {
    assert_eq!(ParseError::new("x".to_owned()).to_string(), "ParseError: x");
    assert_eq!(ParseError::from_scan(ScanError::from_str("y")).to_string(), "ScanError: y");
}

#[test]
fn eval_error_texts() {
    let e = EvalError::new_with_pos(
        EvalErrorKind::VarNotFound("a".to_owned()),
        TextPosition { chars: 12, lines: 1, cols: 3 },
    );
    assert_eq!(e.to_string(), "VarNotFound: `a` at chars: 12, lines: 1, cols: 3");
    assert_eq!(EvalError::index_error().to_string(), "IndexError at chars: 0, lines: 0, cols: 0");
    assert_eq!(EvalError::runtime("bad").kind.to_string(), "RuntimeError: bad");
    assert_eq!(EvalError::type_error("number").kind.to_string(), "TypeError: expect number");
    assert_eq!(EvalError::value_error("v").kind.to_string(), "ValueError: v");
    let p = EvalError::from_parse(ParseError::new("q".to_owned()));
    assert_eq!(p.kind.to_string(), "ParseError: q");
    assert_eq!(EvalErrorKind::KeyError.to_string(), "KeyError");
}

#[test]
fn eval_error_positions() {
    let pos = TextPosition { chars: 4, lines: 0, cols: 4 };
    let e = EvalError::runtime("x").with_pos(pos);
    assert_eq!(e.pos, pos);
    let kept = e.with_pos_if_zero(TextPosition { chars: 9, lines: 0, cols: 9 });
    assert_eq!(kept.pos, pos);
    let zeroed = e.with_pos_if_zero(TextPosition::zero());
    assert!(zeroed.pos.is_zero());
}

#[test]
fn value_and_type_errors_from_strings() {
    let v: ValueError = "bad value".to_owned().into();
    assert_eq!(v.0, "bad value");
    let t: TypeError = TypeError::from("bad type".to_owned());
    assert_eq!(t.0, "bad type");
    let e = EvalError::from_value_error(v);
    assert_eq!(e.kind.to_string(), "ValueError: bad value");
    let e = EvalError::from_type_error(t);
    assert_eq!(e.kind.to_string(), "TypeError: expect bad type");
}

#[test]
fn feel_indices_and_range_check() {
    assert_eq!(from_feel_index(1), 0);
    assert_eq!(to_feel_index(0), 1);
    assert_eq!(range_check(3, 1, 5).unwrap(), 3);
    assert!(matches!(range_check(0, 1, 5).unwrap_err().kind, EvalErrorKind::IndexError));
    assert!(matches!(range_check(6, 1, 5).unwrap_err().kind, EvalErrorKind::IndexError));
}
