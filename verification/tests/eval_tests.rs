use anpai::script::eval::{delta_value_exec, EvalError, Intepreter};
use anpai::script::parse::parse;
use anpai::script::value::{Num, Value};
use anpai::temporal::{DateTime, Date, Duration, Time};

fn run(input: &str) -> Result<Value, EvalError> {
    let mut intp = Intepreter::new();
    let node = parse(input).unwrap();
    intp.eval(&node)
}

fn printed(input: &str) -> String {
    run(input).unwrap().to_string()
}

fn error_of(input: &str) -> String {
    match run(input) {
        Ok(v) => panic!("evaluated to {}", v.to_string()),
        Err(e) => e.to_string(),
    }
}

#[test]
fn eval_test_parse_stateless() {
    let testcases = [
        ("2+ 4", "6"),
        ("2 -5", "-3"),
        ("8 - 2", "6"),
        ("7 / 2", "3.5"),
        ("10 / 3", "3.3333333333333333333333333333"),
        ("4 * 9 + 1", "37"),
        (
            r#"@"2023-06-01T10:33:20+01:00" + @"P3Y11M""#,
            "2027-05-01T10:33:20+01:00",
        ),
        (
            r#"@"2023-06-01T10:33:20+01:00" - @"P1Y2M""#,
            "2022-04-01T10:33:20+01:00",
        ),
        (
            r#" @"2023-06-01T10:33:20+01:00" - @"2022-04-01T10:33:20+01:00" "#,
            "P426DT0.2446661632S",
        ),
        (r#""abc" + "def""#, r#""abcdef""#),
        ("2 < 3 - 1", "false"),
        (r#""abc" <= "abd""#, "true"),
        ("[2, 8,false,true]", "[2, 8, false, true]"),
        ("{a: 1, b: 2}", r#"{"a":1, "b":2}"#),
        ("if 2 > 3 then 6 else 8", "8"),
        ("for a in [2, 3, 4] return a * 2", "[4, 6, 8]"),
        (
            "for a in [2, 3, 4], b in [8, 1, 2] return a + b",
            "[[10, 3, 4], [11, 4, 5], [12, 5, 6]]",
        ),
        ("some a in [2, 8, 3, 6] satisfies a > 4", "8"),
        ("every a in [2, 8, 3, 6] satisfies a > 4", "[8, 6]"),
        ("2 * 8; true; null; 9 / 3", "3"),
        (r#"set("a", 5); a + 10.3"#, "15.3"),
        (r#"set("?", 5); >6, =8, < 3"#, "false"),
        (r#"set("?", 5); >6, <8, < 3"#, "true"),
    ];

    for (input, output) in testcases {
        let mut intp = Intepreter::new();
        let node = parse(input).unwrap();
        let v = intp.eval(&node).unwrap();
        assert_eq!(v.to_string(), output);
    }
}

#[test]
fn eval_test_def_vars() {
    let mut intp = Intepreter::new();
    intp.set_var("v1".to_owned(), Value::NumberV(Num { mantissa: 23, scale: 1 }));
    let input = "v1 + 3";
    let node = parse(input).unwrap();
    let v = intp.eval(&node).unwrap();
    assert_eq!(v.to_string(), "5.3");
}

#[test]
fn eval_test_native_func_set() {
    let mut intp = Intepreter::new();
    let input = r#"set("hi", 5)"#;
    let node = parse(input).unwrap();
    let _ = intp.eval(&node).unwrap();

    let input1 = r#"hi + 3"#;
    let node1 = parse(input1).unwrap();
    let v = intp.eval(&node1).unwrap();
    assert_eq!(v.to_string(), "8");
}

#[test]
fn eval_test_func_call() {
    let mut intp = Intepreter::new();
    let input = r#"set("add2", function(a, b) a+b)"#;
    let node = parse(input).unwrap();
    let _ = intp.eval(&node).unwrap();

    let input1 = r#"add2(4.5, 9)"#;
    let node1 = parse(input1).unwrap();
    let v = intp.eval(&node1).unwrap();
    assert_eq!(v.to_string(), "13.5");
}

#[test]
fn subtracting_a_duration_borrows_from_larger_units() {
    assert_eq!(
        printed(r#"@"2023-01-02T00:00:00+00:00" - @"PT1S""#),
        "2023-01-01T23:59:59+00:00"
    );
    assert_eq!(
        printed(r#"@"2023-05-15T10:00:00+00:00" - @"P3M""#),
        "2023-02-15T10:00:00+00:00"
    );
}

#[test]
fn later_minus_earlier_and_back() {
    assert_eq!(
        printed(r#"@"2023-06-02T00:00:00+00:00" - @"2023-06-01T00:00:00+00:00""#),
        "P1DT0.86400000S"
    );
    assert_eq!(
        printed(r#"@"2023-06-01T00:00:00+00:00" - @"2023-06-01T01:00:00+00:00""#),
        "-PT1H0.3600000S"
    );
}

#[test]
fn delta_value_splits_seconds() {
    let v = delta_value_exec(3661, Some(3_661_000_000_000)).unwrap();
    match v {
        Value::DurationV { duration, negative } => {
            assert!(!negative);
            assert_eq!(
                duration,
                Duration::YMDHMS { year: 0, month: 0, day: 0, hour: 1, minute: 1, second: 1, millisecond: 3_661_000 }
            );
        }
        other => panic!("unexpected {}", other.to_string()),
    }
    assert!(delta_value_exec(i64::MIN, None).is_err());
}

#[test]
fn a_minus_sign_is_an_operator() {
    // the operand of a leading minus is the whole expression after it
    assert_eq!(printed("-5 + 2"), "-7");
    assert_eq!(printed("2-5"), "-3");
}

#[test]
fn errors_name_both_kinds() {
    assert_eq!(error_of(r#""a" - 1"#), "RuntimeError: canot - string and number");
    assert_eq!(error_of(r#"1 + "a""#), "RuntimeError: canot + number and string");
    assert!(matches!(run("unknown_var"), Err(EvalError::VarNotFound)));
}

#[test]
fn a_date_and_time_prints_through_chrono() {
    let x = DateTime {
        date: Date::YMD { year: 2021, month: 2, day: 27 },
        time: Time { hour: 8, minute: 0, second: 0, millisecond: 0, tz_offset_hours: 8, tz_offset_minutes: 0 },
    };
    assert_eq!(Value::DateTimeV(x).to_string(), "2021-02-27T08:00:00+08:00");
}

#[test]
fn readme_scenarios() {
    assert_eq!(printed(r#""hello " + "world""#), r#""hello world""#);
    assert_eq!(printed("(function(a, b) a + b)(5, 8)"), "13");
    assert_eq!(
        parse(r#"if a > 3 then "larger" else "smaller""#).unwrap().to_string(),
        r#"(if (> a 3) "larger" "smaller")"#
    );
    assert_eq!(printed("some x in [3, 4, 8, 9] satisfies x > 5"), "8");
    assert_eq!(printed("every x in [3, 4, 8, 9] satisfies x > 3"), "[4, 8, 9]");
    // `%` is parsed, and this interpreter has no rule for it
    assert_eq!(error_of("8 % 5"), "RuntimeError: unknown op %");
}

#[test]
fn calls_and_loops_keep_the_callers_scopes() {
    assert!(matches!(
        run(r#"set("f", function(x) set("y", x)); f(3); y"#),
        Err(EvalError::VarNotFound)
    ));
    assert!(matches!(
        run(r#"for a in [1, 2] return set("z", a); z"#),
        Err(EvalError::VarNotFound)
    ));
    assert_eq!(printed(r#"set("y", 1); set("f", function(x) set("y", x)); f(3); y"#), "1");
}

#[test]
fn a_set_variable_reads_back_and_others_stay() {
    assert_eq!(printed(r#"set("a", 1); set("b", 2); set("a", 7); a + b"#), "9");
}

#[test]
fn dates_times_and_durations_print_in_iso_form() {
    assert_eq!(printed(r#"@"2023-09-17""#), "2023-09-17");
    assert_eq!(printed(r#"@"10:30:00""#), "10:30:00.000+00:00");
    assert_eq!(printed(r#"@"PT2H3M""#), "PT2H3M");
    // a day that chrono holds no instant for prints in the form of iso8601
    assert_eq!(printed(r#"@"2023-02-30T10:00:00+00:00""#), "2023-02-30T10:00:00.000+00:00");
}

#[test]
fn times_and_numbers_print_in_their_documented_forms() {
    let t = Time { hour: 1, minute: 2, second: 3, millisecond: 45, tz_offset_hours: -5, tz_offset_minutes: 30 };
    assert_eq!(Value::TimeV(t).to_string(), "01:02:03.045-05:-30");
    let d = Date::Ordinal { year: -44, ddd: 75 };
    assert_eq!(Value::DateV(d).to_string(), "-0044-075");
    assert_eq!(Value::NumberV(Num { mantissa: -5, scale: 2 }).to_string(), "-0.05");
    assert_eq!(Value::NumberV(Num { mantissa: 3500, scale: 3 }).to_string(), "3.5");
    assert_eq!(Value::NumberV(Num { mantissa: 0, scale: 4 }).to_string(), "0");
    assert_eq!(printed("1 - 1.0"), "0");
    assert_eq!(
        Value::DurationV {
            duration: Duration::Weeks(3),
            negative: true
        }
        .to_string(),
        "-P3W"
    );
}

#[test]
fn a_year_at_the_edge_of_i32_prints_without_panic() {
    assert_eq!(
        printed(r#"@"2020-01-01T00:00:00" + @"P2147481628Y""#),
        "-2147483648-01-01T00:00:00.000+00:00"
    );
}

#[test]
fn subtraction_goes_by_the_calendar() {
    // months by the calendar, and the days counted both as days and as seconds
    assert_eq!(
        printed(r#"@"2023-03-31T12:00:00+00:00" - @"P1M""#),
        "2023-02-28T12:00:00+00:00"
    );
    assert_eq!(
        printed(r#"@"2023-03-01T00:00:00+00:00" - @"P1D""#),
        "2023-02-27T00:00:00+00:00"
    );
}
