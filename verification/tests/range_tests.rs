use anpai::script::value::Num;
use anpai::range::{
    range_after, range_before, range_coincides, range_during, range_finished_by, range_finishes,
    range_includes, range_meets, range_met_by, range_overlaps, range_overlaps_after,
    range_overlaps_before, range_started_by, range_starts, RangeArg, RangeT,
};

fn r(start_open: bool, start: i64, end_open: bool, end: i64) -> RangeT<i64> {
    RangeT { start_open, start, end_open, end }
}

#[test]
fn range_positions() {
    let x = r(true, 5, false, 8);
    assert!(!x.contains(&5));
    assert!(x.contains(&8));
    assert!(x.after_point(&5));
    assert!(x.before_point(&9));
    let y = r(false, 5, true, 8);
    assert!(y.contains(&5));
    assert!(!y.contains(&8));
    assert_eq!(y.position(&4), -1);
    assert_eq!(y.position(&6), 0);
    assert_eq!(y.position(&8), 1);
}

#[test]
fn range_relations() {
    let a = r(false, 1, false, 5);
    let b = r(false, 5, false, 9);
    assert!(a.meets(&b));
    assert!(!a.before(&b));
    assert!(r(false, 1, true, 5).before(&b));
    assert!(b.after(&r(false, 1, true, 5)));
    assert!(a.includes(&a));
    assert!(a.includes(&r(true, 1, true, 5)));
    assert!(!r(true, 1, false, 5).includes(&a));
    assert!(a.overlaps_before(&b));
    assert!(b.overlaps_after(&a));
    assert!(a.finished_by(&5));
    assert!(a.started_by(&1));
    assert!(a.finished_by_range(&r(false, 3, false, 5)));
    assert!(a.started_by_range(&r(false, 1, false, 2)));
    assert!(!a.started_by_range(&r(true, 1, false, 2)));
}

#[test]
fn range_of_strings() {
    let letters = RangeT { start_open: false, start: "a", end_open: false, end: "z" };
    assert!(letters.contains(&"c"));
    let upto_f = RangeT { start_open: false, start: "a", end_open: true, end: "f" };
    assert!(!upto_f.contains(&"f"));
}

fn ra(start_open: bool, start: i64, end_open: bool, end: i64) -> RangeArg<i64> {
    RangeArg::Range(r(start_open, start, end_open, end))
}

fn pt(value: i64) -> RangeArg<i64> {
    RangeArg::Point { value, kind: "number".to_owned() }
}

#[test]
fn range_builtins_on_points_and_ranges() {
    assert!(range_before(&pt(1), &pt(10)));
    assert!(!range_before(&pt(10), &pt(1)));
    assert!(range_before(&ra(false, 1, false, 5), &pt(10)));
    assert!(range_before(&pt(1), &ra(false, 5, false, 10)));
    assert!(!range_before(&ra(false, 1, false, 5), &ra(false, 5, false, 10)));
    assert!(range_before(&ra(false, 1, true, 5), &ra(false, 5, false, 10)));
    assert!(range_after(&pt(10), &pt(5)));
    assert!(range_after(&ra(false, 5, false, 10), &pt(1)));
    assert!(range_after(&pt(12), &ra(false, 5, false, 10)));
    assert!(range_after(&ra(false, 11, false, 20), &ra(false, 1, false, 10)));
}

#[test]
fn range_builtins_on_two_ranges() {
    assert_eq!(range_meets(&ra(false, 1, false, 5), &ra(false, 5, false, 10)).unwrap(), true);
    assert_eq!(range_meets(&ra(false, 1, true, 5), &ra(false, 5, false, 10)).unwrap(), false);
    assert_eq!(range_met_by(&ra(false, 5, false, 10), &ra(false, 1, false, 5)).unwrap(), true);
    assert_eq!(range_overlaps(&ra(false, 1, false, 5), &ra(false, 3, false, 8)).unwrap(), true);
    assert_eq!(range_overlaps(&ra(false, 1, false, 5), &ra(false, 6, false, 8)).unwrap(), false);
    assert_eq!(range_overlaps_before(&ra(false, 1, false, 5), &ra(false, 3, false, 8)).unwrap(), true);
    assert_eq!(range_overlaps_after(&ra(false, 3, false, 8), &ra(false, 1, false, 5)).unwrap(), true);
    assert_eq!(range_coincides(&ra(false, 1, false, 5), &ra(false, 1, false, 5)).unwrap(), true);
    assert_eq!(range_coincides(&ra(false, 1, false, 5), &ra(true, 1, false, 5)).unwrap(), false);
}

#[test]
fn range_builtins_with_a_point_or_a_range() {
    assert_eq!(range_starts(&pt(1), &ra(false, 1, false, 10)).unwrap(), true);
    assert_eq!(range_starts(&ra(false, 1, false, 5), &ra(false, 1, false, 10)).unwrap(), true);
    assert_eq!(range_started_by(&ra(false, 1, false, 10), &pt(1)).unwrap(), true);
    assert_eq!(range_started_by(&ra(true, 1, false, 10), &pt(1)).unwrap(), false);
    assert_eq!(range_finishes(&pt(10), &ra(false, 1, false, 10)).unwrap(), true);
    assert_eq!(range_finished_by(&ra(false, 1, false, 10), &ra(false, 5, false, 10)).unwrap(), true);
    assert_eq!(range_includes(&ra(false, 1, false, 10), &pt(5)).unwrap(), true);
    assert_eq!(range_includes(&ra(false, 1, false, 10), &ra(false, 4, false, 6)).unwrap(), true);
    assert_eq!(range_during(&pt(5), &ra(false, 1, false, 10)).unwrap(), true);
    assert_eq!(range_during(&ra(false, 0, false, 6), &ra(false, 1, false, 10)).unwrap(), false);
}

#[test]
fn range_builtins_reject_points_where_ranges_are_needed() {
    let e = range_meets(&pt(1), &ra(false, 1, false, 5)).unwrap_err();
    assert_eq!(e.0, "argument[1] `a`, expect range, but number found");
    let e = range_meets(&ra(false, 1, false, 5), &pt(1)).unwrap_err();
    assert_eq!(e.0, "argument[2] `b`, expect range, but number found");
    let e = range_includes(&pt(1), &pt(2)).unwrap_err();
    assert_eq!(e.0, "argument[1] `a`, expect range, but number found");
    // `during` names its second argument with the hint of the first
    let e = range_during(&pt(1), &pt(2)).unwrap_err();
    assert_eq!(e.0, "argument[1] `a`, expect range, but number found");
}

#[test]
fn ranges_print_with_their_bounds() {
    assert_eq!(r(true, 5, false, 8).to_string_with("5", "8"), "(5..8]");
    assert_eq!(r(false, 1, true, 2).to_string_with("1", "2"), "[1..2)");
}

#[test]
fn string_and_number_ranges() {
    let n = |m: i128| Num { mantissa: m, scale: 0 };
    let a = RangeT { start_open: true, start: n(5), end_open: false, end: n(8) };
    let b = RangeT { start_open: false, start: n(5), end_open: true, end: n(8) };
    let c = RangeT { start_open: false, start: n(5), end_open: false, end: n(8) };
    assert!(!a.contains_num(n(5)));
    assert!(b.contains_num(n(5)));
    assert!(!b.contains_num(n(8)));
    assert!(c.contains_num(n(8)));
    assert!(c.contains_num(Num { mantissa: 75, scale: 1 }));
    let s = RangeT { start_open: false, start: "a".to_owned(), end_open: false, end: "z".to_owned() };
    let u = RangeT { start_open: false, start: "a".to_owned(), end_open: true, end: "f".to_owned() };
    assert!(s.contains_str("c"));
    assert!(!u.contains_str("f"));
    assert_eq!(u.position_str("g"), 1);
    assert_eq!(u.position_str("A"), -1);
}
