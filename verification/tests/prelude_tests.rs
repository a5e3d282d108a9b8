use anpai::eval::EvalErrorKind;
use anpai::prelude::{all, any, count, not};
use anpai::script::value::Value;
use anpai::prelude::{
    append, concatenate, distinct_values, index_of, insert_before, list_contains, max, min, remove,
    reverse, string_contains, string_ends_with, string_join, string_starts_with, sublist, union,
};

#[test]
fn sublist_takes_from_a_position() {
    let l = vec![1, 2, 3, 4, 5];
    assert_eq!(sublist(&l, 2, Some(2)).unwrap(), vec![2, 3]);
    assert_eq!(sublist(&l, 4, Some(10)).unwrap(), vec![4, 5]);
    assert_eq!(sublist(&l, 3, None).unwrap(), vec![3, 4, 5]);
    assert!(matches!(sublist(&l, 0, None).unwrap_err().kind, EvalErrorKind::IndexError));
    assert!(matches!(sublist(&l, 6, Some(1)).unwrap_err().kind, EvalErrorKind::IndexError));
}

#[test]
fn insert_before_and_remove_at_positions() {
    let l = vec!["a".to_owned(), "b".to_owned(), "c".to_owned()];
    assert_eq!(insert_before(&l, 1, &"x".to_owned()).unwrap(), vec!["x", "a", "b", "c"]);
    assert_eq!(insert_before(&l, 3, &"x".to_owned()).unwrap(), vec!["a", "b", "x", "c"]);
    assert!(insert_before(&l, 4, &"x".to_owned()).is_err());
    assert_eq!(remove(&l, 2).unwrap(), vec!["a", "c"]);
    assert!(matches!(remove(&l, 0).unwrap_err().kind, EvalErrorKind::IndexError));
}

#[test]
fn reverse_append_and_concatenate() {
    assert_eq!(reverse(&vec![1, 2, 3]), vec![3, 2, 1]);
    assert_eq!(append(&vec![1, 2], &vec![3]), vec![1, 2, 3]);
    assert_eq!(concatenate(&vec![vec![1], vec![], vec![2, 3]]), vec![1, 2, 3]);
}

#[test]
fn list_searches() {
    let l = vec![4, 7, 4, 9];
    assert!(list_contains(&l, &7));
    assert!(!list_contains(&l, &8));
    assert_eq!(index_of(&l, &4), vec![1, 3]);
    assert_eq!(index_of(&l, &5), Vec::<usize>::new());
}

#[test]
fn distinct_values_and_union_drop_repeats_in_a_row() {
    // only items equal to the one just before are dropped
    assert_eq!(distinct_values(&vec![1, 1, 2, 1, 3, 3]), vec![1, 2, 1, 3]);
    assert_eq!(union(&vec![vec![1, 2], vec![2, 3], vec![1]]), vec![1, 2, 3, 1]);
}

#[test]
fn min_and_max_keep_the_first() {
    assert_eq!(min(&vec![3, 1, 2, 1]), Some(1));
    assert_eq!(max(&vec![3, 1, 5, 2]), Some(5));
    assert_eq!(min(&Vec::<i64>::new()), None);
    assert_eq!(max(&Vec::<i64>::new()), None);
}

#[test]
fn string_functions() {
    let l = vec!["a".to_owned(), "b".to_owned(), "c".to_owned()];
    assert_eq!(string_join(&l, ", ", "[", "]"), "[a, b, c]");
    assert_eq!(string_join(&Vec::new(), ",", "", ""), "");
    assert!(string_contains("foobar", "oba"));
    assert!(string_contains("foobar", ""));
    assert!(!string_contains("foo", "food"));
    assert!(string_starts_with("foobar", "foo"));
    assert!(!string_starts_with("foobar", "bar"));
    assert!(string_ends_with("foobar", "bar"));
    assert!(!string_ends_with("bar", "foobar"));
}

#[test]
fn all_any_not_and_count() {
    let l = vec![Value::BoolV(true), Value::StrV("x".to_owned())];
    assert!(all(&l));
    assert!(any(&l));
    let m = vec![Value::BoolV(true), Value::NullV];
    assert!(!all(&m));
    assert!(any(&m));
    assert!(!any(&vec![Value::NullV, Value::BoolV(false)]));
    assert!(all(&Vec::new()));
    assert!(not(&Value::NullV));
    assert!(!not(&Value::BoolV(true)));
    assert_eq!(count(&l), 2);
}
