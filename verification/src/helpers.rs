//! Helpers shared by the printers and the values: ordering, joining printed
//! items, escaping strings, and finding repeated names.
use crate::text::{push_char, push_str, str_chars, str_eq};
use std::cmp::Ordering;
use vstd::std_specs::cmp::{PartialEqSpec, PartialOrdIs, PartialOrdSpec};
use vstd::prelude::*;

verus! {

/// The order of `a` and `b`: `Less` where `a < b`, `Equal` where `a == b`,
/// `Greater` otherwise (also where the two are not comparable).
pub fn compare_value<T: PartialOrd>(a: T, b: T) -> (r: Ordering)
    ensures
        T::obeys_partial_cmp_spec() && T::obeys_eq_spec() ==> r == (if a.is_lt(&b) {
            Ordering::Less
        } else if a.eq_spec(&b) {
            Ordering::Equal
        } else {
            Ordering::Greater
        }),
{
    if a < b {
        Ordering::Less
    } else if a == b {
        Ordering::Equal
    } else {
        Ordering::Greater
    }
}

/// The characters of each string.
pub open spec fn views(v: Seq<String>) -> Seq<Seq<char>> {
    v.map_values(|s: String| s@)
}

/// The items joined by `delim`.
pub open spec fn joined(items: Seq<Seq<char>>, delim: Seq<char>) -> Seq<char>
    decreases items.len(),
{
    if items.len() == 0 {
        Seq::empty()
    } else if items.len() == 1 {
        items[0]
    } else {
        joined(items.drop_last(), delim) + delim + items.last()
    }
}

proof fn lemma_joined_push(items: Seq<Seq<char>>, x: Seq<char>, delim: Seq<char>)
    ensures
        joined(items.push(x), delim) == if items.len() == 0 {
            x
        } else {
            joined(items, delim) + delim + x
        },
{
    assert(items.push(x).drop_last() =~= items);
}

/// `prefix`, the printed items separated by `delim`, then `suffix`.
pub fn fmt_iter(items: &Vec<String>, delim: &str, prefix: &str, suffix: &str) -> (r: String)
    ensures
        r@ == prefix@ + joined(views(items@), delim@) + suffix@,
{
    let mut r = String::new();
    push_str(&mut r, prefix);
    let mut i: usize = 0;
    while i < items.len()
        invariant
            0 <= i <= items.len(),
            r@ == prefix@ + joined(views(items@.take(i as int)), delim@),
        decreases items.len() - i,
    {
        proof {
            assert(views(items@.take(i + 1)) =~= views(items@.take(i as int)).push(items@[i as int]@));
            lemma_joined_push(views(items@.take(i as int)), items@[i as int]@, delim@);
        }
        if i > 0 {
            push_str(&mut r, delim);
        }
        push_str(&mut r, items[i].as_str());
        proof {
            if i == 0 {
                assert(views(items@.take(0)) =~= Seq::<Seq<char>>::empty());
            }
            assert(r@ =~= prefix@ + joined(views(items@.take(i + 1)), delim@));
        }
        i = i + 1;
    }
    push_str(&mut r, suffix);
    proof {
        assert(items@.take(items@.len() as int) =~= items@);
    }
    r
}

/// `prefix`, the printed items separated by `", "`, then `suffix`.
pub fn fmt_vec(items: &Vec<String>, prefix: &str, suffix: &str) -> (r: String)
    ensures
        r@ == prefix@ + joined(views(items@), ", "@) + suffix@,
{
    fmt_iter(items, ", ", prefix, suffix)
}

/// The printed entries `key:value` of a map.
pub open spec fn entry_texts(entries: Seq<(String, String)>) -> Seq<Seq<char>> {
    entries.map_values(|e: (String, String)| e.0@ + ":"@ + e.1@)
}

/// `prefix`, the entries `key:value` in the order given, separated by
/// `", "`, then `suffix`.
pub fn fmt_map(entries: &Vec<(String, String)>, prefix: &str, suffix: &str) -> (r: String)
    ensures
        r@ == prefix@ + joined(entry_texts(entries@), ", "@) + suffix@,
{
    let mut r = String::new();
    push_str(&mut r, prefix);
    let mut i: usize = 0;
    while i < entries.len()
        invariant
            0 <= i <= entries.len(),
            r@ == prefix@ + joined(entry_texts(entries@.take(i as int)), ", "@),
        decreases entries.len() - i,
    {
        let ghost e = entries@[i as int];
        proof {
            assert(entry_texts(entries@.take(i + 1)) =~= entry_texts(entries@.take(i as int)).push(
                e.0@ + ":"@ + e.1@,
            ));
            lemma_joined_push(entry_texts(entries@.take(i as int)), e.0@ + ":"@ + e.1@, ", "@);
        }
        if i > 0 {
            push_str(&mut r, ", ");
        }
        push_str(&mut r, entries[i].0.as_str());
        push_str(&mut r, ":");
        push_str(&mut r, entries[i].1.as_str());
        proof {
            if i == 0 {
                assert(entry_texts(entries@.take(0)) =~= Seq::<Seq<char>>::empty());
            }
            assert(r@ =~= prefix@ + joined(entry_texts(entries@.take(i + 1)), ", "@));
        }
        i = i + 1;
    }
    push_str(&mut r, suffix);
    proof {
        assert(entries@.take(entries@.len() as int) =~= entries@);
    }
    r
}

/// The characters that stand for `c` in an escaped string.
pub open spec fn escape_char(c: char) -> Seq<char> {
    if c == '\t' {
        seq!['\\', 't']
    } else if c == '\r' {
        seq!['\\', 'r']
    } else if c == '\n' {
        seq!['\\', 'n']
    } else if c == '"' {
        seq!['\\', '"']
    } else {
        seq![c]
    }
}

/// `s` with tab, carriage return, line feed and `"` escaped by a backslash.
pub open spec fn escaped(s: Seq<char>) -> Seq<char>
    decreases s.len(),
{
    if s.len() == 0 {
        Seq::empty()
    } else {
        escape_char(s[0]) + escaped(s.drop_first())
    }
}

/// The character that `\c` stands for.
pub open spec fn unescape_char(c: char) -> char {
    if c == 't' {
        '\t'
    } else if c == 'r' {
        '\r'
    } else if c == 'n' {
        '\n'
    } else {
        c
    }
}

/// `s` with each backslash and the character after it replaced by the
/// character they stand for; a backslash at the end is dropped.
pub open spec fn unescaped(s: Seq<char>) -> Seq<char>
    decreases s.len(),
{
    if s.len() == 0 {
        Seq::empty()
    } else if s[0] == '\\' {
        if s.len() == 1 {
            Seq::empty()
        } else {
            seq![unescape_char(s[1])] + unescaped(s.subrange(2, s.len() as int))
        }
    } else {
        seq![s[0]] + unescaped(s.drop_first())
    }
}

fn escape_char_str(c: char) -> (r: Option<&'static str>)
    ensures
        match r {
            Some(t) => t@ == escape_char(c),
            None => escape_char(c) == seq![c],
        },
{
    proof {
        reveal_strlit("\\t");
        reveal_strlit("\\r");
        reveal_strlit("\\n");
        reveal_strlit("\\\"");
    }
    if c == '\t' {
        Some("\\t")
    } else if c == '\r' {
        Some("\\r")
    } else if c == '\n' {
        Some("\\n")
    } else if c == '"' {
        Some("\\\"")
    } else {
        None
    }
}

/// Escapes tab, carriage return, line feed and `"` with a backslash.
pub fn escape(input: &str) -> (r: String)
    ensures
        r@ == escaped(input@),
{
    let v = str_chars(input);
    let mut r = String::new();
    let mut i: usize = 0;
    proof {
        assert(v@.subrange(0, v@.len() as int) =~= v@);
        assert(r@ + escaped(v@) =~= escaped(v@));
    }
    while i < v.len()
        invariant
            0 <= i <= v.len(),
            r@ + escaped(v@.subrange(i as int, v@.len() as int)) == escaped(v@),
        decreases v.len() - i,
    {
        let ghost rest = v@.subrange(i as int, v@.len() as int);
        proof {
            assert(rest.drop_first() =~= v@.subrange(i + 1, v@.len() as int));
        }
        match escape_char_str(v[i]) {
            Some(t) => push_str(&mut r, t),
            None => push_char(&mut r, v[i]),
        }
        proof {
            assert(r@ + escaped(v@.subrange(i + 1, v@.len() as int)) =~= escaped(v@));
        }
        i = i + 1;
    }
    proof {
        assert(v@.subrange(v@.len() as int, v@.len() as int) =~= Seq::<char>::empty());
        assert(r@ + Seq::<char>::empty() =~= r@);
    }
    r
}

fn unescape_char_exec(c: char) -> (r: char)
    ensures
        r == unescape_char(c),
{
    if c == 't' {
        '\t'
    } else if c == 'r' {
        '\r'
    } else if c == 'n' {
        '\n'
    } else {
        c
    }
}

/// Restores an escaped string: a backslash and the character after it
/// become the character they stand for.
pub fn unescape(input: &str) -> (r: String)
    ensures
        r@ == unescaped(input@),
{
    let v = str_chars(input);
    let mut r = String::new();
    let mut i: usize = 0;
    proof {
        assert(v@.subrange(0, v@.len() as int) =~= v@);
    }
    while i < v.len()
        invariant
            0 <= i <= v.len(),
            r@ + unescaped(v@.subrange(i as int, v@.len() as int)) == unescaped(v@),
        decreases v.len() - i,
    {
        let ghost rest = v@.subrange(i as int, v@.len() as int);
        if v[i] == '\\' {
            if i + 1 < v.len() {
                push_char(&mut r, unescape_char_exec(v[i + 1]));
                proof {
                    assert(rest.subrange(2, rest.len() as int) =~= v@.subrange(
                        i + 2,
                        v@.len() as int,
                    ));
                    assert(r@ + unescaped(v@.subrange(i + 2, v@.len() as int)) =~= unescaped(v@));
                }
                i = i + 2;
            } else {
                proof {
                    assert(v@.subrange(i + 1, v@.len() as int) =~= Seq::<char>::empty());
                    assert(r@ + unescaped(v@.subrange(i + 1, v@.len() as int)) =~= unescaped(v@));
                }
                i = i + 1;
            }
        } else {
            push_char(&mut r, v[i]);
            proof {
                assert(rest.drop_first() =~= v@.subrange(i + 1, v@.len() as int));
                assert(r@ + unescaped(v@.subrange(i + 1, v@.len() as int)) =~= unescaped(v@));
            }
            i = i + 1;
        }
    }
    proof {
        assert(v@.subrange(v@.len() as int, v@.len() as int) =~= Seq::<char>::empty());
        assert(r@ + Seq::<char>::empty() =~= r@);
    }
    r
}

/// Unescaping gives back what was escaped, for every string without a
/// backslash (a backslash is left as it is by `escape`, and read as the
/// start of an escape by `unescape`).
pub proof fn lemma_unescape_escape(s: Seq<char>)
    requires
        !s.contains('\\'),
    ensures
        unescaped(escaped(s)) == s,
    decreases s.len(),
{
    if s.len() > 0 {
        let c = s[0];
        let rest = s.drop_first();
        assert forall|i: int| 0 <= i < rest.len() implies rest[i] != '\\' by {
            assert(rest[i] == s[i + 1]);
        }
        lemma_unescape_escape(rest);
        let e = escape_char(c) + escaped(rest);
        assert(escaped(s) == e);
        if escape_char(c).len() == 2 {
            assert(e[0] == '\\');
            assert(e.subrange(2, e.len() as int) =~= escaped(rest));
        } else {
            assert(c != '\\');
            assert(e.drop_first() =~= escaped(rest));
        }
        assert(unescaped(e) =~= s);
    }
}

/// The first element equal to one before it, if any.
pub fn find_duplicate(elements: &Vec<String>) -> (r: Option<String>)
    ensures
        match r {
            Some(x) => exists|j: int|
                0 <= j < elements@.len() && x@ == (#[trigger] elements@[j])@ && (exists|i: int|
                    0 <= i < j && elements@[i]@ == elements@[j]@) && (forall|k: int, i: int|
                    0 <= i < k < j ==> elements@[i]@ != elements@[k]@),
            None => forall|i: int, k: int|
                0 <= i < k < elements@.len() ==> elements@[i]@ != elements@[k]@,
        },
{
    let mut j: usize = 0;
    while j < elements.len()
        invariant
            0 <= j <= elements.len(),
            forall|i: int, k: int| 0 <= i < k < j ==> elements@[i]@ != elements@[k]@,
        decreases elements.len() - j,
    {
        let mut i: usize = 0;
        while i < j
            invariant
                0 <= i <= j < elements.len(),
                forall|i2: int, k: int| 0 <= i2 < k < j ==> elements@[i2]@ != elements@[k]@,
                forall|i2: int| 0 <= i2 < i ==> elements@[i2]@ != elements@[j as int]@,
            decreases j - i,
        {
            if str_eq(elements[i].as_str(), elements[j].as_str()) {
                return Some(elements[j].clone());
            }
            i = i + 1;
        }
        j = j + 1;
    }
    None
}

} // verus!
