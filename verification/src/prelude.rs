//! The built-in list functions of FEEL, over lists of any item type, and
//! their index arithmetic.  Positions count from 1.
use crate::eval::EvalError;
use crate::helpers::joined;
use crate::script::value::{truthy, value_view, values_view, lemma_values_view, Value};
use crate::text::{chars_start_at, push_str, starts_at, str_chars};
use vstd::pervasive::cloned;
use vstd::prelude::*;
use vstd::std_specs::cmp::{PartialEqSpec, PartialOrdIs, PartialOrdSpec};

verus! {

/// The 0-based index of the FEEL index `idx`, which counts from 1.
pub fn from_feel_index(idx: usize) -> (r: usize)
    requires
        idx >= 1,
    ensures
        r == idx - 1,
{
    idx - 1
}

/// The FEEL index, counting from 1, of the 0-based index `idx`.
pub fn to_feel_index(idx: usize) -> (r: usize)
    requires
        idx < usize::MAX,
    ensures
        r == idx + 1,
{
    idx + 1
}

/// `pos` where `low <= pos <= high`, else an index error.
pub fn range_check(pos: usize, low: usize, high: usize) -> (r: Result<usize, EvalError>)
    ensures
        low <= pos <= high ==> r == Ok::<usize, EvalError>(pos),
        !(low <= pos <= high) ==> (r matches Err(e) && e.kind is IndexError && e.pos@ == (
            0int,
            0int,
            0int,
        )),
{
    if pos < low || pos > high {
        Err(EvalError::index_error())
    } else {
        Ok(pos)
    }
}

/// `v` holds, in order, clones of the items of `s`.
pub open spec fn clones_of<T: Clone>(v: Seq<T>, s: Seq<T>) -> bool {
    &&& v.len() == s.len()
    &&& forall|i: int| 0 <= i < s.len() ==> cloned(s[i], #[trigger] v[i])
}

/// Whether the error is the index error, reported at no position.
pub open spec fn is_index_error(e: EvalError) -> bool {
    e.kind is IndexError && e.pos@ == (0int, 0int, 0int)
}

fn clone_range<T: Clone>(list: &Vec<T>, lo: usize, hi: usize, out: &mut Vec<T>)
    requires
        lo <= hi <= list.len(),
    ensures
        final(out)@.len() == old(out)@.len() + (hi - lo),
        final(out)@.take(old(out)@.len() as int) == old(out)@,
        clones_of(final(out)@.skip(old(out)@.len() as int), list@.subrange(lo as int, hi as int)),
{
    let ghost n0 = out@.len();
    let mut i = lo;
    while i < hi
        invariant
            lo <= i <= hi <= list.len(),
            out@.len() == n0 + (i - lo),
            out@.take(n0 as int) == old(out)@,
            n0 == old(out)@.len(),
            forall|k: int| lo <= k < i ==> cloned(list@[k], #[trigger] out@[n0 + k - lo]),
        decreases hi - i,
    {
        let c = list[i].clone();
        out.push(c);
        proof {
            assert(out@.take(n0 as int) =~= old(out)@);
        }
        i = i + 1;
    }
    proof {
        let tail = out@.skip(n0 as int);
        let part = list@.subrange(lo as int, hi as int);
        assert forall|k: int| 0 <= k < part.len() implies cloned(part[k], #[trigger] tail[k]) by {
            assert(part[k] == list@[lo + k]);
            assert(tail[k] == out@[n0 + (lo + k) - lo]);
        }
    }
}

/// The end, exclusive and 0-based, of a sub-list of at most `length` items
/// from `start`, in a list of `len` items.
pub open spec fn sub_end(start: int, length: Option<usize>, len: int) -> int {
    match length {
        Some(l) => if start + l < len {
            start + l
        } else {
            len
        },
        None => len,
    }
}

/// `sublist(list, start position, length)`: the items from the position
/// `start` on, at most `length` of them where it is given; an index error
/// where `start` is not a position of the list.
pub fn sublist<T: Clone>(list: &Vec<T>, start: usize, length: Option<usize>) -> (r: Result<
    Vec<T>,
    EvalError,
>)
    requires
        length matches Some(l) ==> start - 1 + l <= usize::MAX,
    ensures
        1 <= start <= list.len() ==> (r matches Ok(v) && clones_of(
            v@,
            list@.subrange(start - 1, sub_end(start - 1, length, list.len() as int)),
        )),
        !(1 <= start <= list.len()) ==> (r matches Err(e) && is_index_error(e)),
{
    let feel_start = range_check(start, 1, list.len())?;
    let p = from_feel_index(feel_start);
    let end = match length {
        Some(l) => if p + l < list.len() {
            p + l
        } else {
            list.len()
        },
        None => list.len(),
    };
    let mut out: Vec<T> = Vec::new();
    clone_range(list, p, end, &mut out);
    proof {
        assert(out@.skip(0) =~= out@);
    }
    Ok(out)
}

/// `insert before(list, position, newItem)`: the list with `item` put
/// before the item at `position`; an index error where `position` is not a
/// position of the list.
pub fn insert_before<T: Clone>(list: &Vec<T>, position: usize, item: &T) -> (r: Result<
    Vec<T>,
    EvalError,
>)
    ensures
        1 <= position <= list.len() ==> (r matches Ok(v) && clones_of(
            v@,
            list@.take(position - 1) + seq![*item] + list@.skip(position - 1),
        )),
        !(1 <= position <= list.len()) ==> (r matches Err(e) && is_index_error(e)),
{
    let feel_position = range_check(position, 1, list.len())?;
    let p = from_feel_index(feel_position);
    let mut out: Vec<T> = Vec::new();
    clone_range(list, 0, p, &mut out);
    let ghost a = out@;
    out.push(item.clone());
    let ghost b = out@;
    clone_range(list, p, list.len(), &mut out);
    proof {
        let want = list@.take(p as int) + seq![*item] + list@.skip(p as int);
        assert(a.skip(0) =~= a);
        assert(list@.subrange(0, p as int) =~= list@.take(p as int));
        assert(list@.subrange(p as int, list.len() as int) =~= list@.skip(p as int));
        assert forall|k: int| 0 <= k < want.len() implies cloned(want[k], #[trigger] out@[k]) by {
            if k < p {
                assert(out@[k] == b[k]);
                assert(b[k] == a[k]);
                assert(a[k] == a.skip(0)[k]);
            } else if k == p {
                assert(out@[k] == b[k]);
            } else {
                assert(out@[k] == out@.skip(b.len() as int)[k - b.len()]);
            }
        }
    }
    Ok(out)
}

/// `remove(list, position)`: the list without the item at `position`; an
/// index error where `position` is not a position of the list.
pub fn remove<T: Clone>(list: &Vec<T>, position: usize) -> (r: Result<Vec<T>, EvalError>)
    ensures
        1 <= position <= list.len() ==> (r matches Ok(v) && clones_of(
            v@,
            list@.take(position - 1) + list@.skip(position as int),
        )),
        !(1 <= position <= list.len()) ==> (r matches Err(e) && is_index_error(e)),
{
    let feel_position = range_check(position, 1, list.len())?;
    let p = from_feel_index(feel_position);
    let mut out: Vec<T> = Vec::new();
    clone_range(list, 0, p, &mut out);
    let ghost a = out@;
    clone_range(list, p + 1, list.len(), &mut out);
    proof {
        let want = list@.take(p as int) + list@.skip(p + 1);
        assert(a.skip(0) =~= a);
        assert(list@.subrange(0, p as int) =~= list@.take(p as int));
        assert(list@.subrange(p + 1, list.len() as int) =~= list@.skip(p + 1));
        assert forall|k: int| 0 <= k < want.len() implies cloned(want[k], #[trigger] out@[k]) by {
            if k < p {
                assert(out@[k] == a[k]);
                assert(a[k] == a.skip(0)[k]);
            } else {
                assert(out@[k] == out@.skip(a.len() as int)[k - a.len()]);
            }
        }
    }
    Ok(out)
}

/// `reverse(list)`: the items in the opposite order.
pub fn reverse<T: Clone>(list: &Vec<T>) -> (r: Vec<T>)
    ensures
        clones_of(r@, list@.reverse()),
{
    let mut out: Vec<T> = Vec::new();
    let mut i = list.len();
    while i > 0
        invariant
            i <= list.len(),
            out@.len() == list.len() - i,
            forall|k: int| 0 <= k < out@.len() ==> cloned(list@[list.len() - 1 - k], #[trigger] out@[k]),
        decreases i,
    {
        i = i - 1;
        out.push(list[i].clone());
    }
    proof {
        let want = list@.reverse();
        assert forall|k: int| 0 <= k < want.len() implies cloned(want[k], #[trigger] out@[k]) by {
            assert(want[k] == list@[list.len() - 1 - k]);
        }
    }
    out
}

/// `append(list, items)`: the items of `list`, then `items`.
pub fn append<T: Clone>(list: &Vec<T>, items: &Vec<T>) -> (r: Vec<T>)
    ensures
        clones_of(r@, list@ + items@),
{
    let mut out: Vec<T> = Vec::new();
    clone_range(list, 0, list.len(), &mut out);
    let ghost a = out@;
    clone_range(items, 0, items.len(), &mut out);
    proof {
        let want = list@ + items@;
        assert(a.skip(0) =~= a);
        assert(list@.subrange(0, list.len() as int) =~= list@);
        assert(items@.subrange(0, items.len() as int) =~= items@);
        assert forall|k: int| 0 <= k < want.len() implies cloned(want[k], #[trigger] out@[k]) by {
            if k < list.len() {
                assert(out@[k] == a[k]);
                assert(a[k] == a.skip(0)[k]);
            } else {
                assert(out@[k] == out@.skip(a.len() as int)[k - a.len()]);
            }
        }
    }
    out
}

/// The items of the lists, one list after the other.
pub open spec fn concat_spec<T>(lists: Seq<Vec<T>>) -> Seq<T>
    decreases lists.len(),
{
    if lists.len() == 0 {
        Seq::empty()
    } else {
        concat_spec(lists.drop_last()) + lists.last()@
    }
}

/// `concatenate(lists)`: the items of all the lists, in order.
pub fn concatenate<T: Clone>(lists: &Vec<Vec<T>>) -> (r: Vec<T>)
    ensures
        clones_of(r@, concat_spec(lists@)),
{
    let mut out: Vec<T> = Vec::new();
    let mut i: usize = 0;
    while i < lists.len()
        invariant
            i <= lists.len(),
            clones_of(out@, concat_spec(lists@.take(i as int))),
        decreases lists.len() - i,
    {
        let ghost a = out@;
        let l = &lists[i];
        clone_range(l, 0, l.len(), &mut out);
        proof {
            let want = concat_spec(lists@.take(i + 1));
            assert(lists@.take(i + 1).drop_last() =~= lists@.take(i as int));
            assert(want == concat_spec(lists@.take(i as int)) + l@);
            assert(l@.subrange(0, l.len() as int) =~= l@);
            assert(out@.take(a.len() as int) == a);
            assert forall|k: int| 0 <= k < want.len() implies cloned(want[k], #[trigger] out@[k]) by {
                if k < a.len() {
                    assert(out@[k] == out@.take(a.len() as int)[k]);
                } else {
                    assert(out@[k] == out@.skip(a.len() as int)[k - a.len()]);
                }
            }
        }
        i = i + 1;
    }
    proof {
        assert(lists@.take(lists.len() as int) =~= lists@);
    }
    out
}

/// Whether some item of `s` equals `e`.
pub open spec fn has_item<T: PartialEq>(s: Seq<T>, e: T) -> bool {
    exists|i: int| 0 <= i < s.len() && s[i].eq_spec(&e)
}

/// `list contains(list, element)`: whether an item equals `element`.
pub fn list_contains<T: PartialEq>(list: &Vec<T>, element: &T) -> (r: bool)
    ensures
        T::obeys_eq_spec() ==> r == has_item(list@, *element),
{
    let mut i: usize = 0;
    while i < list.len()
        invariant
            i <= list.len(),
            T::obeys_eq_spec() ==> forall|k: int| 0 <= k < i ==> !(#[trigger] list@[k]).eq_spec(element),
        decreases list.len() - i,
    {
        if list[i] == *element {
            return true;
        }
        i = i + 1;
    }
    false
}

/// The positions, counting from 1, of the items of `s` that equal `m`.
pub open spec fn positions_of<T: PartialEq>(s: Seq<T>, m: T) -> Seq<usize>
    decreases s.len(),
{
    if s.len() == 0 {
        Seq::empty()
    } else if s.last().eq_spec(&m) {
        positions_of(s.drop_last(), m).push(s.len() as usize)
    } else {
        positions_of(s.drop_last(), m)
    }
}

/// `index of(list, match)`: the positions of the items that equal `m`.
pub fn index_of<T: PartialEq>(list: &Vec<T>, m: &T) -> (r: Vec<usize>)
    ensures
        T::obeys_eq_spec() ==> r@ == positions_of(list@, *m),
{
    let mut out: Vec<usize> = Vec::new();
    let mut i: usize = 0;
    while i < list.len()
        invariant
            i <= list.len(),
            T::obeys_eq_spec() ==> out@ == positions_of(list@.take(i as int), *m),
        decreases list.len() - i,
    {
        proof {
            assert(list@.take(i + 1).drop_last() =~= list@.take(i as int));
        }
        if list[i] == *m {
            out.push(to_feel_index(i));
        }
        i = i + 1;
    }
    proof {
        assert(list@.take(list.len() as int) =~= list@);
    }
    out
}

/// The items of `s` without those equal to the item kept just before them:
/// runs of equal items reduced to their first.
pub open spec fn dedup_spec<T: PartialEq>(s: Seq<T>) -> Seq<T>
    decreases s.len(),
{
    if s.len() == 0 {
        Seq::empty()
    } else {
        let d = dedup_spec(s.drop_last());
        if d.len() > 0 && s.last().eq_spec(&d.last()) {
            d
        } else {
            d.push(s.last())
        }
    }
}

proof fn lemma_dedup_len<T: PartialEq>(s: Seq<T>)
    ensures
        dedup_spec(s).len() <= s.len(),
        s.len() > 0 ==> dedup_spec(s).len() > 0,
    decreases s.len(),
{
    if s.len() > 0 {
        lemma_dedup_len(s.drop_last());
    }
}

/// The items of `s` with runs of equal items reduced to their first, each
/// cloned; items are compared before they are cloned.
fn dedup_clone<T: PartialEq + Clone>(s: &Vec<T>) -> (r: Vec<T>)
    ensures
        T::obeys_eq_spec() ==> clones_of(r@, dedup_spec(s@)),
{
    let mut out: Vec<T> = Vec::new();
    let mut kept: Option<usize> = None;
    let ghost mut d: Seq<T> = Seq::empty();
    let mut i: usize = 0;
    while i < s.len()
        invariant
            i <= s.len(),
            T::obeys_eq_spec() ==> d == dedup_spec(s@.take(i as int)),
            T::obeys_eq_spec() ==> clones_of(out@, d),
            match kept {
                Some(k) => k < i && (T::obeys_eq_spec() ==> d.len() > 0 && d.last() == s@[k as int]),
                None => i == 0 && d.len() == 0,
            },
        decreases s.len() - i,
    {
        proof {
            assert(s@.take(i + 1).drop_last() =~= s@.take(i as int));
            assert(s@.take(i + 1).last() == s@[i as int]);
            lemma_dedup_len(s@.take(i as int));
        }
        let same = match kept {
            Some(k) => s[i] == s[k],
            None => false,
        };
        if !same {
            out.push(s[i].clone());
            kept = Some(i);
            proof {
                d = d.push(s@[i as int]);
            }
        }
        i = i + 1;
    }
    proof {
        assert(s@.take(s.len() as int) =~= s@);
    }
    out
}

/// `distinct values(list)`: the list with each run of equal items reduced
/// to its first.
pub fn distinct_values<T: PartialEq + Clone>(list: &Vec<T>) -> (r: Vec<T>)
    ensures
        T::obeys_eq_spec() ==> clones_of(r@, dedup_spec(list@)),
{
    dedup_clone(list)
}

/// `union(lists)`: the items of all the lists, one list after the other,
/// with each run of equal items reduced to its first.
pub fn union<T: PartialEq + Clone>(lists: &Vec<Vec<T>>) -> (r: Vec<T>)
    ensures
        T::obeys_eq_spec() ==> exists|all: Seq<T>|
            clones_of(all, concat_spec(lists@)) && clones_of(r@, dedup_spec(all)),
{
    let all = concatenate(lists);
    let r = dedup_clone(&all);
    proof {
        if T::obeys_eq_spec() {
            assert(clones_of(all@, concat_spec(lists@)) && clones_of(r@, dedup_spec(all@)));
        }
    }
    r
}

/// The index of the first least item of `s`: an item replaces the one kept
/// so far where it is less than it.
pub open spec fn least_index<T: PartialOrd>(s: Seq<T>) -> Option<int>
    decreases s.len(),
{
    if s.len() == 0 {
        None
    } else {
        match least_index(s.drop_last()) {
            None => Some(s.len() - 1),
            Some(k) => if s.last().is_lt(&s[k]) {
                Some(s.len() - 1)
            } else {
                Some(k)
            },
        }
    }
}

/// The index of the first greatest item of `s`: an item replaces the one
/// kept so far where it is greater than it.
pub open spec fn greatest_index<T: PartialOrd>(s: Seq<T>) -> Option<int>
    decreases s.len(),
{
    if s.len() == 0 {
        None
    } else {
        match greatest_index(s.drop_last()) {
            None => Some(s.len() - 1),
            Some(k) => if s.last().is_gt(&s[k]) {
                Some(s.len() - 1)
            } else {
                Some(k)
            },
        }
    }
}

proof fn lemma_least_index<T: PartialOrd>(s: Seq<T>)
    ensures
        least_index(s) matches Some(k) ==> 0 <= k < s.len(),
        s.len() > 0 ==> least_index(s) is Some,
        greatest_index(s) matches Some(k) ==> 0 <= k < s.len(),
        s.len() > 0 ==> greatest_index(s) is Some,
    decreases s.len(),
{
    if s.len() > 0 {
        lemma_least_index(s.drop_last());
    }
}


/// `index of` lists, in increasing order, exactly the positions (counting
/// from 1) of the items equal to the match.
pub proof fn law_index_of_positions<T: PartialEq>(s: Seq<T>, m: T)
    requires
        s.len() <= usize::MAX,
    ensures
        forall|i: int|
            0 <= i < s.len() ==> (s[i].eq_spec(&m) <==> positions_of(s, m).contains((i + 1) as usize)),
        forall|k: int|
            0 <= k < positions_of(s, m).len() ==> 1 <= #[trigger] positions_of(s, m)[k] <= s.len(),
        forall|a: int, b: int|
            0 <= a < b < positions_of(s, m).len() ==> #[trigger] positions_of(s, m)[a] < #[trigger] positions_of(
                s,
                m,
            )[b],
    decreases s.len(),
{
    if s.len() > 0 {
        let p = s.drop_last();
        law_index_of_positions(p, m);
        let rp = positions_of(p, m);
        let r = positions_of(s, m);
        assert forall|i: int| 0 <= i < s.len() implies (s[i].eq_spec(&m) <==> r.contains(
            (i + 1) as usize,
        )) by {
            if i < s.len() - 1 {
                assert(p[i] == s[i]);
                if s.last().eq_spec(&m) {
                    assert(r == rp.push(s.len() as usize));
                    if rp.contains((i + 1) as usize) {
                        let k = choose|k: int| 0 <= k < rp.len() && rp[k] == (i + 1) as usize;
                        assert(r[k] == rp[k]);
                    }
                    if r.contains((i + 1) as usize) {
                        let k = choose|k: int| 0 <= k < r.len() && r[k] == (i + 1) as usize;
                        if k < rp.len() {
                            assert(rp[k] == r[k]);
                        }
                    }
                }
            } else {
                if s.last().eq_spec(&m) {
                    assert(r[rp.len() as int] == s.len() as usize);
                } else {
                    if r.contains((i + 1) as usize) {
                        let k = choose|k: int| 0 <= k < r.len() && r[k] == (i + 1) as usize;
                        assert(1 <= rp[k] <= p.len());
                    }
                }
            }
        }
    }
}

/// `min` gives an item that no item of the list is less than, where `<` is
/// a strict order on the list's items.
pub proof fn law_min_is_least<T: PartialOrd>(s: Seq<T>)
    requires
        forall|i: int| 0 <= i < s.len() ==> !(#[trigger] s[i]).is_lt(&s[i]),
        forall|i: int, j: int, l: int|
            #![trigger s[i], s[j], s[l]]
            0 <= i < s.len() && 0 <= j < s.len() && 0 <= l < s.len() && s[i].is_lt(&s[j])
                && s[j].is_lt(&s[l]) ==> s[i].is_lt(&s[l]),
    ensures
        s.len() > 0 ==> (least_index(s) matches Some(k) && 0 <= k < s.len() && forall|i: int|
            0 <= i < s.len() ==> !(#[trigger] s[i]).is_lt(&s[k])),
    decreases s.len(),
{
    if s.len() == 1 {
        assert(s.drop_last().len() == 0);
        assert(!s[0].is_lt(&s[0]));
    }
    if s.len() > 1 {
        let p = s.drop_last();
        assert forall|i: int| 0 <= i < p.len() implies !(#[trigger] p[i]).is_lt(&p[i]) by {
            assert(p[i] == s[i]);
        }
        assert forall|i: int, j: int, l: int|
            #![trigger p[i], p[j], p[l]]
            0 <= i < p.len() && 0 <= j < p.len() && 0 <= l < p.len() && p[i].is_lt(&p[j])
                && p[j].is_lt(&p[l]) implies p[i].is_lt(&p[l]) by {
            assert(p[i] == s[i] && p[j] == s[j] && p[l] == s[l]);
        }
        law_min_is_least(p);
        assert(least_index(p) is Some);
        let k = least_index(p)->Some_0;
        let n = s.len() - 1;
        assert(p[k] == s[k]);
        if s.last().is_lt(&s[k]) {
            assert(least_index(s) == Some(n));
            assert forall|i: int| 0 <= i < s.len() implies !(#[trigger] s[i]).is_lt(&s[n]) by {
                if i < n {
                    assert(p[i] == s[i]);
                    if s[i].is_lt(&s[n]) {
                        assert(s[i].is_lt(&s[k]));
                    }
                }
            }
        } else {
            assert(least_index(s) == Some(k));
            assert forall|i: int| 0 <= i < s.len() implies !(#[trigger] s[i]).is_lt(&s[k]) by {
                if i < n {
                    assert(p[i] == s[i]);
                }
            }
        }
    }
}

/// `max` gives an item that no item of the list is greater than, where `>`
/// is a strict order on the list's items.
pub proof fn law_max_is_greatest<T: PartialOrd>(s: Seq<T>)
    requires
        forall|i: int| 0 <= i < s.len() ==> !(#[trigger] s[i]).is_gt(&s[i]),
        forall|i: int, j: int, l: int|
            #![trigger s[i], s[j], s[l]]
            0 <= i < s.len() && 0 <= j < s.len() && 0 <= l < s.len() && s[i].is_gt(&s[j])
                && s[j].is_gt(&s[l]) ==> s[i].is_gt(&s[l]),
    ensures
        s.len() > 0 ==> (greatest_index(s) matches Some(k) && 0 <= k < s.len() && forall|i: int|
            0 <= i < s.len() ==> !(#[trigger] s[i]).is_gt(&s[k])),
    decreases s.len(),
{
    if s.len() == 1 {
        assert(s.drop_last().len() == 0);
        assert(!s[0].is_gt(&s[0]));
    }
    if s.len() > 1 {
        let p = s.drop_last();
        assert forall|i: int| 0 <= i < p.len() implies !(#[trigger] p[i]).is_gt(&p[i]) by {
            assert(p[i] == s[i]);
        }
        assert forall|i: int, j: int, l: int|
            #![trigger p[i], p[j], p[l]]
            0 <= i < p.len() && 0 <= j < p.len() && 0 <= l < p.len() && p[i].is_gt(&p[j])
                && p[j].is_gt(&p[l]) implies p[i].is_gt(&p[l]) by {
            assert(p[i] == s[i] && p[j] == s[j] && p[l] == s[l]);
        }
        law_max_is_greatest(p);
        assert(greatest_index(p) is Some);
        let k = greatest_index(p)->Some_0;
        let n = s.len() - 1;
        assert(p[k] == s[k]);
        if s.last().is_gt(&s[k]) {
            assert(greatest_index(s) == Some(n));
            assert forall|i: int| 0 <= i < s.len() implies !(#[trigger] s[i]).is_gt(&s[n]) by {
                if i < n {
                    assert(p[i] == s[i]);
                    if s[i].is_gt(&s[n]) {
                        assert(s[i].is_gt(&s[k]));
                    }
                }
            }
        } else {
            assert(greatest_index(s) == Some(k));
            assert forall|i: int| 0 <= i < s.len() implies !(#[trigger] s[i]).is_gt(&s[k]) by {
                if i < n {
                    assert(p[i] == s[i]);
                }
            }
        }
    }
}

/// `min(list)`: a clone of the first least item, `None` for an empty list.
pub fn min<T: PartialOrd + Clone>(list: &Vec<T>) -> (r: Option<T>)
    ensures
        ordered_items::<T>() ==> match least_index(list@) {
            None => r is None,
            Some(k) => r matches Some(v) && cloned(list@[k], v),
        },
{
    let mut best: Option<usize> = None;
    let mut i: usize = 0;
    while i < list.len()
        invariant
            i <= list.len(),
            ordered_items::<T>() ==> best == match least_index(list@.take(i as int)) {
                None => None,
                Some(k) => Some(k as usize),
            },
            best matches Some(k) ==> k < i,
            best is None ==> i == 0,
        decreases list.len() - i,
    {
        proof {
            assert(list@.take(i + 1).drop_last() =~= list@.take(i as int));
            lemma_least_index(list@.take(i as int));
        }
        let replace = match best {
            None => true,
            Some(k) => list[i] < list[k],
        };
        if replace {
            best = Some(i);
        }
        i = i + 1;
    }
    proof {
        assert(list@.take(list.len() as int) =~= list@);
        lemma_least_index(list@);
    }
    match best {
        None => None,
        Some(k) => Some(list[k].clone()),
    }
}

/// `max(list)`: a clone of the first greatest item, `None` for an empty
/// list.
pub fn max<T: PartialOrd + Clone>(list: &Vec<T>) -> (r: Option<T>)
    ensures
        ordered_items::<T>() ==> match greatest_index(list@) {
            None => r is None,
            Some(k) => r matches Some(v) && cloned(list@[k], v),
        },
{
    let mut best: Option<usize> = None;
    let mut i: usize = 0;
    while i < list.len()
        invariant
            i <= list.len(),
            ordered_items::<T>() ==> best == match greatest_index(list@.take(i as int)) {
                None => None,
                Some(k) => Some(k as usize),
            },
            best matches Some(k) ==> k < i,
            best is None ==> i == 0,
        decreases list.len() - i,
    {
        proof {
            assert(list@.take(i + 1).drop_last() =~= list@.take(i as int));
            lemma_least_index(list@.take(i as int));
        }
        let replace = match best {
            None => true,
            Some(k) => list[i] > list[k],
        };
        if replace {
            best = Some(i);
        }
        i = i + 1;
    }
    proof {
        assert(list@.take(list.len() as int) =~= list@);
        lemma_least_index(list@);
    }
    match best {
        None => None,
        Some(k) => Some(list[k].clone()),
    }
}

/// Whether `<` and `>` on `T` follow the specifications vstd gives them.
pub open spec fn ordered_items<T: PartialOrd>() -> bool {
    T::obeys_partial_cmp_spec()
}

/// `string join(list, delimiter, prefix, suffix)`: the prefix, the strings
/// with the delimiter between them, and the suffix.
pub fn string_join(list: &Vec<String>, delimiter: &str, prefix: &str, suffix: &str) -> (r: String)
    ensures
        r@ == prefix@ + joined(list@.map_values(|x: String| x@), delimiter@) + suffix@,
{
    let mut res = String::new();
    push_str(&mut res, prefix);
    let mut i: usize = 0;
    while i < list.len()
        invariant
            i <= list.len(),
            res@ == prefix@ + joined(list@.take(i as int).map_values(|x: String| x@), delimiter@),
        decreases list.len() - i,
    {
        let ghost before = list@.take(i as int).map_values(|x: String| x@);
        let ghost after = list@.take(i + 1).map_values(|x: String| x@);
        proof {
            assert(after.drop_last() =~= before);
            assert(after.last() == list@[i as int]@);
        }
        if i > 0 {
            push_str(&mut res, delimiter);
        }
        push_str(&mut res, list[i].as_str());
        proof {
            if i == 0 {
                assert(before =~= Seq::<Seq<char>>::empty());
                assert(after.len() == 1);
            }
            assert(res@ =~= prefix@ + joined(after, delimiter@));
        }
        i = i + 1;
    }
    proof {
        assert(list@.take(list.len() as int) =~= list@);
    }
    push_str(&mut res, suffix);
    res
}

/// Whether `m` occurs in `s`, character for character.
pub open spec fn occurs_in(s: Seq<char>, m: Seq<char>) -> bool {
    exists|p: int| 0 <= p && p + m.len() <= s.len() && #[trigger] starts_at(s, p, m)
}

/// `contains(string, match)`: whether `m` occurs in `s`.
pub fn string_contains(s: &str, m: &str) -> (r: bool)
    ensures
        r == occurs_in(s@, m@),
{
    let sv = str_chars(s);
    let mv = str_chars(m);
    if mv.len() > sv.len() {
        proof {
            assert forall|p: int| 0 <= p && p + m@.len() <= s@.len() implies !starts_at(s@, p, m@) by {}
        }
        return false;
    }
    if mv.len() == 0 {
        proof {
            assert(s@.subrange(0, 0) =~= m@);
            assert(starts_at(s@, 0, m@));
        }
        return true;
    }
    let mut p: usize = 0;
    while p <= sv.len() - mv.len()
        invariant
            0 < mv.len() <= sv.len(),
            sv@ == s@,
            mv@ == m@,
            p <= sv.len() - mv.len() + 1,
            forall|q: int| 0 <= q < p ==> !#[trigger] starts_at(s@, q, m@),
        decreases sv.len() - mv.len() + 1 - p,
    {
        if chars_start_at(&sv, p, &mv) {
            return true;
        }
        p = p + 1;
    }
    false
}

/// `starts with(string, match)`: whether `s` begins with `m`.
pub fn string_starts_with(s: &str, m: &str) -> (r: bool)
    ensures
        r == m@.is_prefix_of(s@),
{
    let sv = str_chars(s);
    let mv = str_chars(m);
    let r = chars_start_at(&sv, 0, &mv);
    proof {
        if r {
            assert(s@.subrange(0, m@.len() as int) =~= m@);
        }
        if m@.is_prefix_of(s@) {
            assert(starts_at(s@, 0, m@));
        }
    }
    r
}

/// `ends with(string, match)`: whether `s` finishes with `m`.
pub fn string_ends_with(s: &str, m: &str) -> (r: bool)
    ensures
        r == m@.is_suffix_of(s@),
{
    let sv = str_chars(s);
    let mv = str_chars(m);
    if mv.len() > sv.len() {
        return false;
    }
    let r = chars_start_at(&sv, sv.len() - mv.len(), &mv);
    proof {
        if r {
            assert(s@.subrange(s@.len() - m@.len(), s@.len() as int) =~= m@);
        }
        if m@.is_suffix_of(s@) {
            assert(starts_at(s@, s@.len() - m@.len(), m@));
        }
    }
    r
}

/// `all(list)`: whether every item counts as true.
pub fn all(list: &Vec<Value>) -> (r: bool)
    ensures
        r == forall|k: int| 0 <= k < list@.len() ==> truthy(#[trigger] values_view(list@)[k]),
{
    proof {
        lemma_values_view(list@);
    }
    let mut i: usize = 0;
    while i < list.len()
        invariant
            i <= list.len(),
            values_view(list@).len() == list@.len(),
            forall|k: int| 0 <= k < list@.len() ==> values_view(list@)[k] == value_view(#[trigger] list@[k]),
            forall|k: int| 0 <= k < i ==> truthy(#[trigger] values_view(list@)[k]),
        decreases list.len() - i,
    {
        if !list[i].bool_value() {
            return false;
        }
        i = i + 1;
    }
    true
}

/// `any(list)`: whether some item counts as true.
pub fn any(list: &Vec<Value>) -> (r: bool)
    ensures
        r == exists|k: int| 0 <= k < list@.len() && truthy(#[trigger] values_view(list@)[k]),
{
    proof {
        lemma_values_view(list@);
    }
    let mut i: usize = 0;
    while i < list.len()
        invariant
            i <= list.len(),
            values_view(list@).len() == list@.len(),
            forall|k: int| 0 <= k < list@.len() ==> values_view(list@)[k] == value_view(#[trigger] list@[k]),
            forall|k: int| 0 <= k < i ==> !truthy(#[trigger] values_view(list@)[k]),
        decreases list.len() - i,
    {
        if list[i].bool_value() {
            return true;
        }
        i = i + 1;
    }
    false
}

/// `not(from)`: whether the value counts as false.
pub fn not(v: &Value) -> (r: bool)
    ensures
        r == !truthy(v@),
{
    !v.bool_value()
}

/// `count(list)`: the number of items.
pub fn count<T>(list: &Vec<T>) -> (r: usize)
    ensures
        r == list@.len(),
{
    list.len()
}

} // verus!
