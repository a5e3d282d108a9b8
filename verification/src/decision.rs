//! The hit policies of a DMN decision table: given what each rule gave,
//! in order (whether its input entries matched, and its outputs), which
//! rules' outputs make the result, or which failure stops it.
use crate::text::{nat_text, push_str, push_usize};
use vstd::prelude::*;
use vstd::std_specs::cmp::PartialEqSpec;

verus! {

/// What one rule of a table gave: whether its input entries matched, and
/// its outputs; `None` where evaluating them failed.
pub struct RuleEval<T> {
    pub matched: Option<bool>,
    pub output: Option<T>,
}

/// Why a hit policy gives no result: the matching of a rule failed, the
/// outputs of a rule failed, or the policy itself refuses the matches.
#[derive(Debug)]
pub enum HitFailure {
    MatchFailed(usize),
    OutputFailed(usize),
    Policy(String),
}

/// A failure as the specifications see it.
pub enum SHit {
    MatchFailed(int),
    OutputFailed(int),
    Policy(Seq<char>),
}

pub open spec fn hit_view(f: HitFailure) -> SHit {
    match f {
        HitFailure::MatchFailed(i) => SHit::MatchFailed(i as int),
        HitFailure::OutputFailed(i) => SHit::OutputFailed(i as int),
        HitFailure::Policy(m) => SHit::Policy(m@),
    }
}

/// Whether `r` is the result `g`.
pub open spec fn hit_is<A, B>(r: Result<A, HitFailure>, g: Result<B, SHit>, same: spec_fn(A, B) -> bool) -> bool {
    match g {
        Ok(x) => r matches Ok(y) && same(y, x),
        Err(e) => r matches Err(f) && hit_view(f) == e,
    }
}

/// `FIRST`: the first rule that matches, its outputs evaluated; none where
/// no rule matches.
pub open spec fn first_from<T>(rs: Seq<RuleEval<T>>, i: int) -> Result<Option<int>, SHit>
    decreases rs.len() - i,
{
    if i < 0 || i >= rs.len() {
        Ok(None)
    } else {
        match rs[i].matched {
            None => Err(SHit::MatchFailed(i)),
            Some(true) => match rs[i].output {
                None => Err(SHit::OutputFailed(i)),
                Some(_) => Ok(Some(i)),
            },
            Some(false) => first_from(rs, i + 1),
        }
    }
}

/// The message of `UNIQUE` where rules `a` and `b` both match.
pub open spec fn unique_message(a: int, b: int) -> Seq<char> {
    "UNIQUE matched multiple rules ("@ + nat_text(a as nat) + ", "@ + nat_text(b as nat) + ")"@
}

/// The message of `ANY` where rules `a` and `b` match with different
/// outputs.
pub open spec fn any_message(a: int, b: int) -> Seq<char> {
    "ANY matched rules "@ + nat_text(a as nat) + " and "@ + nat_text(b as nat)
        + " with different outputs"@
}

/// `UNIQUE`: every rule is matched first; a second match is refused; the
/// outputs of the one match are then evaluated.
pub open spec fn unique_from<T>(rs: Seq<RuleEval<T>>, i: int, found: Option<int>) -> Result<
    Option<int>,
    SHit,
>
    decreases rs.len() - i,
{
    if i < 0 || i >= rs.len() {
        match found {
            None => Ok(None),
            Some(k) => if 0 <= k < rs.len() && rs[k].output is Some {
                Ok(Some(k))
            } else {
                Err(SHit::OutputFailed(k))
            },
        }
    } else {
        match rs[i].matched {
            None => Err(SHit::MatchFailed(i)),
            Some(true) => match found {
                Some(k) => Err(SHit::Policy(unique_message(k, i))),
                None => unique_from(rs, i + 1, Some(i)),
            },
            Some(false) => unique_from(rs, i + 1, found),
        }
    }
}

/// `ANY`: the outputs of each match are evaluated; every match must give
/// the outputs of the first; the first match's outputs are the result.
pub open spec fn any_from<T: PartialEq>(rs: Seq<RuleEval<T>>, i: int, found: Option<int>) -> Result<
    Option<int>,
    SHit,
>
    decreases rs.len() - i,
{
    if i < 0 || i >= rs.len() {
        Ok(found)
    } else {
        match rs[i].matched {
            None => Err(SHit::MatchFailed(i)),
            Some(false) => any_from(rs, i + 1, found),
            Some(true) => match rs[i].output {
                None => Err(SHit::OutputFailed(i)),
                Some(o) => match found {
                    None => any_from(rs, i + 1, Some(i)),
                    Some(k) => if 0 <= k < rs.len() && (rs[k].output matches Some(p) && p.eq_spec(&o)) {
                        any_from(rs, i + 1, found)
                    } else {
                        Err(SHit::Policy(any_message(k, i)))
                    },
                },
            },
        }
    }
}

/// `COLLECT`: the rules that match, in order, their outputs evaluated.
pub open spec fn collect_from<T>(rs: Seq<RuleEval<T>>, i: int, acc: Seq<int>) -> Result<
    Seq<int>,
    SHit,
>
    decreases rs.len() - i,
{
    if i < 0 || i >= rs.len() {
        Ok(acc)
    } else {
        match rs[i].matched {
            None => Err(SHit::MatchFailed(i)),
            Some(false) => collect_from(rs, i + 1, acc),
            Some(true) => match rs[i].output {
                None => Err(SHit::OutputFailed(i)),
                Some(_) => collect_from(rs, i + 1, acc.push(i)),
            },
        }
    }
}

pub open spec fn same_index(a: Option<usize>, b: Option<int>) -> bool {
    match (a, b) {
        (None, None) => true,
        (Some(x), Some(y)) => x as int == y,
        _ => false,
    }
}

pub open spec fn same_indices(a: Vec<usize>, b: Seq<int>) -> bool {
    a@.len() == b.len() && forall|k: int| 0 <= k < b.len() ==> a@[k] as int == b[k]
}

/// `FIRST`: the index of the rule whose outputs make the result.
pub fn hit_first<T>(rs: &Vec<RuleEval<T>>) -> (r: Result<Option<usize>, HitFailure>)
    ensures
        hit_is(r, first_from(rs@, 0), |a: Option<usize>, b: Option<int>| same_index(a, b)),
{
    let mut i: usize = 0;
    while i < rs.len()
        invariant
            i <= rs.len(),
            first_from(rs@, 0) == first_from(rs@, i as int),
        decreases rs.len() - i,
    {
        match rs[i].matched {
            None => {
                return Err(HitFailure::MatchFailed(i));
            },
            Some(true) => {
                if rs[i].output.is_none() {
                    return Err(HitFailure::OutputFailed(i));
                }
                return Ok(Some(i));
            },
            Some(false) => {},
        }
        i = i + 1;
    }
    Ok(None)
}

fn unique_text(a: usize, b: usize) -> (m: String)
    ensures
        m@ == unique_message(a as int, b as int),
{
    let mut m = String::new();
    push_str(&mut m, "UNIQUE matched multiple rules (");
    push_usize(&mut m, a);
    push_str(&mut m, ", ");
    push_usize(&mut m, b);
    push_str(&mut m, ")");
    m
}

fn any_text(a: usize, b: usize) -> (m: String)
    ensures
        m@ == any_message(a as int, b as int),
{
    let mut m = String::new();
    push_str(&mut m, "ANY matched rules ");
    push_usize(&mut m, a);
    push_str(&mut m, " and ");
    push_usize(&mut m, b);
    push_str(&mut m, " with different outputs");
    m
}

/// `UNIQUE`: the index of the one rule that matches, if any.
pub fn hit_unique<T>(rs: &Vec<RuleEval<T>>) -> (r: Result<Option<usize>, HitFailure>)
    ensures
        hit_is(r, unique_from(rs@, 0, None), |a: Option<usize>, b: Option<int>| same_index(a, b)),
{
    let mut found: Option<usize> = None;
    let mut i: usize = 0;
    while i < rs.len()
        invariant
            i <= rs.len(),
            found matches Some(k) ==> k < i,
            unique_from(rs@, 0, None) == unique_from(
                rs@,
                i as int,
                match found {
                    Some(k) => Some(k as int),
                    None => None,
                },
            ),
        decreases rs.len() - i,
    {
        match rs[i].matched {
            None => {
                return Err(HitFailure::MatchFailed(i));
            },
            Some(true) => {
                if let Some(k) = found {
                    return Err(HitFailure::Policy(unique_text(k, i)));
                }
                found = Some(i);
            },
            Some(false) => {},
        }
        i = i + 1;
    }
    match found {
        None => Ok(None),
        Some(k) => if rs[k].output.is_some() {
            Ok(Some(k))
        } else {
            Err(HitFailure::OutputFailed(k))
        },
    }
}

/// `ANY`: the index of the first rule that matches, all matches giving
/// equal outputs.
pub fn hit_any<T: PartialEq>(rs: &Vec<RuleEval<T>>) -> (r: Result<Option<usize>, HitFailure>)
    ensures
        T::obeys_eq_spec() ==> hit_is(
            r,
            any_from(rs@, 0, None),
            |a: Option<usize>, b: Option<int>| same_index(a, b),
        ),
{
    let mut found: Option<usize> = None;
    let mut i: usize = 0;
    while i < rs.len()
        invariant
            i <= rs.len(),
            found matches Some(k) ==> k < i && rs@[k as int].output is Some,
            T::obeys_eq_spec() ==> any_from(rs@, 0, None) == any_from(
                rs@,
                i as int,
                match found {
                    Some(k) => Some(k as int),
                    None => None,
                },
            ),
        decreases rs.len() - i,
    {
        match rs[i].matched {
            None => {
                return Err(HitFailure::MatchFailed(i));
            },
            Some(false) => {},
            Some(true) => {
                match &rs[i].output {
                    None => {
                        return Err(HitFailure::OutputFailed(i));
                    },
                    Some(o) => {
                        match found {
                            None => {
                                found = Some(i);
                            },
                            Some(k) => {
                                let same = match &rs[k].output {
                                    Some(p) => *p == *o,
                                    None => false,
                                };
                                if !same {
                                    return Err(HitFailure::Policy(any_text(k, i)));
                                }
                            },
                        }
                    },
                }
            },
        }
        i = i + 1;
    }
    Ok(found)
}

/// `COLLECT`: the indices of the rules that match, in order.
pub fn hit_collect<T>(rs: &Vec<RuleEval<T>>) -> (r: Result<Vec<usize>, HitFailure>)
    ensures
        hit_is(r, collect_from(rs@, 0, Seq::empty()), |a: Vec<usize>, b: Seq<int>| same_indices(a, b)),
{
    let mut acc: Vec<usize> = Vec::new();
    let ghost mut sacc: Seq<int> = Seq::empty();
    let mut i: usize = 0;
    while i < rs.len()
        invariant
            i <= rs.len(),
            same_indices(acc, sacc),
            collect_from(rs@, 0, Seq::empty()) == collect_from(rs@, i as int, sacc),
        decreases rs.len() - i,
    {
        match rs[i].matched {
            None => {
                return Err(HitFailure::MatchFailed(i));
            },
            Some(false) => {},
            Some(true) => {
                if rs[i].output.is_none() {
                    return Err(HitFailure::OutputFailed(i));
                }
                acc.push(i);
                proof {
                    sacc = sacc.push(i as int);
                }
            },
        }
        i = i + 1;
    }
    Ok(acc)
}

/// Whether `a` comes before `b` in the order of `Vec`: the first differing
/// item decides, and a proper prefix comes first.
pub open spec fn lex_less(a: Seq<usize>, b: Seq<usize>) -> bool
    decreases a.len(),
{
    if a.len() == 0 {
        b.len() > 0
    } else if b.len() == 0 {
        false
    } else if a[0] < b[0] {
        true
    } else if a[0] > b[0] {
        false
    } else {
        lex_less(a.drop_first(), b.drop_first())
    }
}

fn vec_less(a: &Vec<usize>, b: &Vec<usize>) -> (r: bool)
    ensures
        r == lex_less(a@, b@),
{
    let mut i: usize = 0;
    proof {
        assert(a@.skip(0) =~= a@);
        assert(b@.skip(0) =~= b@);
    }
    while i < a.len() && i < b.len() && a[i] == b[i]
        invariant
            i <= a.len(),
            i <= b.len(),
            lex_less(a@, b@) == lex_less(a@.skip(i as int), b@.skip(i as int)),
        decreases a.len() - i,
    {
        proof {
            assert(a@.skip(i as int).drop_first() =~= a@.skip(i + 1));
            assert(b@.skip(i as int).drop_first() =~= b@.skip(i + 1));
        }
        i = i + 1;
    }
    proof {
        assert(a@.skip(i as int).len() == a.len() - i);
        if i < a.len() && i < b.len() {
            assert(a@.skip(i as int)[0] == a@[i as int]);
            assert(b@.skip(i as int)[0] == b@[i as int]);
        }
    }
    if i == a.len() {
        i < b.len()
    } else if i == b.len() {
        false
    } else {
        a[i] < b[i]
    }
}

/// `PRIORITY`: each match's outputs are evaluated to their priorities, the
/// positions of their values among the allowed values; the first match
/// whose priorities come first in the order of `Vec` gives the result.
pub open spec fn priority_from(rs: Seq<RuleEval<Vec<usize>>>, i: int, found: Option<int>) -> Result<
    Option<int>,
    SHit,
>
    decreases rs.len() - i,
{
    if i < 0 || i >= rs.len() {
        Ok(found)
    } else {
        match rs[i].matched {
            None => Err(SHit::MatchFailed(i)),
            Some(false) => priority_from(rs, i + 1, found),
            Some(true) => match rs[i].output {
                None => Err(SHit::OutputFailed(i)),
                Some(p) => match found {
                    None => priority_from(rs, i + 1, Some(i)),
                    Some(k) => if 0 <= k < rs.len() && (rs[k].output matches Some(q) && lex_less(
                        p@,
                        q@,
                    )) {
                        priority_from(rs, i + 1, Some(i))
                    } else {
                        priority_from(rs, i + 1, found)
                    },
                },
            },
        }
    }
}


/// `a` comes before `b` in lexicographic order: at the first position where
/// they differ `a` has the smaller item, or `a` is a proper prefix of `b`.
pub open spec fn lex_before(a: Seq<usize>, b: Seq<usize>) -> bool {
    ||| exists|j: int|
        0 <= j < a.len() && j < b.len() && #[trigger] a[j] < b[j] && forall|i: int|
            0 <= i < j ==> a[i] == b[i]
    ||| a.len() < b.len() && forall|i: int| 0 <= i < a.len() ==> a[i] == b[i]
}

/// The order `PRIORITY` compares priorities by is the lexicographic order.
pub proof fn lemma_lex_less_is_lex_before(a: Seq<usize>, b: Seq<usize>)
    ensures
        lex_less(a, b) == lex_before(a, b),
    decreases a.len(),
{
    if a.len() == 0 {
    } else if b.len() == 0 {
    } else if a[0] < b[0] {
        assert(0 <= 0 < a.len() && 0 < b.len() && a[0] < b[0]);
    } else if a[0] > b[0] {
        if lex_before(a, b) {
            if exists|j: int|
                0 <= j < a.len() && j < b.len() && #[trigger] a[j] < b[j] && forall|i: int|
                    0 <= i < j ==> a[i] == b[i] {
                let j = choose|j: int|
                    0 <= j < a.len() && j < b.len() && #[trigger] a[j] < b[j] && forall|i: int|
                        0 <= i < j ==> a[i] == b[i];
                if j > 0 {
                    assert(a[0] == b[0]);
                }
            } else {
                assert(a[0] == b[0]);
            }
        }
    } else {
        let a1 = a.drop_first();
        let b1 = b.drop_first();
        lemma_lex_less_is_lex_before(a1, b1);
        if lex_before(a1, b1) {
            if exists|j: int|
                0 <= j < a1.len() && j < b1.len() && #[trigger] a1[j] < b1[j] && forall|i: int|
                    0 <= i < j ==> a1[i] == b1[i] {
                let j = choose|j: int|
                    0 <= j < a1.len() && j < b1.len() && #[trigger] a1[j] < b1[j] && forall|i: int|
                        0 <= i < j ==> a1[i] == b1[i];
                assert(a[j + 1] < b[j + 1]);
                assert forall|i: int| 0 <= i < j + 1 implies a[i] == b[i] by {
                    if i > 0 {
                        assert(a1[i - 1] == b1[i - 1]);
                    }
                }
            } else {
                assert forall|i: int| 0 <= i < a.len() implies a[i] == b[i] by {
                    if i > 0 {
                        assert(a1[i - 1] == b1[i - 1]);
                    }
                }
            }
        }
        if lex_before(a, b) {
            if exists|j: int|
                0 <= j < a.len() && j < b.len() && #[trigger] a[j] < b[j] && forall|i: int|
                    0 <= i < j ==> a[i] == b[i] {
                let j = choose|j: int|
                    0 <= j < a.len() && j < b.len() && #[trigger] a[j] < b[j] && forall|i: int|
                        0 <= i < j ==> a[i] == b[i];
                assert(j > 0);
                assert(a1[j - 1] < b1[j - 1]);
                assert forall|i: int| 0 <= i < j - 1 implies a1[i] == b1[i] by {
                    assert(a[i + 1] == b[i + 1]);
                }
            } else {
                assert forall|i: int| 0 <= i < a1.len() implies a1[i] == b1[i] by {
                    assert(a[i + 1] == b[i + 1]);
                }
            }
        }
    }
}

/// The lexicographic order is transitive.
proof fn lemma_lex_trans(a: Seq<usize>, b: Seq<usize>, c: Seq<usize>)
    requires
        lex_less(a, b),
        lex_less(b, c),
    ensures
        lex_less(a, c),
    decreases a.len(),
{
    if a.len() > 0 && b.len() > 0 && c.len() > 0 && a[0] == b[0] && b[0] == c[0] {
        lemma_lex_trans(a.drop_first(), b.drop_first(), c.drop_first());
    }
}

/// Of two sequences, one comes first, or they are equal.
proof fn lemma_lex_total(a: Seq<usize>, b: Seq<usize>)
    ensures
        lex_less(a, b) || lex_less(b, a) || a == b,
    decreases a.len(),
{
    if a.len() == 0 && b.len() == 0 {
        assert(a =~= b);
    } else if a.len() > 0 && b.len() > 0 && a[0] == b[0] {
        lemma_lex_total(a.drop_first(), b.drop_first());
        if a.drop_first() == b.drop_first() {
            assert(a =~= seq![a[0]] + a.drop_first());
            assert(b =~= seq![b[0]] + b.drop_first());
        }
    }
}

/// No sequence comes before itself.
proof fn lemma_lex_irrefl(a: Seq<usize>)
    ensures
        !lex_less(a, a),
    decreases a.len(),
{
    if a.len() > 0 {
        lemma_lex_irrefl(a.drop_first());
    }
}

/// The priorities of rule `j`.
pub open spec fn prio(rs: Seq<RuleEval<Vec<usize>>>, j: int) -> Seq<usize> {
    rs[j].output->Some_0@
}

/// Rule `j` matched with its outputs evaluated.
pub open spec fn hit(rs: Seq<RuleEval<Vec<usize>>>, j: int) -> bool {
    rs[j].matched == Some(true) && rs[j].output is Some
}

/// What `priority_from` keeps from position `i` on, where the rule kept so
/// far has priorities least among the matches before `i`, and strictly less
/// than those of the matches before it.
proof fn lemma_priority_inv(rs: Seq<RuleEval<Vec<usize>>>, i: int, found: Option<int>)
    requires
        0 <= i <= rs.len(),
        found matches Some(k) ==> (0 <= k < i && hit(rs, k) && (forall|j: int|
            0 <= j < k && hit(rs, j) ==> lex_less(prio(rs, k), prio(rs, j))) && forall|j: int|
            k < j < i && hit(rs, j) ==> !lex_less(prio(rs, j), prio(rs, k))),
        found is None ==> forall|j: int| 0 <= j < i ==> !hit(rs, j),
        forall|j: int| 0 <= j < i ==> rs[j].matched is Some,
        forall|j: int| 0 <= j < i && rs[j].matched == Some(true) ==> rs[j].output is Some,
    ensures
        priority_from(rs, i, found) matches Ok(Some(k)) ==> (0 <= k < rs.len() && hit(rs, k) && (
        forall|j: int| 0 <= j < k && hit(rs, j) ==> lex_less(prio(rs, k), prio(rs, j)))
            && forall|j: int| k < j < rs.len() && hit(rs, j) ==> !lex_less(prio(rs, j), prio(rs, k))),
        priority_from(rs, i, found) matches Ok(None) ==> forall|j: int|
            0 <= j < rs.len() ==> !hit(rs, j),
    decreases rs.len() - i,
{
    if i < rs.len() {
        match rs[i].matched {
            None => {},
            Some(false) => {
                lemma_priority_inv(rs, i + 1, found);
            },
            Some(true) => match rs[i].output {
                None => {},
                Some(p) => match found {
                    None => {
                        lemma_priority_inv(rs, i + 1, Some(i));
                    },
                    Some(k) => {
                        if lex_less(p@, prio(rs, k)) {
                            assert forall|j: int| 0 <= j < i && hit(rs, j) implies lex_less(
                                prio(rs, i),
                                prio(rs, j),
                            ) by {
                                if j < k {
                                    lemma_lex_trans(prio(rs, i), prio(rs, k), prio(rs, j));
                                } else if j > k {
                                    lemma_lex_total(prio(rs, j), prio(rs, k));
                                    if lex_less(prio(rs, k), prio(rs, j)) {
                                        lemma_lex_trans(prio(rs, i), prio(rs, k), prio(rs, j));
                                    }
                                }
                            }
                            lemma_priority_inv(rs, i + 1, Some(i));
                        } else {
                            lemma_priority_inv(rs, i + 1, found);
                        }
                    },
                },
            },
        }
    }
}

/// `PRIORITY` selects the matching rule whose priorities come first in
/// lexicographic order: no matching rule's priorities come before the
/// selected rule's, and every matching rule before it has priorities that
/// come after (so of equal ones the first is kept).  Where no rule matches
/// there is no result.
pub proof fn law_priority_selects_least(rs: Seq<RuleEval<Vec<usize>>>)
    ensures
        priority_from(rs, 0, None) matches Ok(Some(k)) ==> (0 <= k < rs.len() && hit(rs, k) && (
        forall|j: int| 0 <= j < rs.len() && hit(rs, j) ==> !lex_before(prio(rs, j), prio(rs, k)))
            && forall|j: int| 0 <= j < k && hit(rs, j) ==> lex_before(prio(rs, k), prio(rs, j))),
        priority_from(rs, 0, None) matches Ok(None) ==> forall|j: int|
            0 <= j < rs.len() ==> !hit(rs, j),
{
    lemma_priority_inv(rs, 0, None);
    if let Ok(Some(k)) = priority_from(rs, 0, None) {
        assert forall|j: int| 0 <= j < rs.len() && hit(rs, j) implies !lex_before(
            prio(rs, j),
            prio(rs, k),
        ) by {
            lemma_lex_less_is_lex_before(prio(rs, j), prio(rs, k));
            if j < k && lex_less(prio(rs, j), prio(rs, k)) {
                lemma_lex_trans(prio(rs, k), prio(rs, j), prio(rs, k));
                lemma_lex_irrefl(prio(rs, k));
            } else if j == k {
                lemma_lex_irrefl(prio(rs, k));
            }
        }
        assert forall|j: int| 0 <= j < k && hit(rs, j) implies lex_before(prio(rs, k), prio(rs, j)) by {
            lemma_lex_less_is_lex_before(prio(rs, k), prio(rs, j));
        }
    }
}

/// `PRIORITY`: the index of the rule whose outputs make the result; each
/// rule's output here is the list of its priorities.
pub fn hit_priority(rs: &Vec<RuleEval<Vec<usize>>>) -> (r: Result<Option<usize>, HitFailure>)
    ensures
        hit_is(r, priority_from(rs@, 0, None), |a: Option<usize>, b: Option<int>| same_index(a, b)),
{
    let mut found: Option<usize> = None;
    let mut i: usize = 0;
    while i < rs.len()
        invariant
            i <= rs.len(),
            found matches Some(k) ==> k < i && rs@[k as int].output is Some,
            priority_from(rs@, 0, None) == priority_from(
                rs@,
                i as int,
                match found {
                    Some(k) => Some(k as int),
                    None => None,
                },
            ),
        decreases rs.len() - i,
    {
        match rs[i].matched {
            None => {
                return Err(HitFailure::MatchFailed(i));
            },
            Some(false) => {},
            Some(true) => {
                match &rs[i].output {
                    None => {
                        return Err(HitFailure::OutputFailed(i));
                    },
                    Some(p) => {
                        match found {
                            None => {
                                found = Some(i);
                            },
                            Some(k) => {
                                let better = match &rs[k].output {
                                    Some(q) => vec_less(p, q),
                                    None => false,
                                };
                                if better {
                                    found = Some(i);
                                }
                            },
                        }
                    },
                }
            },
        }
        i = i + 1;
    }
    Ok(found)
}

/// The message for a hit policy that is not supported.
pub fn unsupported_policy(policy: &str) -> (m: String)
    ensures
        m@ == "unsupported hit policy `"@ + policy@ + "`"@,
{
    let mut m = String::new();
    push_str(&mut m, "unsupported hit policy `");
    push_str(&mut m, policy);
    push_str(&mut m, "`");
    m
}

} // verus!
