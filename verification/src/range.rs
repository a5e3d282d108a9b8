//! Ranges of FEEL values with open or closed ends, and how points and other
//! ranges stand to them.
use crate::script::eval::order_strs;
use crate::script::semantics::str_order;
use crate::script::value::{num_order, num_wf, order_num, Num};
use crate::text::push_str;
use crate::values::TypeError;
use vstd::prelude::*;
use vstd::std_specs::cmp::{PartialEqSpec, PartialOrdIs, PartialOrdSpec};

verus! {

/// A range from `start` to `end`; an open end leaves its bound out.
#[derive(Debug)]
pub struct RangeT<V> {
    pub start_open: bool,
    pub start: V,
    pub end_open: bool,
    pub end: V,
}

/// Whether `<` and `==` on `V` follow the specifications that vstd gives
/// them.
pub open spec fn ordered<V: PartialOrd>() -> bool {
    V::obeys_partial_cmp_spec() && V::obeys_eq_spec()
}

/// `-1` where `a < b`, `0` where `a == b`, `1` otherwise.
pub open spec fn order_of<V: PartialOrd>(a: V, b: V) -> int {
    if a.is_lt(&b) {
        -1
    } else if a.eq_spec(&b) {
        0
    } else {
        1
    }
}

/// Where `p` stands: `-1` before the range, `0` in it, `1` after it.
pub open spec fn position_spec<V: PartialOrd>(r: RangeT<V>, p: V) -> int {
    let cs = order_of(p, r.start);
    if r.start_open && cs <= 0 {
        -1
    } else if !r.start_open && cs <= 0 {
        cs
    } else {
        let ce = order_of(p, r.end);
        if r.end_open && ce >= 0 {
            1
        } else if !r.end_open && ce > 0 {
            1
        } else {
            0
        }
    }
}

/// Whether range `a` holds all of range `b`.
pub open spec fn includes_spec<V: PartialOrd>(a: RangeT<V>, b: RangeT<V>) -> bool {
    let cs = order_of(a.start, b.start);
    let ce = order_of(a.end, b.end);
    &&& !(cs > 0 || ce < 0)
    &&& (cs < 0 || !a.start_open || b.start_open)
    &&& (ce > 0 || !a.end_open || b.end_open)
}

fn compare<V: PartialOrd>(a: &V, b: &V) -> (r: i32)
    ensures
        ordered::<V>() ==> r == order_of(*a, *b),
        -1 <= r <= 1,
{
    if *a < *b {
        -1
    } else if *a == *b {
        0
    } else {
        1
    }
}

impl<V: PartialOrd> RangeT<V> {
    /// Where `p` stands: `-1` before the range, `0` in it, `1` after it.
    pub fn position(&self, p: &V) -> (r: i32)
        ensures
            ordered::<V>() ==> r == position_spec(*self, *p),
            -1 <= r <= 1,
    {
        let cmp_start = compare(p, &self.start);
        if self.start_open {
            if cmp_start <= 0 {
                return -1;
            }
        } else {
            if cmp_start <= 0 {
                return cmp_start;
            }
        }
        let cmp_end = compare(p, &self.end);
        if self.end_open && cmp_end >= 0 {
            1
        } else if !self.end_open && cmp_end > 0 {
            1
        } else {
            0
        }
    }

    pub fn contains(&self, n: &V) -> (r: bool)
        ensures
            ordered::<V>() ==> r == (position_spec(*self, *n) == 0),
    {
        self.position(n) == 0
    }

    /// Whether the range lies before the point `p`.
    pub fn before_point(&self, p: &V) -> (r: bool)
        ensures
            ordered::<V>() ==> r == (position_spec(*self, *p) > 0),
    {
        self.position(p) > 0
    }

    /// Whether the range lies after the point `p`.
    pub fn after_point(&self, p: &V) -> (r: bool)
        ensures
            ordered::<V>() ==> r == (position_spec(*self, *p) < 0),
    {
        self.position(p) < 0
    }

    /// Whether the range ends before `other` starts; two ranges that share a
    /// closed bound meet, and one is not before the other.
    pub fn before(&self, other: &RangeT<V>) -> (r: bool)
        ensures
            ordered::<V>() ==> r == if !self.end_open && !other.start_open {
                order_of(self.end, other.start) < 0
            } else {
                order_of(self.end, other.start) <= 0
            },
    {
        let r = compare(&self.end, &other.start);
        if !self.end_open && !other.start_open {
            r < 0
        } else {
            r <= 0
        }
    }

    /// Whether the range starts after `other` ends.
    pub fn after(&self, other: &RangeT<V>) -> (r: bool)
        ensures
            ordered::<V>() ==> r == if !self.start_open && !other.end_open {
                order_of(self.start, other.end) > 0
            } else {
                order_of(self.start, other.end) >= 0
            },
    {
        let r = compare(&self.start, &other.end);
        if !self.start_open && !other.end_open {
            r > 0
        } else {
            r >= 0
        }
    }

    /// Whether the range holds all of `other`.
    pub fn includes(&self, other: &RangeT<V>) -> (r: bool)
        ensures
            ordered::<V>() ==> r == includes_spec(*self, *other),
    {
        let cmp_start = compare(&self.start, &other.start);
        let cmp_end = compare(&self.end, &other.end);
        if cmp_start > 0 || cmp_end < 0 {
            return false;
        }
        if !(cmp_start < 0 || !self.start_open || other.start_open) {
            return false;
        }
        if !(cmp_end > 0 || !self.end_open || other.end_open) {
            return false;
        }
        true
    }

    /// Whether the range's end lies in `other`, not on an open end of the
    /// range at `other`'s start.
    pub fn overlaps_before(&self, other: &RangeT<V>) -> (r: bool)
        ensures
            ordered::<V>() ==> r == (position_spec(*other, self.end) == 0 && !(self.end_open
                && order_of(self.end, other.start) == 0)),
    {
        let pos = other.position(&self.end);
        if pos != 0 {
            return false;
        }
        if self.end_open && compare(&self.end, &other.start) == 0 {
            return false;
        }
        true
    }

    /// Whether the range's start lies in `other`, not with an open end of
    /// the range on `other`'s end.
    pub fn overlaps_after(&self, other: &RangeT<V>) -> (r: bool)
        ensures
            ordered::<V>() ==> r == (position_spec(*other, self.start) == 0 && !(self.end_open
                && order_of(self.start, other.end) == 0)),
    {
        let pos = other.position(&self.start);
        if pos != 0 {
            return false;
        }
        if self.end_open && compare(&self.start, &other.end) == 0 {
            return false;
        }
        true
    }

    /// Whether the range ends, closed, where `other` starts, closed.
    pub fn meets(&self, other: &RangeT<V>) -> (r: bool)
        ensures
            ordered::<V>() ==> r == (order_of(self.end, other.start) == 0 && !self.end_open
                && !other.start_open),
    {
        let r = compare(&self.end, &other.start);
        r == 0 && !self.end_open && !other.start_open
    }

    /// Whether the range ends, closed, at `v`.
    pub fn finished_by(&self, v: &V) -> (r: bool)
        ensures
            ordered::<V>() ==> r == (order_of(self.end, *v) == 0 && !self.end_open),
    {
        if compare(&self.end, v) != 0 {
            false
        } else if self.end_open {
            false
        } else {
            true
        }
    }

    /// Whether the range ends where `other` ends, alike open or closed, and
    /// includes it.
    pub fn finished_by_range(&self, other: &RangeT<V>) -> (r: bool)
        ensures
            ordered::<V>() ==> r == (order_of(self.end, other.end) == 0 && self.end_open
                == other.end_open && includes_spec(*self, *other)),
    {
        if compare(&self.end, &other.end) != 0 {
            false
        } else if self.end_open != other.end_open {
            false
        } else if !self.includes(other) {
            false
        } else {
            true
        }
    }

    /// Whether the range starts, closed, at `v`.
    pub fn started_by(&self, v: &V) -> (r: bool)
        ensures
            ordered::<V>() ==> r == (order_of(self.start, *v) == 0 && !self.start_open),
    {
        if compare(&self.start, v) != 0 {
            false
        } else if self.start_open {
            false
        } else {
            true
        }
    }

    /// Whether the range starts where `other` starts, alike open or closed,
    /// and includes it.
    pub fn started_by_range(&self, other: &RangeT<V>) -> (r: bool)
        ensures
            ordered::<V>() ==> r == (order_of(self.start, other.start) == 0 && self.start_open
                == other.start_open && includes_spec(*self, *other)),
    {
        if compare(&self.start, &other.start) != 0 {
            false
        } else if self.start_open != other.start_open {
            false
        } else if !self.includes(other) {
            false
        } else {
            true
        }
    }
}

impl<V> RangeT<V> {
    /// The printed form of the range, given the printed forms of its bounds:
    /// `[` (or `(` where open), the start, `..`, the end, `]` (or `)`).
    pub fn to_string_with(&self, start: &str, end: &str) -> (r: String)
        ensures
            r@ == (if self.start_open {
                "("@
            } else {
                "["@
            }) + start@ + ".."@ + end@ + (if self.end_open {
                ")"@
            } else {
                "]"@
            }),
    {
        let mut r = String::new();
        if self.start_open {
            push_str(&mut r, "(");
        } else {
            push_str(&mut r, "[");
        }
        push_str(&mut r, start);
        push_str(&mut r, "..");
        push_str(&mut r, end);
        if self.end_open {
            push_str(&mut r, ")");
        } else {
            push_str(&mut r, "]");
        }
        r
    }
}

/// Where a point stands to a range, from how it compares with the start
/// (`cs`) and with the end (`ce`): `-1` before, `0` in, `1` after.
pub open spec fn position_from(start_open: bool, end_open: bool, cs: int, ce: int) -> int {
    if start_open && cs <= 0 {
        -1
    } else if !start_open && cs <= 0 {
        cs
    } else if end_open && ce >= 0 {
        1
    } else if !end_open && ce > 0 {
        1
    } else {
        0
    }
}

fn position_with(start_open: bool, end_open: bool, cs: i8, ce: i8) -> (r: i32)
    requires
        -1 <= cs <= 1,
        -1 <= ce <= 1,
    ensures
        r == position_from(start_open, end_open, cs as int, ce as int),
{
    if start_open && cs <= 0 {
        -1
    } else if !start_open && cs <= 0 {
        cs as i32
    } else if end_open && ce >= 0 {
        1
    } else if !end_open && ce > 0 {
        1
    } else {
        0
    }
}

proof fn lemma_str_order_bounds(a: Seq<char>, b: Seq<char>)
    ensures
        -1 <= str_order(a, b) <= 1,
    decreases a.len(),
{
    if a.len() > 0 && b.len() > 0 {
        lemma_str_order_bounds(a.drop_first(), b.drop_first());
    }
}

impl RangeT<String> {
    /// Where the string `p` stands to a range of strings, strings ordered
    /// character by character as Rust orders them: `-1` before the range,
    /// `0` in it, `1` after it.
    pub fn position_str(&self, p: &str) -> (r: i32)
        ensures
            r == position_from(
                self.start_open,
                self.end_open,
                str_order(p@, self.start@),
                str_order(p@, self.end@),
            ),
    {
        let cs = order_strs(p, self.start.as_str());
        let ce = order_strs(p, self.end.as_str());
        proof {
            lemma_str_order_bounds(p@, self.start@);
            lemma_str_order_bounds(p@, self.end@);
        }
        position_with(self.start_open, self.end_open, cs, ce)
    }

    /// Whether the string `p` lies in the range.
    pub fn contains_str(&self, p: &str) -> (r: bool)
        ensures
            r == (position_from(
                self.start_open,
                self.end_open,
                str_order(p@, self.start@),
                str_order(p@, self.end@),
            ) == 0),
    {
        self.position_str(p) == 0
    }
}

impl RangeT<Num> {
    /// Where the number `p` stands to a range of numbers, numbers ordered
    /// by value: `-1` before the range, `0` in it, `1` after it.
    pub fn position_num(&self, p: Num) -> (r: i32)
        requires
            num_wf(p),
            num_wf(self.start),
            num_wf(self.end),
        ensures
            r == position_from(
                self.start_open,
                self.end_open,
                num_order(p, self.start),
                num_order(p, self.end),
            ),
    {
        let cs = order_num(p, self.start);
        let ce = order_num(p, self.end);
        position_with(self.start_open, self.end_open, cs, ce)
    }

    /// Whether the number `p` lies in the range.
    pub fn contains_num(&self, p: Num) -> (r: bool)
        requires
            num_wf(p),
            num_wf(self.start),
            num_wf(self.end),
        ensures
            r == (position_from(
                self.start_open,
                self.end_open,
                num_order(p, self.start),
                num_order(p, self.end),
            ) == 0),
    {
        self.position_num(p) == 0
    }
}

/// An argument of a built-in range function: a range, or a single point
/// with the name of its kind (as a message names it).
pub enum RangeArg<V> {
    Range(RangeT<V>),
    Point { value: V, kind: String },
}

/// The message of a range function given `kind` where it needs a range.
pub open spec fn not_a_range(hint: Seq<char>, kind: Seq<char>) -> Seq<char> {
    hint + ", expect range, but "@ + kind + " found"@
}

fn type_error(hint: &str, kind: &str) -> (e: TypeError)
    ensures
        e.0@ == not_a_range(hint@, kind@),
{
    let mut m = String::new();
    push_str(&mut m, hint);
    push_str(&mut m, ", expect range, but ");
    push_str(&mut m, kind);
    push_str(&mut m, " found");
    TypeError(m)
}

/// Whether the result of a range function that needs range arguments is
/// `ok` applied to them, or the error for the first that is not a range,
/// `a` before `b`.
pub open spec fn on_ranges<V>(
    r: Result<bool, TypeError>,
    a: RangeArg<V>,
    b: RangeArg<V>,
    ok: spec_fn(RangeT<V>, RangeT<V>) -> bool,
) -> bool {
    match (a, b) {
        (RangeArg::Range(x), RangeArg::Range(y)) => r == Ok::<bool, TypeError>(ok(x, y)),
        (RangeArg::Point { kind, .. }, _) => r matches Err(e) && e.0@ == not_a_range(
            "argument[1] `a`"@,
            kind@,
        ),
        (_, RangeArg::Point { kind, .. }) => r matches Err(e) && e.0@ == not_a_range(
            "argument[2] `b`"@,
            kind@,
        ),
    }
}

/// `before(a, b)`: a range before a range or a point, a point before a
/// range, or a point less than a point.
pub fn range_before<V: PartialOrd>(a: &RangeArg<V>, b: &RangeArg<V>) -> (r: bool)
    ensures
        ordered::<V>() ==> r == match (*a, *b) {
            (RangeArg::Range(x), RangeArg::Range(y)) => if !x.end_open && !y.start_open {
                order_of(x.end, y.start) < 0
            } else {
                order_of(x.end, y.start) <= 0
            },
            (RangeArg::Range(x), RangeArg::Point { value, .. }) => position_spec(x, value) > 0,
            (RangeArg::Point { value, .. }, RangeArg::Range(y)) => position_spec(y, value) < 0,
            (RangeArg::Point { value: p, .. }, RangeArg::Point { value: q, .. }) => p.is_lt(&q),
        },
{
    match a {
        RangeArg::Range(x) => match b {
            RangeArg::Range(y) => x.before(y),
            RangeArg::Point { value, .. } => x.before_point(value),
        },
        RangeArg::Point { value: p, .. } => match b {
            RangeArg::Range(y) => y.after_point(p),
            RangeArg::Point { value: q, .. } => *p < *q,
        },
    }
}

/// `after(a, b)`: a range after a range or a point, a point after a range,
/// or a point greater than a point.
pub fn range_after<V: PartialOrd>(a: &RangeArg<V>, b: &RangeArg<V>) -> (r: bool)
    ensures
        ordered::<V>() ==> r == match (*a, *b) {
            (RangeArg::Range(x), RangeArg::Range(y)) => if !x.start_open && !y.end_open {
                order_of(x.start, y.end) > 0
            } else {
                order_of(x.start, y.end) >= 0
            },
            (RangeArg::Range(x), RangeArg::Point { value, .. }) => position_spec(x, value) < 0,
            (RangeArg::Point { value, .. }, RangeArg::Range(y)) => position_spec(y, value) > 0,
            (RangeArg::Point { value: p, .. }, RangeArg::Point { value: q, .. }) => p.is_gt(&q),
        },
{
    match a {
        RangeArg::Range(x) => match b {
            RangeArg::Range(y) => x.after(y),
            RangeArg::Point { value, .. } => x.after_point(value),
        },
        RangeArg::Point { value: p, .. } => match b {
            RangeArg::Range(y) => y.before_point(p),
            RangeArg::Point { value: q, .. } => *p > *q,
        },
    }
}

fn two_ranges<'a, V>(a: &'a RangeArg<V>, b: &'a RangeArg<V>) -> (r: Result<
    (&'a RangeT<V>, &'a RangeT<V>),
    TypeError,
>)
    ensures
        match (*a, *b) {
            (RangeArg::Range(x), RangeArg::Range(y)) => r matches Ok(p) && *p.0 == x && *p.1 == y,
            (RangeArg::Point { kind, .. }, _) => r matches Err(e) && e.0@ == not_a_range(
                "argument[1] `a`"@,
                kind@,
            ),
            (_, RangeArg::Point { kind, .. }) => r matches Err(e) && e.0@ == not_a_range(
                "argument[2] `b`"@,
                kind@,
            ),
        },
{
    match a {
        RangeArg::Point { kind, .. } => Err(type_error("argument[1] `a`", kind.as_str())),
        RangeArg::Range(x) => match b {
            RangeArg::Point { kind, .. } => Err(type_error("argument[2] `b`", kind.as_str())),
            RangeArg::Range(y) => Ok((x, y)),
        },
    }
}

/// The spec of `meets`: the first range ends, closed, where the second
/// starts, closed.
pub open spec fn meets_spec<V: PartialOrd>(x: RangeT<V>, y: RangeT<V>) -> bool {
    order_of(x.end, y.start) == 0 && !x.end_open && !y.start_open
}

/// The spec of `overlaps before`.
pub open spec fn overlaps_before_spec<V: PartialOrd>(x: RangeT<V>, y: RangeT<V>) -> bool {
    position_spec(y, x.end) == 0 && !(x.end_open && order_of(x.end, y.start) == 0)
}

/// The spec of `overlaps after`.
pub open spec fn overlaps_after_spec<V: PartialOrd>(x: RangeT<V>, y: RangeT<V>) -> bool {
    position_spec(y, x.start) == 0 && !(x.end_open && order_of(x.start, y.end) == 0)
}

/// `meets(a, b)`: range `a` ends, closed, where range `b` starts, closed.
pub fn range_meets<V: PartialOrd>(a: &RangeArg<V>, b: &RangeArg<V>) -> (r: Result<bool, TypeError>)
    ensures
        ordered::<V>() ==> on_ranges(r, *a, *b, |x: RangeT<V>, y: RangeT<V>| meets_spec(x, y)),
{
    let (x, y) = two_ranges(a, b)?;
    Ok(x.meets(y))
}

/// `met by(a, b)`: range `b` meets range `a`.
pub fn range_met_by<V: PartialOrd>(a: &RangeArg<V>, b: &RangeArg<V>) -> (r: Result<bool, TypeError>)
    ensures
        ordered::<V>() ==> on_ranges(r, *a, *b, |x: RangeT<V>, y: RangeT<V>| meets_spec(y, x)),
{
    let (x, y) = two_ranges(a, b)?;
    Ok(y.meets(x))
}

/// `overlaps(a, b)`: range `a` overlaps range `b` before or after.
pub fn range_overlaps<V: PartialOrd>(a: &RangeArg<V>, b: &RangeArg<V>) -> (r: Result<
    bool,
    TypeError,
>)
    ensures
        ordered::<V>() ==> on_ranges(
            r,
            *a,
            *b,
            |x: RangeT<V>, y: RangeT<V>| overlaps_before_spec(x, y) || overlaps_after_spec(x, y),
        ),
{
    let (x, y) = two_ranges(a, b)?;
    Ok(x.overlaps_before(y) || x.overlaps_after(y))
}

/// `overlaps before(a, b)`: range `a` ends inside range `b`.
pub fn range_overlaps_before<V: PartialOrd>(a: &RangeArg<V>, b: &RangeArg<V>) -> (r: Result<
    bool,
    TypeError,
>)
    ensures
        ordered::<V>() ==> on_ranges(
            r,
            *a,
            *b,
            |x: RangeT<V>, y: RangeT<V>| overlaps_before_spec(x, y),
        ),
{
    let (x, y) = two_ranges(a, b)?;
    Ok(x.overlaps_before(y))
}

/// `overlaps after(a, b)`: range `a` starts inside range `b`.
pub fn range_overlaps_after<V: PartialOrd>(a: &RangeArg<V>, b: &RangeArg<V>) -> (r: Result<
    bool,
    TypeError,
>)
    ensures
        ordered::<V>() ==> on_ranges(
            r,
            *a,
            *b,
            |x: RangeT<V>, y: RangeT<V>| overlaps_after_spec(x, y),
        ),
{
    let (x, y) = two_ranges(a, b)?;
    Ok(x.overlaps_after(y))
}

/// `coincides(a, b)`: the two ranges are equal, bound for bound.
pub fn range_coincides<V: PartialOrd>(a: &RangeArg<V>, b: &RangeArg<V>) -> (r: Result<
    bool,
    TypeError,
>)
    ensures
        ordered::<V>() ==> on_ranges(
            r,
            *a,
            *b,
            |x: RangeT<V>, y: RangeT<V>|
                x.start_open == y.start_open && x.start.eq_spec(&y.start) && x.end_open
                    == y.end_open && x.end.eq_spec(&y.end),
        ),
{
    let (x, y) = two_ranges(a, b)?;
    Ok(x.start_open == y.start_open && x.start == y.start && x.end_open == y.end_open && x.end
        == y.end)
}

/// The spec of `started by` for a range: same start, alike open or closed,
/// and all of the other inside.
pub open spec fn started_by_range_spec<V: PartialOrd>(x: RangeT<V>, y: RangeT<V>) -> bool {
    order_of(x.start, y.start) == 0 && x.start_open == y.start_open && includes_spec(x, y)
}

/// The spec of `finished by` for a range: same end, alike open or closed,
/// and all of the other inside.
pub open spec fn finished_by_range_spec<V: PartialOrd>(x: RangeT<V>, y: RangeT<V>) -> bool {
    order_of(x.end, y.end) == 0 && x.end_open == y.end_open && includes_spec(x, y)
}

/// What a range function whose range is `rg` gives, given the other
/// argument `o`: `on_range` where it is a range, `on_point` where it is a
/// point; or the error naming `hint` where `rg` is not a range.
pub open spec fn with_range<V>(
    r: Result<bool, TypeError>,
    rg: RangeArg<V>,
    hint: Seq<char>,
    o: RangeArg<V>,
    on_range: spec_fn(RangeT<V>, RangeT<V>) -> bool,
    on_point: spec_fn(RangeT<V>, V) -> bool,
) -> bool {
    match rg {
        RangeArg::Point { kind, .. } => r matches Err(e) && e.0@ == not_a_range(hint, kind@),
        RangeArg::Range(x) => match o {
            RangeArg::Range(y) => r == Ok::<bool, TypeError>(on_range(x, y)),
            RangeArg::Point { value, .. } => r == Ok::<bool, TypeError>(on_point(x, value)),
        },
    }
}

fn one_range<'a, V>(x: &'a RangeArg<V>, hint: &str) -> (r: Result<&'a RangeT<V>, TypeError>)
    ensures
        match *x {
            RangeArg::Range(rg) => r matches Ok(p) && *p == rg,
            RangeArg::Point { kind, .. } => r matches Err(e) && e.0@ == not_a_range(hint@, kind@),
        },
{
    match x {
        RangeArg::Range(rg) => Ok(rg),
        RangeArg::Point { kind, .. } => Err(type_error(hint, kind.as_str())),
    }
}

/// `starts(a, b)`: range `b` starts with `a`, a range or a point.
pub fn range_starts<V: PartialOrd>(a: &RangeArg<V>, b: &RangeArg<V>) -> (r: Result<
    bool,
    TypeError,
>)
    ensures
        ordered::<V>() ==> with_range(
            r,
            *b,
            "argument[2] `b`"@,
            *a,
            |y: RangeT<V>, x: RangeT<V>| started_by_range_spec(y, x),
            |y: RangeT<V>, p: V| order_of(y.start, p) == 0 && !y.start_open,
        ),
{
    let y = one_range(b, "argument[2] `b`")?;
    match a {
        RangeArg::Range(x) => Ok(y.started_by_range(x)),
        RangeArg::Point { value, .. } => Ok(y.started_by(value)),
    }
}

/// `started by(a, b)`: range `a` starts with `b`, a range or a point.
pub fn range_started_by<V: PartialOrd>(a: &RangeArg<V>, b: &RangeArg<V>) -> (r: Result<
    bool,
    TypeError,
>)
    ensures
        ordered::<V>() ==> with_range(
            r,
            *a,
            "argument[1] `a`"@,
            *b,
            |x: RangeT<V>, y: RangeT<V>| started_by_range_spec(x, y),
            |x: RangeT<V>, p: V| order_of(x.start, p) == 0 && !x.start_open,
        ),
{
    let x = one_range(a, "argument[1] `a`")?;
    match b {
        RangeArg::Range(y) => Ok(x.started_by_range(y)),
        RangeArg::Point { value, .. } => Ok(x.started_by(value)),
    }
}

/// `finishes(a, b)`: range `b` ends with `a`, a range or a point.
pub fn range_finishes<V: PartialOrd>(a: &RangeArg<V>, b: &RangeArg<V>) -> (r: Result<
    bool,
    TypeError,
>)
    ensures
        ordered::<V>() ==> with_range(
            r,
            *b,
            "argument[2] `b`"@,
            *a,
            |y: RangeT<V>, x: RangeT<V>| finished_by_range_spec(y, x),
            |y: RangeT<V>, p: V| order_of(y.end, p) == 0 && !y.end_open,
        ),
{
    let y = one_range(b, "argument[2] `b`")?;
    match a {
        RangeArg::Range(x) => Ok(y.finished_by_range(x)),
        RangeArg::Point { value, .. } => Ok(y.finished_by(value)),
    }
}

/// `finished by(a, b)`: range `a` ends with `b`, a range or a point.
pub fn range_finished_by<V: PartialOrd>(a: &RangeArg<V>, b: &RangeArg<V>) -> (r: Result<
    bool,
    TypeError,
>)
    ensures
        ordered::<V>() ==> with_range(
            r,
            *a,
            "argument[1] `a`"@,
            *b,
            |x: RangeT<V>, y: RangeT<V>| finished_by_range_spec(x, y),
            |x: RangeT<V>, p: V| order_of(x.end, p) == 0 && !x.end_open,
        ),
{
    let x = one_range(a, "argument[1] `a`")?;
    match b {
        RangeArg::Range(y) => Ok(x.finished_by_range(y)),
        RangeArg::Point { value, .. } => Ok(x.finished_by(value)),
    }
}

/// `includes(a, b)`: range `a` holds `b`, a range or a point.
pub fn range_includes<V: PartialOrd>(a: &RangeArg<V>, b: &RangeArg<V>) -> (r: Result<
    bool,
    TypeError,
>)
    ensures
        ordered::<V>() ==> with_range(
            r,
            *a,
            "argument[1] `a`"@,
            *b,
            |x: RangeT<V>, y: RangeT<V>| includes_spec(x, y),
            |x: RangeT<V>, p: V| position_spec(x, p) == 0,
        ),
{
    let x = one_range(a, "argument[1] `a`")?;
    match b {
        RangeArg::Range(y) => Ok(x.includes(y)),
        RangeArg::Point { value, .. } => Ok(x.position(value) == 0),
    }
}

/// `during(a, b)`: `a`, a range or a point, lies in range `b`.  A `b` that
/// is not a range is reported under the hint of the first argument.
pub fn range_during<V: PartialOrd>(a: &RangeArg<V>, b: &RangeArg<V>) -> (r: Result<
    bool,
    TypeError,
>)
    ensures
        ordered::<V>() ==> with_range(
            r,
            *b,
            "argument[1] `a`"@,
            *a,
            |y: RangeT<V>, x: RangeT<V>| includes_spec(y, x),
            |y: RangeT<V>, p: V| position_spec(y, p) == 0,
        ),
{
    let y = one_range(b, "argument[1] `a`")?;
    match a {
        RangeArg::Range(x) => Ok(y.includes(x)),
        RangeArg::Point { value, .. } => Ok(y.position(value) == 0),
    }
}

/// Every range of integers includes itself.
pub proof fn lemma_includes_itself(r: RangeT<i64>)
    ensures
        includes_spec(r, r),
{
}

/// A point of a range of integers is in it exactly where it lies between
/// the bounds, each bound counting where it is closed.
pub proof fn lemma_position_in_bounds(r: RangeT<i64>, p: i64)
    ensures
        (position_spec(r, p) == 0) == ((if r.start_open {
            r.start < p
        } else {
            r.start <= p
        }) && (r.start == p && !r.start_open || (if r.end_open {
            p < r.end
        } else {
            p <= r.end
        }))),
{
}

} // verus!
