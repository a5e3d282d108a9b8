//! The variable scopes of the FEEL evaluation engine: a stack of frames,
//! each binding names to values, looked up from the innermost frame out.
use crate::text::str_eq;
use vstd::prelude::*;

verus! {

/// A frame of variables: each name is bound at most once.
pub struct ScopeFrame<V> {
    pub vars: Vec<(String, V)>,
}

/// The scopes of an evaluation, innermost last.
pub struct Engine<V> {
    pub scopes: Vec<ScopeFrame<V>>,
}

/// `i` is where `name` is bound in `vars`.
pub open spec fn bound_at<V>(vars: Seq<(String, V)>, name: Seq<char>, i: int) -> bool {
    0 <= i < vars.len() && vars[i].0@ == name
}

/// The value `name` has in a frame, if it is bound there.
pub open spec fn frame_get<V>(vars: Seq<(String, V)>, name: Seq<char>) -> Option<V> {
    if exists|i: int| bound_at(vars, name, i) {
        Some(vars[choose|i: int| bound_at(vars, name, i)].1)
    } else {
        None
    }
}

/// No name is bound twice in a frame.
pub open spec fn frame_wf<V>(vars: Seq<(String, V)>) -> bool {
    forall|i: int, j: int| 0 <= i < j < vars.len() ==> (#[trigger] vars[i]).0@ != (#[trigger] vars[j]).0@
}

/// The value of `name` in the innermost frame that binds it.
pub open spec fn lookup<V>(scopes: Seq<ScopeFrame<V>>, name: Seq<char>) -> Option<V>
    decreases scopes.len(),
{
    if scopes.len() == 0 {
        None
    } else {
        match frame_get(scopes.last().vars@, name) {
            Some(v) => Some(v),
            None => lookup(scopes.drop_last(), name),
        }
    }
}

/// The innermost frame that binds `name`, if any.
pub open spec fn holder<V>(scopes: Seq<ScopeFrame<V>>, name: Seq<char>) -> Option<int>
    decreases scopes.len(),
{
    if scopes.len() == 0 {
        None
    } else if frame_get(scopes.last().vars@, name) is Some {
        Some(scopes.len() - 1)
    } else {
        holder(scopes.drop_last(), name)
    }
}

/// The frame that `set_var` writes `name` to: the innermost that binds it,
/// or else the innermost.
pub open spec fn set_target<V>(scopes: Seq<ScopeFrame<V>>, name: Seq<char>) -> int {
    match holder(scopes, name) {
        Some(k) => k,
        None => scopes.len() - 1,
    }
}

/// `b` is `a` with frame `t` binding `name` to `value` and all else as it
/// was.
pub open spec fn written<V>(
    a: Seq<ScopeFrame<V>>,
    b: Seq<ScopeFrame<V>>,
    t: int,
    name: Seq<char>,
    value: V,
) -> bool {
    &&& b.len() == a.len()
    &&& forall|k: int| 0 <= k < a.len() && k != t ==> b[k] == a[k]
    &&& forall|n: Seq<char>|
        #[trigger] frame_get(b[t].vars@, n) == if n == name {
            Some(value)
        } else {
            frame_get(a[t].vars@, n)
        }
    &&& frame_wf(b[t].vars@)
}

/// In a frame without duplicates, the value at a binding position is the
/// frame's value of that name.
proof fn lemma_frame_get_at<V>(vars: Seq<(String, V)>, i: int)
    requires
        frame_wf(vars),
        0 <= i < vars.len(),
    ensures
        frame_get(vars, vars[i].0@) == Some(vars[i].1),
{
    let name = vars[i].0@;
    assert(bound_at(vars, name, i));
    let j = choose|j: int| bound_at(vars, name, j);
    if j != i {
        if j < i {
            assert(vars[j].0@ != vars[i].0@);
        } else {
            assert(vars[i].0@ != vars[j].0@);
        }
    }
}

/// Lookups agree on stacks whose frames agree on `n`.
proof fn lemma_lookup_same<V>(a: Seq<ScopeFrame<V>>, b: Seq<ScopeFrame<V>>, n: Seq<char>)
    requires
        a.len() == b.len(),
        forall|k: int| 0 <= k < a.len() ==> frame_get(a[k].vars@, n) == frame_get(b[k].vars@, n),
    ensures
        lookup(a, n) == lookup(b, n),
    decreases a.len(),
{
    if a.len() > 0 {
        lemma_lookup_same(a.drop_last(), b.drop_last(), n);
    }
}

/// The lookup of `name` is its value in its holder.
proof fn lemma_lookup_holder<V>(a: Seq<ScopeFrame<V>>, name: Seq<char>)
    ensures
        match holder(a, name) {
            Some(k) => 0 <= k < a.len() && lookup(a, name) == frame_get(a[k].vars@, name) && frame_get(
                a[k].vars@,
                name,
            ) is Some && forall|j: int| k < j < a.len() ==> frame_get(a[j].vars@, name) is None,
            None => lookup(a, name) is None && forall|j: int|
                0 <= j < a.len() ==> frame_get(a[j].vars@, name) is None,
        },
    decreases a.len(),
{
    if a.len() > 0 {
        let d = a.drop_last();
        lemma_lookup_holder(d, name);
        assert forall|j: int| 0 <= j < d.len() implies d[j] == a[j] by {}
        if frame_get(a.last().vars@, name) is None {
            assert(a.last() == a[a.len() - 1]);
        }
    }
}

/// Where `name` is bound in `vars`, if it is.
fn find_var<V>(vars: &Vec<(String, V)>, name: &str) -> (r: Option<usize>)
    ensures
        match r {
            Some(i) => bound_at(vars@, name@, i as int),
            None => forall|i: int| 0 <= i < vars@.len() ==> !bound_at(vars@, name@, i),
        },
{
    let mut i: usize = 0;
    while i < vars.len()
        invariant
            i <= vars@.len(),
            forall|j: int| 0 <= j < i ==> !bound_at(vars@, name@, j),
        decreases vars.len() - i,
    {
        if str_eq(vars[i].0.as_str(), name) {
            return Some(i);
        }
        i = i + 1;
    }
    None
}

/// Binds `name` to `value` in a frame, in place of its old value.
fn frame_put<V>(vars: &mut Vec<(String, V)>, name: String, value: V)
    requires
        frame_wf(old(vars)@),
    ensures
        frame_wf(final(vars)@),
        forall|n: Seq<char>|
            #[trigger] frame_get(final(vars)@, n) == if n == name@ {
                Some(value)
            } else {
                frame_get(old(vars)@, n)
            },
{
    let ghost a = vars@;
    let ghost key = name@;
    match find_var(vars, name.as_str()) {
        Some(i) => {
            vars.remove(i);
            vars.insert(i, (name, value));
            assert(vars@ =~= a.update(i as int, vars@[i as int]));
            assert forall|p: int, q: int| 0 <= p < q < vars@.len() implies (#[trigger] vars@[p]).0@
                != (#[trigger] vars@[q]).0@ by {
                if p == i as int {
                    assert(a[q].0@ != a[i as int].0@);
                } else if q == i as int {
                    assert(a[p].0@ != a[i as int].0@);
                } else {
                    assert(a[p].0@ != a[q].0@);
                }
            }
            assert forall|n: Seq<char>| #[trigger]
                frame_get(vars@, n) == if n == key {
                    Some(value)
                } else {
                    frame_get(a, n)
                } by {
                lemma_frame_get_at(vars@, i as int);
                if n != key {
                    if exists|j: int| bound_at(a, n, j) {
                        let j = choose|j: int| bound_at(a, n, j);
                        lemma_frame_get_at(a, j);
                        lemma_frame_get_at(vars@, j);
                    }
                    if exists|j: int| bound_at(vars@, n, j) {
                        let j = choose|j: int| bound_at(vars@, n, j);
                        assert(bound_at(a, n, j));
                    }
                }
            }
        },
        None => {
            vars.push((name, value));
            assert forall|p: int, q: int| 0 <= p < q < vars@.len() implies (#[trigger] vars@[p]).0@
                != (#[trigger] vars@[q]).0@ by {
                if q == a.len() {
                    assert(!bound_at(a, key, p));
                } else {
                    assert(a[p].0@ != a[q].0@);
                }
            }
            assert forall|n: Seq<char>| #[trigger]
                frame_get(vars@, n) == if n == key {
                    Some(value)
                } else {
                    frame_get(a, n)
                } by {
                lemma_frame_get_at(vars@, a.len() as int);
                if n != key {
                    if exists|j: int| bound_at(a, n, j) {
                        let j = choose|j: int| bound_at(a, n, j);
                        assert(bound_at(vars@, n, j));
                        lemma_frame_get_at(a, j);
                        lemma_frame_get_at(vars@, j);
                    }
                    if exists|j: int| bound_at(vars@, n, j) {
                        let j = choose|j: int| bound_at(vars@, n, j);
                        assert(bound_at(a, n, j));
                    }
                }
            }
        },
    }
}


/// A value bound in frame `t`, with no frame inside it binding the name, is
/// what the name resolves to.
proof fn lemma_lookup_top<V>(b: Seq<ScopeFrame<V>>, t: int, name: Seq<char>, value: V)
    requires
        0 <= t < b.len(),
        frame_get(b[t].vars@, name) == Some(value),
        forall|j: int| t < j < b.len() ==> frame_get(#[trigger] b[j].vars@, name) is None,
    ensures
        lookup(b, name) == Some(value),
    decreases b.len(),
{
    if b.len() - 1 > t {
        lemma_lookup_top(b.drop_last(), t, name, value);
    }
}

/// After frame `t` of `a` was written, with no frame inside `t` binding the
/// name, the name resolves to the value written and every other name as
/// before.
proof fn lemma_written_lookup<V>(
    a: Seq<ScopeFrame<V>>,
    b: Seq<ScopeFrame<V>>,
    t: int,
    name: Seq<char>,
    value: V,
)
    requires
        0 <= t < a.len(),
        written(a, b, t, name, value),
        forall|j: int| t < j < a.len() ==> frame_get(#[trigger] a[j].vars@, name) is None,
    ensures
        lookup(b, name) == Some(value),
        forall|n: Seq<char>| n != name ==> #[trigger] lookup(b, n) == lookup(a, n),
{
    assert(frame_get(b[t].vars@, name) == Some(value));
    assert forall|j: int| t < j < b.len() implies frame_get(#[trigger] b[j].vars@, name) is None by {
        assert(b[j] == a[j]);
    }
    lemma_lookup_top(b, t, name, value);
    assert forall|n: Seq<char>| n != name implies #[trigger] lookup(b, n) == lookup(a, n) by {
        assert forall|k: int| 0 <= k < a.len() implies frame_get(a[k].vars@, n) == frame_get(
            b[k].vars@,
            n,
        ) by {
            if k != t {
                assert(b[k] == a[k]);
            } else {
                assert(frame_get(b[t].vars@, n) == frame_get(a[t].vars@, n));
            }
        }
        lemma_lookup_same(a, b, n);
    }
}

/// A stack of one empty frame resolves no name.
proof fn lemma_fresh_lookup<V>(a: Seq<ScopeFrame<V>>, n: Seq<char>)
    requires
        a.len() == 1,
        a[0].vars@.len() == 0,
    ensures
        lookup(a, n) is None,
{
    assert(a.drop_last() =~= Seq::<ScopeFrame<V>>::empty());
    assert(a.last() == a[0]);
    assert(!exists|i: int| bound_at(a.last().vars@, n, i));
    assert(frame_get(a.last().vars@, n) is None);
    assert(lookup(a.drop_last(), n) is None);
}

impl<V> Engine<V> {
    /// Every frame binds each name at most once.
    pub open spec fn wf(&self) -> bool {
        forall|k: int| 0 <= k < self.scopes@.len() ==> frame_wf(#[trigger] self.scopes@[k].vars@)
    }

    /// An engine with one empty frame, for the built-in names.
    pub fn new() -> (r: Engine<V>)
        ensures
            r.wf(),
            r.scopes@.len() == 1,
            r.scopes@[0].vars@.len() == 0,
    {
        let mut scopes: Vec<ScopeFrame<V>> = Vec::new();
        scopes.push(ScopeFrame { vars: Vec::new() });
        Engine { scopes }
    }

    /// Opens a new innermost frame.
    pub fn push_frame(&mut self)
        requires
            old(self).wf(),
        ensures
            final(self).wf(),
            final(self).scopes@.len() == old(self).scopes@.len() + 1,
            final(self).scopes@.drop_last() == old(self).scopes@,
            final(self).scopes@.last().vars@.len() == 0,
    {
        self.scopes.push(ScopeFrame { vars: Vec::new() });
        assert(self.scopes@.drop_last() =~= old(self).scopes@);
    }

    /// Closes the innermost frame, if there is one.
    pub fn pop_frame(&mut self)
        requires
            old(self).wf(),
        ensures
            final(self).wf(),
            old(self).scopes@.len() > 0 ==> final(self).scopes@ == old(self).scopes@.drop_last(),
            old(self).scopes@.len() == 0 ==> final(self).scopes@.len() == 0,
    {
        if self.scopes.len() > 0 {
            self.scopes.pop();
        }
    }

    /// The value of `name` in the innermost frame that binds it.
    pub fn resolve(&self, name: &str) -> (r: Option<&V>)
        requires
            self.wf(),
        ensures
            match lookup(self.scopes@, name@) {
                Some(v) => r matches Some(x) && *x == v,
                None => r is None,
            },
    {
        let mut k: usize = self.scopes.len();
        assert(self.scopes@.take(k as int) =~= self.scopes@);
        while k > 0
            invariant
                self.wf(),
                k <= self.scopes@.len(),
                lookup(self.scopes@, name@) == lookup(self.scopes@.take(k as int), name@),
            decreases k,
        {
            let ghost t = self.scopes@.take(k as int);
            assert(t.drop_last() =~= self.scopes@.take(k - 1));
            match find_var(&self.scopes[k - 1].vars, name) {
                Some(i) => {
                    assert(bound_at(t.last().vars@, name@, i as int));
                    proof {
                        assert(t.last() == self.scopes@[k - 1]);
                        assert(frame_wf(self.scopes@[k - 1].vars@));
                        lemma_frame_get_at(t.last().vars@, i as int);
                    }
                    return Some(&self.scopes[k - 1].vars[i].1);
                },
                None => {
                    assert(frame_get(t.last().vars@, name@) is None);
                },
            }
            k = k - 1;
        }
        None
    }

    /// Whether some frame binds `name`.
    pub fn has_name(&self, name: &str) -> (r: bool)
        requires
            self.wf(),
        ensures
            r == lookup(self.scopes@, name@) is Some,
    {
        match self.resolve(name) {
            Some(_) => true,
            None => false,
        }
    }

    /// Binds `name` to `value` in the innermost frame (opening one where
    /// there is none); afterwards `name` resolves to `value` and every
    /// other name as before.
    pub fn bind_var(&mut self, name: String, value: V)
        requires
            old(self).wf(),
        ensures
            final(self).wf(),
            old(self).scopes@.len() > 0 ==> written(
                old(self).scopes@,
                final(self).scopes@,
                old(self).scopes@.len() - 1,
                name@,
                value,
            ),
            old(self).scopes@.len() == 0 ==> final(self).scopes@.len() == 1 && forall|n: Seq<char>|
                #[trigger] frame_get(final(self).scopes@[0].vars@, n) == if n == name@ {
                    Some(value)
                } else {
                    None
                },
            lookup(final(self).scopes@, name@) == Some(value),
            forall|n: Seq<char>|
                n != name@ ==> #[trigger] lookup(final(self).scopes@, n) == lookup(old(self).scopes@, n),
    {
        if self.scopes.len() == 0 {
            self.scopes.push(ScopeFrame { vars: Vec::new() });
        }
        let ghost a = self.scopes@;
        assert(old(self).scopes@.len() > 0 ==> a == old(self).scopes@);
        let t = self.scopes.len() - 1;
        let ghost key = name@;
        self.put_at(t, name, value);
        proof {
            lemma_written_lookup(a, self.scopes@, t as int, key, value);
            if old(self).scopes@.len() == 0 {
                assert(!exists|i: int| bound_at(a[0].vars@, key, i));
            }
            assert forall|n: Seq<char>| n != key implies #[trigger] lookup(self.scopes@, n) == lookup(
                old(self).scopes@,
                n,
            ) by {
                if old(self).scopes@.len() == 0 {
                    lemma_fresh_lookup(a, n);
                }
            }
        }
    }

    /// Sets `name` to `value` in the innermost frame that binds it, or else
    /// binds it in the innermost frame; afterwards `name` resolves to
    /// `value` and every other name as before.
    pub fn set_var(&mut self, name: String, value: V)
        requires
            old(self).wf(),
        ensures
            final(self).wf(),
            old(self).scopes@.len() > 0 ==> written(
                old(self).scopes@,
                final(self).scopes@,
                set_target(old(self).scopes@, name@),
                name@,
                value,
            ),
            old(self).scopes@.len() == 0 ==> final(self).scopes@.len() == 1 && forall|n: Seq<char>|
                #[trigger] frame_get(final(self).scopes@[0].vars@, n) == if n == name@ {
                    Some(value)
                } else {
                    None
                },
            lookup(final(self).scopes@, name@) == Some(value),
            forall|n: Seq<char>|
                n != name@ ==> #[trigger] lookup(final(self).scopes@, n) == lookup(old(self).scopes@, n),
    {
        if self.scopes.len() == 0 {
            self.scopes.push(ScopeFrame { vars: Vec::new() });
        }
        let ghost a = self.scopes@;
        assert(old(self).scopes@.len() > 0 ==> a == old(self).scopes@);
        let target = self.target_of(name.as_str());
        let ghost key = name@;
        proof {
            lemma_lookup_holder(a, key);
        }
        self.put_at(target, name, value);
        proof {
            lemma_written_lookup(a, self.scopes@, target as int, key, value);
            if old(self).scopes@.len() == 0 {
                assert(!exists|i: int| bound_at(a[0].vars@, key, i));
            }
            assert forall|n: Seq<char>| n != key implies #[trigger] lookup(self.scopes@, n) == lookup(
                old(self).scopes@,
                n,
            ) by {
                if old(self).scopes@.len() == 0 {
                    lemma_fresh_lookup(a, n);
                }
            }
        }
    }

    /// The frame `set_var` writes `name` to.
    fn target_of(&self, name: &str) -> (r: usize)
        requires
            self.scopes@.len() > 0,
        ensures
            r as int == set_target(self.scopes@, name@),
    {
        let ghost a = self.scopes@;
        let mut k: usize = self.scopes.len();
        assert(a.take(k as int) =~= a);
        while k > 0
            invariant
                a == self.scopes@,
                k <= a.len(),
                holder(a, name@) == holder(a.take(k as int), name@),
            decreases k,
        {
            let ghost t = a.take(k as int);
            assert(t.drop_last() =~= a.take(k - 1));
            assert(t.last() == a[k - 1]);
            match find_var(&self.scopes[k - 1].vars, name) {
                Some(i) => {
                    assert(bound_at(t.last().vars@, name@, i as int));
                    return k - 1;
                },
                None => {
                    assert(frame_get(t.last().vars@, name@) is None);
                },
            }
            k = k - 1;
        }
        assert(a.take(0) =~= Seq::<ScopeFrame<V>>::empty());
        self.scopes.len() - 1
    }

    /// Binds `name` to `value` in frame `t`.
    fn put_at(&mut self, t: usize, name: String, value: V)
        requires
            old(self).wf(),
            t < old(self).scopes@.len(),
        ensures
            final(self).wf(),
            written(old(self).scopes@, final(self).scopes@, t as int, name@, value),
    {
        let ghost a = self.scopes@;
        let ghost key = name@;
        let mut frame = self.scopes.remove(t);
        assert(frame_wf(a[t as int].vars@));
        frame_put(&mut frame.vars, name, value);
        self.scopes.insert(t, frame);
        assert(self.scopes@ =~= a.update(t as int, self.scopes@[t as int]));
        assert forall|k: int| 0 <= k < self.scopes@.len() implies frame_wf(
            #[trigger] self.scopes@[k].vars@,
        ) by {
            if k != t {
                assert(self.scopes@[k] == a[k]);
            }
        }
    }

}

} // verus!
