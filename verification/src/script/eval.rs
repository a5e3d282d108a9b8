//! The interpreter of FEEL scripts.  Each step computes the function of
//! `semantics.rs` of the same name, on the abstract values of its scopes and
//! of the tree.
use crate::script::ast::{node_view, FuncCallArg, MapNodeItem, Node, SNode};
use crate::script::parse::{err_view as parse_err_view, ParseError};
use crate::script::semantics::{
    add_values, binop_values, bind_args, call_rest, compare_values, datetime_diff, datetime_op,
    delta_value, ev, ev_args, ev_every,
    ev_for, ev_items, ev_list, ev_seq, ev_some, ev_tests, frame_get, frame_set, is_comparison,
    map_insert, mul_div_values, native_call, neg_num, number_result, order_holds, pop_env,
    prelude_get,
    resolve, runtime, set_var, str_order, sub_values, temporal_literal, temporal_value, Env,
    Frame, SEvalErr, SRes,
};
use crate::script::value::{
    add_num, div_num, entries_view, entries_wf, kind_name, lemma_entries_view, lemma_entries_wf,
    lemma_values_view, lemma_values_wf, lemma_values_wf_push, mul_num, num_wf, order_num, parse_num, sub_num,
    value_view, value_wf, values_view, values_wf, Num, SValue, Value,
};
use crate::temporal::{
    add_fits, chrono_delta_of, datetime_add, datetime_sub, offset_secs_exec, parse_temporal,
    timedelta_to_duration, ymd_fields_exec, temporal_body, temporal_of, DateTime, Date,
    Duration, Temporal,
};
use crate::text::{push_str, str_chars, str_eq, string_from_chars, utf8_len};
use vstd::prelude::*;

verus! {

/// An error of evaluation.  A decimal error is kept as its message.
#[derive(Debug)]
pub enum EvalError {
    VarNotFound,
    Runtime(String),
    Decimal(String),
    Parse(ParseError),
}

pub open spec fn eval_err_view(e: EvalError) -> SEvalErr {
    match e {
        EvalError::VarNotFound => SEvalErr::VarNotFound,
        EvalError::Runtime(m) => SEvalErr::Runtime(m@),
        EvalError::Decimal(m) => SEvalErr::Decimal(m@),
        EvalError::Parse(p) => SEvalErr::Parse(parse_err_view(p)),
    }
}

/// Whether `r` is the result `g`, as abstract values.
pub open spec fn result_is(r: Result<Value, EvalError>, g: SRes) -> bool {
    match g {
        Ok(v) => r is Ok && r->Ok_0@ == v && value_wf(v),
        Err(e) => r is Err && eval_err_view(r->Err_0) == e,
    }
}

impl EvalError {
    pub fn runtime(message: &str) -> (r: EvalError)
        ensures
            r matches EvalError::Runtime(m) && m@ == message@,
    {
        EvalError::Runtime(message.to_owned())
    }

    pub fn to_string(&self) -> (r: String)
        ensures
            r@ == match *self {
                EvalError::VarNotFound => "VarNotFound"@,
                EvalError::Runtime(m) => "RuntimeError: "@ + m@,
                EvalError::Decimal(m) => "DecimalError: "@ + m@,
                EvalError::Parse(ParseError::Parse(m)) => "ParseError: "@ + m@,
                EvalError::Parse(ParseError::Scan(x)) => "ScanError: "@ + x.message@,
            },
    {
        let mut r = String::new();
        match self {
            EvalError::VarNotFound => push_str(&mut r, "VarNotFound"),
            EvalError::Runtime(m) => {
                push_str(&mut r, "RuntimeError: ");
                push_str(&mut r, m.as_str());
            },
            EvalError::Decimal(m) => {
                push_str(&mut r, "DecimalError: ");
                push_str(&mut r, m.as_str());
            },
            EvalError::Parse(p) => {
                r = p.to_string();
            },
        }
        r
    }
}

fn runtime_error(prefix: &str, tail: &str) -> (r: EvalError)
    ensures
        eval_err_view(r) == SEvalErr::Runtime(prefix@ + tail@),
{
    let mut m = String::new();
    push_str(&mut m, prefix);
    push_str(&mut m, tail);
    EvalError::Runtime(m)
}

/// The abstract scopes of the interpreter.
pub open spec fn frames_view(scopes: Seq<Vec<(String, Value)>>) -> Env {
    scopes.map_values(|fr: Vec<(String, Value)>| entries_view(fr@))
}

/// The number of nested function calls an interpreter allows: as many as a
/// `usize` counts, so that only the machine's stack bounds them.
pub const MAX_CALLS: usize = usize::MAX;

/// The interpreter: its scopes of variables, innermost last, and how many
/// nested function calls are still allowed.
pub struct Intepreter {
    scopes: Vec<Vec<(String, Value)>>,
    calls_left: usize,
}

impl Intepreter {
    pub closed spec fn env(&self) -> Env {
        frames_view(self.scopes@)
    }

    pub closed spec fn fuel(&self) -> nat {
        self.calls_left as nat
    }

    /// Every number held in a scope fits `rust_decimal`.
    pub closed spec fn wf(&self) -> bool {
        forall|i: int| 0 <= i < self.scopes@.len() ==> entries_wf(#[trigger] self.env()[i])
    }

    /// An interpreter with one empty scope.
    pub fn new() -> (r: Intepreter)
        ensures
            r.wf(),
            r.env() == seq![Seq::<(Seq<char>, SValue)>::empty()],
            r.fuel() == MAX_CALLS,
    {
        let mut scopes: Vec<Vec<(String, Value)>> = Vec::new();
        scopes.push(Vec::new());
        let r = Intepreter { scopes, calls_left: MAX_CALLS };
        proof {
            assert(entries_view(r.scopes@[0]@) =~= Seq::<(Seq<char>, SValue)>::empty());
            assert(r.env() =~= seq![Seq::<(Seq<char>, SValue)>::empty()]);
        }
        r
    }

    fn push_frame(&mut self)
        requires
            old(self).wf(),
        ensures
            final(self).wf(),
            final(self).env() == old(self).env().push(Seq::empty()),
            final(self).fuel() == old(self).fuel(),
    {
        self.scopes.push(Vec::new());
        proof {
            assert(entries_view(Seq::<(String, Value)>::empty()) =~= Seq::<(Seq<char>, SValue)>::empty());
            assert(self.env() =~= old(self).env().push(Seq::empty()));
        }
    }

    fn pop_frame(&mut self)
        requires
            old(self).wf(),
        ensures
            final(self).wf(),
            final(self).env() == pop_env(old(self).env()),
            final(self).fuel() == old(self).fuel(),
    {
        if self.scopes.len() > 0 {
            let _ = self.scopes.pop();
        }
        proof {
            assert(self.env() =~= pop_env(old(self).env()));
        }
    }
}

proof fn lemma_frame_set_prefix(fr: Frame, name: Seq<char>, v: SValue, j: int)
    requires
        0 <= j <= fr.len(),
        forall|k: int| 0 <= k < j ==> (#[trigger] fr[k]).0 != name,
    ensures
        frame_set(fr, name, v) == fr.take(j) + frame_set(fr.skip(j), name, v),
    decreases j,
{
    if j == 0 {
        assert(fr.take(0) + fr.skip(0) =~= fr);
        assert(fr.skip(0) =~= fr);
        assert(fr.take(0) + frame_set(fr, name, v) =~= frame_set(fr, name, v));
    } else {
        let w = fr.drop_first();
        assert forall|k: int| 0 <= k < j - 1 implies (#[trigger] w[k]).0 != name by {
            assert(w[k] == fr[k + 1]);
        }
        lemma_frame_set_prefix(w, name, v, j - 1);
        assert(w.skip(j - 1) =~= fr.skip(j));
        assert(fr.take(j) =~= seq![fr[0]] + w.take(j - 1));
        assert(frame_set(fr, name, v) == seq![fr[0]] + frame_set(w, name, v));
    }
}

proof fn lemma_frame_get_prefix(fr: Frame, name: Seq<char>, j: int)
    requires
        0 <= j <= fr.len(),
        forall|k: int| 0 <= k < j ==> (#[trigger] fr[k]).0 != name,
    ensures
        frame_get(fr, name) == frame_get(fr.skip(j), name),
    decreases j,
{
    if j == 0 {
        assert(fr.skip(0) =~= fr);
    } else {
        let w = fr.drop_first();
        assert forall|k: int| 0 <= k < j - 1 implies (#[trigger] w[k]).0 != name by {
            assert(w[k] == fr[k + 1]);
        }
        lemma_frame_get_prefix(w, name, j - 1);
        assert(w.skip(j - 1) =~= fr.skip(j));
    }
}

/// The value of `name` in one scope, if it has one.
fn frame_lookup(frame: &Vec<(String, Value)>, name: &str) -> (r: Option<Value>)
    ensures
        match frame_get(entries_view(frame@), name@) {
            Some(v) => r is Some && r->0@ == v,
            None => r is None,
        },
{
    let ghost fv = entries_view(frame@);
    proof {
        lemma_entries_view(frame@);
    }
    let mut j: usize = 0;
    while j < frame.len()
        invariant
            0 <= j <= frame.len(),
            fv == entries_view(frame@),
            fv.len() == frame@.len(),
            forall|k: int| 0 <= k < frame@.len() ==> fv[k] == ((#[trigger] frame@[k]).0@, value_view(frame@[k].1)),
            forall|k: int| 0 <= k < j ==> (#[trigger] fv[k]).0 != name@,
        decreases frame.len() - j,
    {
        if str_eq(frame[j].0.as_str(), name) {
            proof {
                lemma_frame_get_prefix(fv, name@, j as int);
                assert(fv.skip(j as int)[0] == fv[j as int]);
            }
            return Some(frame[j].1.clone());
        }
        j = j + 1;
    }
    proof {
        lemma_frame_get_prefix(fv, name@, j as int);
        assert(fv.skip(j as int).len() == 0);
    }
    None
}

/// The value of a built-in name.
fn prelude_lookup(name: &str) -> (r: Option<Value>)
    ensures
        match prelude_get(name@) {
            Some(v) => r is Some && r->0@ == v,
            None => r is None,
        },
{
    if str_eq(name, "set") {
        let mut names: Vec<String> = Vec::new();
        names.push("name".to_owned());
        names.push("value".to_owned());
        proof {
            crate::script::ast::lemma_strings_view(names@);
            assert(names@[0]@ == "name"@);
            assert(names@[1]@ == "value"@);
            assert(crate::script::ast::strings_view(names@) =~= seq!["name"@, "value"@]);
        }
        Some(Value::NativeFuncV { name: "set".to_owned(), arg_names: names })
    } else if str_eq(name, "is defined") {
        let mut names: Vec<String> = Vec::new();
        names.push("value".to_owned());
        proof {
            crate::script::ast::lemma_strings_view(names@);
            assert(crate::script::ast::strings_view(names@) =~= seq!["value"@]);
        }
        Some(Value::MacroV { name: "is defined".to_owned(), arg_names: names })
    } else {
        None
    }
}

impl Intepreter {
    /// The value of `name` in the innermost scope that has it, else among
    /// the built-in names.
    pub fn resolve(&self, name: &str) -> (r: Option<Value>)
        ensures
            match resolve(self.env(), name@) {
                Some(v) => r is Some && r->0@ == v,
                None => r is None,
            },
    {
        let ghost env = self.env();
        let mut k: usize = self.scopes.len();
        proof {
            assert(env.take(k as int) =~= env);
        }
        while k > 0
            invariant
                0 <= k <= self.scopes.len(),
                env == self.env(),
                resolve(env, name@) == resolve(env.take(k as int), name@),
            decreases k,
        {
            let found = frame_lookup(&self.scopes[k - 1], name);
            proof {
                let e = env.take(k as int);
                assert(e.last() == entries_view(self.scopes@[k - 1]@));
                assert(e.drop_last() =~= env.take(k - 1));
            }
            if found.is_some() {
                return found;
            }
            k = k - 1;
        }
        proof {
            assert(env.take(0) =~= Seq::<Frame>::empty());
        }
        prelude_lookup(name)
    }

    /// Sets `name` to `value` in the innermost scope, made where there is
    /// none.
    pub fn set_var(&mut self, name: String, value: Value)
        requires
            old(self).wf(),
            value_wf(value@),
        ensures
            final(self).wf(),
            final(self).env() == set_var(old(self).env(), name@, value@),
            final(self).fuel() == old(self).fuel(),
    {
        if self.scopes.len() == 0 {
            self.scopes.push(Vec::new());
            proof {
                assert(entries_view(Seq::<(String, Value)>::empty()) =~= Seq::<(Seq<char>, SValue)>::empty());
                assert(self.env() =~= seq![Seq::<(Seq<char>, SValue)>::empty()]);
            }
        }
        let ghost e = self.env();
        let ghost v = value@;
        let ghost nm = name@;
        let mut frame = self.scopes.pop().unwrap();
        let ghost before = self.env();
        proof {
            assert(before =~= e.drop_last());
            assert(e.last() == entries_view(frame@));
            lemma_entries_view(frame@);
            lemma_entries_wf(entries_view(frame@));
        }
        let ghost fv = entries_view(frame@);
        let mut j: usize = 0;
        while j < frame.len() && !str_eq(frame[j].0.as_str(), name.as_str())
            invariant
                0 <= j <= frame.len(),
                fv == entries_view(frame@),
                fv.len() == frame@.len(),
                forall|k: int| 0 <= k < frame@.len() ==> fv[k] == ((#[trigger] frame@[k]).0@, value_view(frame@[k].1)),
                forall|k: int| 0 <= k < j ==> (#[trigger] fv[k]).0 != name@,
            decreases frame.len() - j,
        {
            j = j + 1;
        }
        let found = j < frame.len();
        proof {
            lemma_frame_set_prefix(fv, name@, v, j as int);
        }
        let ghost old_frame = frame@;
        if found {
            frame.set(j, (name, value));
            proof {
                assert(fv.skip(j as int)[0].0 == name@);
                assert(frame_set(fv.skip(j as int), name@, v) =~= fv.skip(j as int).update(0, (name@, v)));
                lemma_entries_view(frame@);
                assert forall|k: int| 0 <= k < fv.len() implies #[trigger] entries_view(frame@)[k]
                    == fv.update(j as int, (nm, v))[k] by {
                    if k != j {
                        assert(frame@[k] == old_frame[k]);
                        assert(fv[k] == (old_frame[k].0@, value_view(old_frame[k].1)));
                    } else {
                        assert(frame@[k].0@ == nm);
                        assert(value_view(frame@[k].1) == v);
                    }
                }
                assert(entries_view(frame@) =~= fv.update(j as int, (name@, v)));
                assert(fv.take(j as int) + fv.skip(j as int).update(0, (name@, v)) =~= fv.update(j as int, (name@, v)));
            }
        } else {
            frame.push((name, value));
            proof {
                assert(fv.skip(j as int) =~= Seq::<(Seq<char>, SValue)>::empty());
                assert(frame@.drop_last() =~= old_frame);
                assert(entries_view(frame@) =~= fv.push((name@, v)));
                assert(fv.take(j as int) + seq![(name@, v)] =~= fv.push((name@, v)));
            }
        }
        let ghost nf = entries_view(frame@);
        self.scopes.push(frame);
        proof {
            assert(nf == frame_set(e.last(), name@, v));
            assert(self.env() =~= e.update(e.len() - 1, nf));
            lemma_entries_view(self.scopes@[self.scopes@.len() - 1]@);
            lemma_entries_wf(nf);
            assert forall|k: int| 0 <= k < nf.len() implies value_wf(#[trigger] nf[k].1) by {
                if found {
                    if k != j {
                        assert(nf[k] == fv[k]);
                    }
                } else {
                    if k < fv.len() {
                        assert(nf[k] == fv[k]);
                    }
                }
            }
            assert forall|i: int| 0 <= i < self.scopes@.len() implies entries_wf(#[trigger] self.env()[i]) by {
                if i < self.scopes@.len() - 1 {
                    assert(self.env()[i] == e[i]);
                }
            }
        }
    }
}

/// The order of two strings, character by character: `-1`, `0` or `1`.
pub(crate) fn order_strs(a: &str, b: &str) -> (r: i8)
    ensures
        r == str_order(a@, b@),
{
    let x = str_chars(a);
    let y = str_chars(b);
    let mut i: usize = 0;
    proof {
        assert(x@.skip(0) =~= x@);
        assert(y@.skip(0) =~= y@);
    }
    while i < x.len() && i < y.len() && (x[i] as u32) == (y[i] as u32)
        invariant
            0 <= i <= x.len(),
            i <= y.len(),
            str_order(a@, b@) == str_order(x@.skip(i as int), y@.skip(i as int)),
            x@ == a@,
            y@ == b@,
        decreases x.len() - i,
    {
        proof {
            assert(x@.skip(i as int).drop_first() =~= x@.skip(i + 1));
            assert(y@.skip(i as int).drop_first() =~= y@.skip(i + 1));
        }
        i = i + 1;
    }
    if i == x.len() && i == y.len() {
        0
    } else if i == x.len() {
        -1
    } else if i == y.len() {
        1
    } else if (x[i] as u32) < (y[i] as u32) {
        -1
    } else {
        1
    }
}

/// Whether each carry step of adding `dur` to `dt` fits in a `u32`.
fn add_fits_check(dt: DateTime, dur: Duration) -> (r: bool)
    ensures
        r == add_fits(dt, dur),
{
    match (dt.date, dur) {
        (
            Date::YMD { year: y, month: mo, day: d },
            Duration::YMDHMS { year, month, day, hour, minute, second, millisecond },
        ) => {
            let t = dt.time;
            let max: u64 = 0xffff_ffff;
            let ms: u64 = t.millisecond as u64 + millisecond as u64;
            if ms > max {
                return false;
            }
            let s: u64 = t.second as u64 + second as u64 + ms / 1000;
            if s > max {
                return false;
            }
            let mi: u64 = t.minute as u64 + minute as u64 + s / 60;
            if mi > max {
                return false;
            }
            let h: u64 = t.hour as u64 + hour as u64 + mi / 60;
            if h > max {
                return false;
            }
            let dd: u64 = d as u64 + day as u64 + h / 24;
            if dd > max {
                return false;
            }
            let mm: u64 = mo as u64 + month as u64 + dd / 30;
            if mm > max {
                return false;
            }
            (y as u32) as u64 + year as u64 + mm / 12 <= max
        },
        _ => true,
    }
}

fn datetime_op_exec(op_is_add: bool, dt: DateTime, dur: Duration, negative: bool) -> (r: Result<
    DateTime,
    String,
>)
    ensures
        match datetime_op(op_is_add, dt, dur, negative) {
            Ok(v) => r == Ok::<DateTime, String>(v),
            Err(m) => r matches Err(e) && e@ == m,
        },
{
    if op_is_add != negative {
        if add_fits_check(dt, dur) {
            datetime_add(dt, dur)
        } else {
            Err("temporal value out of range".to_owned())
        }
    } else {
        datetime_sub(dt, dur)
    }
}

/// A time delta of `seconds` (and of `nanoseconds` in all, where they fit)
/// as a duration value.
pub fn delta_value_exec(seconds: i64, nanoseconds: Option<i64>) -> (v: Result<Value, EvalError>)
    ensures
        result_is(v, delta_value(seconds, nanoseconds)),
{
    let nanos_at_min = match nanoseconds {
        Some(n) => n == i64::MIN,
        None => false,
    };
    if seconds == i64::MIN || nanos_at_min {
        Err(EvalError::runtime("temporal value out of range"))
    } else {
        let (d, negative) = timedelta_to_duration(seconds, nanoseconds);
        Ok(Value::DurationV { duration: d, negative })
    }
}

/// `a - b` on two dates and times, through `chrono`.
fn datetime_diff_exec(a: DateTime, b: DateTime) -> (v: Result<Value, EvalError>)
    ensures
        result_is(v, datetime_diff(a, b)),
{
    match (ymd_fields_exec(a), offset_secs_exec(a.time), ymd_fields_exec(b), offset_secs_exec(b.time)) {
        (Some(x), Some(xo), Some(y), Some(yo)) => match chrono_delta_of(x, xo, y, yo) {
            Some((seconds, nanoseconds)) => delta_value_exec(seconds, nanoseconds),
            None => Err(EvalError::runtime("temporal value out of range")),
        },
        _ => Err(EvalError::runtime("temporal value out of range")),
    }
}

fn temporal_result(r: Result<DateTime, String>) -> (v: Result<Value, EvalError>)
    ensures
        match r {
            Ok(x) => result_is(v, Ok(SValue::DateTime(x))),
            Err(m) => result_is(v, runtime(m@)),
        },
{
    match r {
        Ok(x) => Ok(Value::DateTimeV(x)),
        Err(m) => Err(EvalError::Runtime(m)),
    }
}

fn number_value(r: Option<Num>) -> (v: Result<Value, EvalError>)
    requires
        r matches Some(n) ==> num_wf(n),
    ensures
        result_is(v, number_result(r)),
{
    match r {
        Some(n) => Ok(Value::NumberV(n)),
        None => Err(EvalError::runtime("number out of range")),
    }
}

fn err4(a: &str, b: &str, c: &str, d: &str) -> (e: EvalError)
    ensures
        eval_err_view(e) == SEvalErr::Runtime(a@ + b@ + c@ + d@),
{
    let mut m = String::new();
    push_str(&mut m, a);
    push_str(&mut m, b);
    push_str(&mut m, c);
    push_str(&mut m, d);
    EvalError::Runtime(m)
}

fn err6(a: &str, b: &str, c: &str, d: &str, x: &str, y: &str) -> (e: EvalError)
    ensures
        eval_err_view(e) == SEvalErr::Runtime(a@ + b@ + c@ + d@ + x@ + y@),
{
    let mut m = String::new();
    push_str(&mut m, a);
    push_str(&mut m, b);
    push_str(&mut m, c);
    push_str(&mut m, d);
    push_str(&mut m, x);
    push_str(&mut m, y);
    EvalError::Runtime(m)
}

/// `+` on two values.
fn add_values_exec(l: &Value, r: &Value) -> (v: Result<Value, EvalError>)
    requires
        value_wf(l@),
        value_wf(r@),
    ensures
        result_is(v, add_values(l@, r@)),
{
    match l {
        Value::NumberV(a) => match r {
            Value::NumberV(b) => number_value(add_num(*a, *b)),
            _ => Err(runtime_error("canot + number and ", r.data_type().as_str())),
        },
        Value::StrV(a) => match r {
            Value::StrV(b) => {
                let mut c = a.clone();
                push_str(&mut c, b.as_str());
                Ok(Value::StrV(c))
            },
            _ => Err(runtime_error("canot + string and ", r.data_type().as_str())),
        },
        Value::DateTimeV(dt) => match r {
            Value::DurationV { duration, negative } => temporal_result(
                datetime_op_exec(true, *dt, *duration, *negative),
            ),
            _ => Err(runtime_error("canot + datetime and ", r.data_type().as_str())),
        },
        Value::DurationV { duration, negative } => match r {
            Value::DateTimeV(b) => temporal_result(datetime_op_exec(true, *b, *duration, *negative)),
            _ => Err(runtime_error("canot + duration and ", r.data_type().as_str())),
        },
        _ => Err(err4("canot + ", l.data_type().as_str(), " and ", r.data_type().as_str())),
    }
}

/// `-` on two values.
fn sub_values_exec(l: &Value, r: &Value) -> (v: Result<Value, EvalError>)
    requires
        value_wf(l@),
        value_wf(r@),
    ensures
        result_is(v, sub_values(l@, r@)),
{
    match l {
        Value::NumberV(a) => match r {
            Value::NumberV(b) => number_value(sub_num(*a, *b)),
            _ => Err(runtime_error("canot - number and ", r.data_type().as_str())),
        },
        Value::DateTimeV(a) => match r {
            Value::DurationV { duration, negative } => temporal_result(
                datetime_op_exec(false, *a, *duration, *negative),
            ),
            Value::DateTimeV(b) => datetime_diff_exec(*a, *b),
            _ => Err(runtime_error("canot - datetime and ", r.data_type().as_str())),
        },
        _ => Err(err4("canot - ", l.data_type().as_str(), " and ", r.data_type().as_str())),
    }
}

/// `*` or `/` on two values.
fn mul_div_values_exec(op: &str, l: &Value, r: &Value) -> (v: Result<Value, EvalError>)
    requires
        value_wf(l@),
        value_wf(r@),
    ensures
        result_is(v, mul_div_values(op@, l@, r@)),
{
    match l {
        Value::NumberV(a) => match r {
            Value::NumberV(b) => if str_eq(op, "*") {
                number_value(mul_num(*a, *b))
            } else {
                number_value(div_num(*a, *b))
            },
            _ => Err(err4("canot ", op, " number and ", r.data_type().as_str())),
        },
        _ => Err(err6("canot ", op, " ", l.data_type().as_str(), " and ", r.data_type().as_str())),
    }
}

fn order_holds_exec(op: &str, o: i8) -> (r: bool)
    ensures
        r == order_holds(op@, o as int),
{
    if str_eq(op, ">") {
        o > 0
    } else if str_eq(op, ">=") {
        o >= 0
    } else if str_eq(op, "<") {
        o < 0
    } else if str_eq(op, "<=") {
        o <= 0
    } else if str_eq(op, "!=") {
        o != 0
    } else {
        o == 0
    }
}

/// A comparison of two values.
fn compare_values_exec(op: &str, l: &Value, r: &Value) -> (v: Result<Value, EvalError>)
    requires
        value_wf(l@),
        value_wf(r@),
    ensures
        result_is(v, compare_values(op@, l@, r@)),
{
    match l {
        Value::NumberV(a) => match r {
            Value::NumberV(b) => Ok(Value::BoolV(order_holds_exec(op, order_num(*a, *b)))),
            _ => Err(err4("canot ", op, " number and ", r.data_type().as_str())),
        },
        Value::StrV(a) => match r {
            Value::StrV(b) => Ok(Value::BoolV(order_holds_exec(op, order_strs(a.as_str(), b.as_str())))),
            _ => Err(err4("canot ", op, " string and ", r.data_type().as_str())),
        },
        _ => Err(err6("canot ", op, " ", l.data_type().as_str(), " and ", r.data_type().as_str())),
    }
}

/// A binary operator on two values.
fn binop_values_exec(op: &str, l: &Value, r: &Value) -> (v: Result<Value, EvalError>)
    requires
        value_wf(l@),
        value_wf(r@),
    ensures
        result_is(v, binop_values(op@, l@, r@)),
{
    if str_eq(op, "+") {
        add_values_exec(l, r)
    } else if str_eq(op, "-") {
        sub_values_exec(l, r)
    } else if str_eq(op, "*") || str_eq(op, "/") {
        mul_div_values_exec(op, l, r)
    } else if str_eq(op, ">") || str_eq(op, ">=") || str_eq(op, "<") || str_eq(op, "<=")
        || str_eq(op, "!=") || str_eq(op, "=") {
        compare_values_exec(op, l, r)
    } else {
        Err(runtime_error("unknown op ", op))
    }
}

/// The value of a temporal literal.
fn temporal_literal_exec(v: &str) -> (r: Result<Value, EvalError>)
    ensures
        result_is(r, temporal_literal(v@)),
{
    let c = str_chars(v);
    if c.len() > 0 && c[0] == '@' && c.len() < 3 {
        return Err(EvalError::runtime("fail to parse temporal value"));
    }
    match parse_temporal(v) {
        Ok(Temporal::DateTime(x)) => Ok(Value::DateTimeV(x)),
        Ok(Temporal::Date(x)) => Ok(Value::DateV(x)),
        Ok(Temporal::Time(x)) => Ok(Value::TimeV(x)),
        Ok(Temporal::Duration(x)) => Ok(Value::DurationV { duration: x, negative: false }),
        Err(m) => Err(EvalError::Runtime(m)),
    }
}

/// The characters of a string literal between its quotes.
fn string_literal(v: &str) -> (r: Result<Value, EvalError>)
    ensures
        result_is(
            r,
            if v@.len() >= 2 {
                Ok(SValue::Str(v@.subrange(1, v@.len() - 1)))
            } else {
                runtime("string literal without quotes"@)
            },
        ),
{
    let c = str_chars(v);
    if c.len() >= 2 {
        Ok(Value::StrV(string_from_chars(&c, 1, c.len() - 1)))
    } else {
        Err(EvalError::runtime("string literal without quotes"))
    }
}

/// The value of a number literal.
fn number_literal(v: &str) -> (r: Result<Value, EvalError>)
    ensures
        result_is(
            r,
            match crate::script::value::num_parse(v@) {
                Ok(x) => Ok(SValue::Number(x)),
                Err(m) => Err(SEvalErr::Decimal(m)),
            },
        ),
{
    match parse_num(v) {
        Ok(n) => Ok(Value::NumberV(n)),
        Err(m) => Err(EvalError::Decimal(m)),
    }
}

/// `vs` put before the values of a list result.
pub open spec fn prepend_all(vs: Seq<SValue>, g: (Env, Result<Seq<SValue>, SEvalErr>)) -> (
    Env,
    Result<Seq<SValue>, SEvalErr>,
) {
    (
        g.0,
        match g.1 {
            Ok(ws) => Ok(vs + ws),
            Err(e) => Err(e),
        },
    )
}

/// Whether the scopes and result are those `g` gives.
pub open spec fn outcome_is(env: Env, r: Result<Value, EvalError>, g: (Env, SRes)) -> bool {
    env == g.0 && result_is(r, g.1)
}

proof fn lemma_map_insert_prefix(m: Seq<(Seq<char>, SValue)>, k: Seq<char>, v: SValue, j: int)
    requires
        0 <= j <= m.len(),
        forall|i: int|
            0 <= i < j ==> (#[trigger] m[i]).0 != k && !(str_order(k, m[i].0) < 0),
    ensures
        map_insert(m, k, v) == m.take(j) + map_insert(m.skip(j), k, v),
    decreases j,
{
    if j == 0 {
        assert(m.skip(0) =~= m);
        assert(m.take(0) + map_insert(m, k, v) =~= map_insert(m, k, v));
    } else {
        let w = m.drop_first();
        assert forall|i: int| 0 <= i < j - 1 implies (#[trigger] w[i]).0 != k && !(str_order(
            k,
            w[i].0,
        ) < 0) by {
            assert(w[i] == m[i + 1]);
        }
        lemma_map_insert_prefix(w, k, v, j - 1);
        assert(w.skip(j - 1) =~= m.skip(j));
        assert(m.take(j) =~= seq![m[0]] + w.take(j - 1));
    }
}

/// Adds `(key, v)` to a map held in key order: the value of `key`
/// replaced, or the entry put before the first greater key.
fn map_insert_exec(m: &mut Vec<(String, Value)>, key: String, v: Value)
    requires
        entries_wf(entries_view(old(m)@)),
        value_wf(v@),
    ensures
        entries_view(final(m)@) == map_insert(entries_view(old(m)@), key@, v@),
        entries_wf(entries_view(final(m)@)),
{
    let ghost mv = entries_view(m@);
    let ghost k = key@;
    let ghost vv = v@;
    proof {
        lemma_entries_view(m@);
        lemma_entries_wf(mv);
    }
    let mut j: usize = 0;
    while j < m.len() && !str_eq(m[j].0.as_str(), key.as_str()) && !(order_strs(
        key.as_str(),
        m[j].0.as_str(),
    ) < 0)
        invariant
            0 <= j <= m.len(),
            mv == entries_view(m@),
            mv.len() == m@.len(),
            forall|i: int| 0 <= i < m@.len() ==> mv[i] == ((#[trigger] m@[i]).0@, value_view(m@[i].1)),
            forall|i: int| 0 <= i < j ==> (#[trigger] mv[i]).0 != k && !(str_order(k, mv[i].0) < 0),
            k == key@,
        decreases m.len() - j,
    {
        j = j + 1;
    }
    proof {
        lemma_map_insert_prefix(mv, k, vv, j as int);
    }
    let ghost old_m = m@;
    if j < m.len() && str_eq(m[j].0.as_str(), key.as_str()) {
        m.set(j, (key, v));
        proof {
            assert(map_insert(mv.skip(j as int), k, vv) =~= mv.skip(j as int).update(0, (k, vv)));
            lemma_entries_view(m@);
            let nm = entries_view(m@);
            assert(nm.len() == mv.len());
            assert forall|i: int| 0 <= i < mv.len() implies #[trigger] nm[i] == mv.update(
                j as int,
                (k, vv),
            )[i] by {
                assert(nm[i] == (m@[i].0@, value_view(m@[i].1)));
                if i != j {
                    assert(m@[i] == old_m[i]);
                    assert(mv[i] == (old_m[i].0@, value_view(old_m[i].1)));
                }
            }
            assert(entries_view(m@) =~= mv.update(j as int, (k, vv)));
            assert(mv.take(j as int) + mv.skip(j as int).update(0, (k, vv)) =~= mv.update(
                j as int,
                (k, vv),
            ));
        }
    } else {
        m.insert(j, (key, v));
        proof {
            let ins = mv.take(j as int) + seq![(k, vv)] + mv.skip(j as int);
            if j < mv.len() {
                assert(map_insert(mv.skip(j as int), k, vv) =~= seq![(k, vv)] + mv.skip(j as int));
            } else {
                assert(mv.skip(j as int) =~= Seq::<(Seq<char>, SValue)>::empty());
            }
            lemma_entries_view(m@);
            assert forall|i: int| 0 <= i < m@.len() implies #[trigger] entries_view(m@)[i] == ins[i] by {
                if i < j {
                    assert(m@[i] == old_m[i]);
                } else if i > j {
                    assert(m@[i] == old_m[i - 1]);
                }
            }
            assert(entries_view(m@) =~= ins);
            assert(mv.take(j as int) + (seq![(k, vv)] + mv.skip(j as int)) =~= ins);
        }
    }
    proof {
        let nm = entries_view(m@);
        lemma_entries_view(m@);
        lemma_entries_wf(nm);
        assert forall|i: int| 0 <= i < nm.len() implies value_wf(#[trigger] nm[i].1) by {
            if nm[i].1 != vv {
                assert(exists|q: int| 0 <= q < mv.len() && mv[q].1 == nm[i].1) by {
                    if i < j {
                        assert(nm[i] == mv[i]);
                    } else if i > j && j < mv.len() && nm.len() > mv.len() {
                        assert(nm[i] == mv[i - 1]);
                    } else {
                        assert(nm[i] == mv[i]);
                    }
                }
            }
        }
    }
}

impl Intepreter {
    /// Evaluates a syntax tree: its value, or an error.
    pub fn eval(&mut self, node: &Node) -> (r: Result<Value, EvalError>)
        requires
            old(self).wf(),
        ensures
            final(self).wf(),
            final(self).fuel() == old(self).fuel(),
            outcome_is(final(self).env(), r, ev(old(self).fuel(), old(self).env(), node@)),
        decreases old(self).fuel(), node, 2nat,
    {
        match node {
            Node::Null => Ok(Value::NullV),
            Node::Bool(b) => Ok(Value::BoolV(*b)),
            Node::Number(v) => number_literal(v.as_str()),
            Node::Str(v) => string_literal(v.as_str()),
            Node::Temporal(v) => temporal_literal_exec(v.as_str()),
            Node::Ident(v) => Ok(Value::StrV(v.clone())),
            Node::Var(name) => match self.resolve(name.as_str()) {
                Some(v) => {
                    proof {
                        self.lemma_resolve_wf(name@);
                    }
                    Ok(v)
                },
                None => Err(EvalError::VarNotFound),
            },
            Node::Neg(_) => self.eval_neg(node),
            Node::Binop { .. } => self.eval_binop(node),
            Node::Array(elements) => self.eval_array(elements),
            Node::MapExpr(items) => self.eval_map(items),
            Node::FuncDef { .. } => Ok(Value::FuncV { func_def: Box::new(node.deep_clone()) }),
            Node::FuncCall { func_ref, args } => {
                let fv = match self.eval(func_ref) {
                    Err(e) => {
                        return Err(e);
                    },
                    Ok(v) => v,
                };
                self.eval_call(fv, args)
            },
            Node::IfExpr { .. } => self.eval_if(node),
            Node::ForExpr { .. } => self.eval_for(node),
            Node::SomeExpr { .. } => self.eval_some(node),
            Node::EveryExpr { .. } => self.eval_every(node),
            Node::ExprList { .. } => self.eval_expr_list(node),
            Node::MultiTests { .. } => self.eval_multi_tests(node),
            _ => Err(runtime_error("eval not supported ", node.to_string().as_str())),
        }
    }

    proof fn lemma_resolve_wf(&self, name: Seq<char>)
        requires
            self.wf(),
        ensures
            resolve(self.env(), name) matches Some(v) ==> value_wf(v),
    {
        let env = self.env();
        assert forall|k: int| 0 <= k <= env.len() implies (resolve(#[trigger] env.take(k), name) matches Some(v) ==> value_wf(v)) by {
            self.lemma_resolve_take_wf(name, k);
        }
        assert(env.take(env.len() as int) =~= env);
    }

    proof fn lemma_resolve_take_wf(&self, name: Seq<char>, k: int)
        requires
            self.wf(),
            0 <= k <= self.env().len(),
        ensures
            resolve(self.env().take(k), name) matches Some(v) ==> value_wf(v),
        decreases k,
    {
        let env = self.env();
        let e = env.take(k);
        if k > 0 {
            assert(e.drop_last() =~= env.take(k - 1));
            self.lemma_resolve_take_wf(name, k - 1);
            assert(entries_wf(env[k - 1]));
            lemma_entries_wf(env[k - 1]);
            lemma_frame_get_wf(env[k - 1], name);
        }
    }
}

proof fn lemma_frame_get_wf(fr: Frame, name: Seq<char>)
    requires
        forall|i: int| 0 <= i < fr.len() ==> value_wf(#[trigger] fr[i].1),
    ensures
        frame_get(fr, name) matches Some(v) ==> value_wf(v),
    decreases fr.len(),
{
    if fr.len() > 0 {
        let w = fr.drop_first();
        assert forall|i: int| 0 <= i < w.len() implies value_wf(#[trigger] w[i].1) by {
            assert(w[i] == fr[i + 1]);
        }
        lemma_frame_get_wf(w, name);
    }
}

impl Intepreter {
    fn eval_neg(&mut self, node: &Node) -> (r: Result<Value, EvalError>)
        requires
            old(self).wf(),
            node is Neg,
        ensures
            final(self).wf(),
            final(self).fuel() == old(self).fuel(),
            outcome_is(final(self).env(), r, ev(old(self).fuel(), old(self).env(), node@)),
        decreases old(self).fuel(), node, 1nat,
    {
        let x = match node {
            Node::Neg(x) => x,
            _ => {
                assert(false);
                return Err(EvalError::VarNotFound);
            },
        };
        match self.eval(x) {
            Err(e) => Err(e),
            Ok(Value::NumberV(m)) => Ok(Value::NumberV(Num { mantissa: -m.mantissa, scale: m.scale })),
            Ok(v) => Err(runtime_error("cannot neg ", v.data_type().as_str())),
        }
    }

    fn eval_binop(&mut self, node: &Node) -> (r: Result<Value, EvalError>)
        requires
            old(self).wf(),
            node is Binop,
        ensures
            final(self).wf(),
            final(self).fuel() == old(self).fuel(),
            outcome_is(final(self).env(), r, ev(old(self).fuel(), old(self).env(), node@)),
        decreases old(self).fuel(), node, 1nat,
    {
        let (op, left, right) = match node {
            Node::Binop { op, left, right } => (op, left, right),
            _ => {
                assert(false);
                return Err(EvalError::VarNotFound);
            },
        };
        let lv = match self.eval(left) {
            Err(e) => {
                return Err(e);
            },
            Ok(v) => v,
        };
        let rv = match self.eval(right) {
            Err(e) => {
                return Err(e);
            },
            Ok(v) => v,
        };
        binop_values_exec(op.as_str(), &lv, &rv)
    }

    fn eval_if(&mut self, node: &Node) -> (r: Result<Value, EvalError>)
        requires
            old(self).wf(),
            node is IfExpr,
        ensures
            final(self).wf(),
            final(self).fuel() == old(self).fuel(),
            outcome_is(final(self).env(), r, ev(old(self).fuel(), old(self).env(), node@)),
        decreases old(self).fuel(), node, 1nat,
    {
        let (condition, then_branch, else_branch) = match node {
            Node::IfExpr { condition, then_branch, else_branch } => (
                condition,
                then_branch,
                else_branch,
            ),
            _ => {
                assert(false);
                return Err(EvalError::VarNotFound);
            },
        };
        let c = match self.eval(condition) {
            Err(e) => {
                return Err(e);
            },
            Ok(v) => v,
        };
        if c.bool_value() {
            self.eval(then_branch)
        } else {
            self.eval(else_branch)
        }
    }

    fn eval_array(&mut self, elements: &Vec<Box<Node>>) -> (r: Result<Value, EvalError>)
        requires
            old(self).wf(),
        ensures
            final(self).wf(),
            final(self).fuel() == old(self).fuel(),
            outcome_is(
                final(self).env(),
                r,
                ev(old(self).fuel(), old(self).env(), SNode::Array(crate::script::ast::boxes_view(elements@))),
            ),
        decreases old(self).fuel(), elements, 1nat,
    {
        let ghost f = self.fuel();
        let ghost xs = crate::script::ast::boxes_view(elements@);
        let ghost e0 = self.env();
        let mut results: Vec<Value> = Vec::new();
        proof {
            crate::script::ast::lemma_boxes_view(elements@);
            assert(xs.subrange(0, xs.len() as int) =~= xs);
            assert(values_view(results@) =~= Seq::<SValue>::empty());
            assert(prepend_all(Seq::empty(), ev_list(f, e0, xs)) == ev_list(f, e0, xs));
        }
        let mut i: usize = 0;
        while i < elements.len()
            invariant
                0 <= i <= elements.len(),
                self.wf(),
                self.fuel() == f,
                f == old(self).fuel(),
                e0 == old(self).env(),
                xs == crate::script::ast::boxes_view(elements@),
                xs.len() == elements.len(),
                forall|k: int| 0 <= k < elements.len() ==> xs[k] == node_view(*#[trigger] elements@[k]),
                ev_list(f, e0, xs) == prepend_all(values_view(results@), ev_list(f, self.env(), xs.subrange(i as int, xs.len() as int))),
                values_wf(values_view(results@)),
            decreases elements.len() - i,
        {
            let ghost env_i = self.env();
            let ghost rest = xs.subrange(i as int, xs.len() as int);
            proof {
                assert(rest[0] == xs[i as int]);
                assert(rest.drop_first() =~= xs.subrange(i + 1, xs.len() as int));
                broadcast use vstd::std_specs::vec::axiom_vec_index_decreases;

                assert(decreases_to!(elements => elements[i as int]));
            }
            let v = match self.eval(&elements[i]) {
                Err(e) => {
                    return Err(e);
                },
                Ok(v) => v,
            };
            let ghost old_results = results@;
            results.push(v);
            proof {
                assert(results@.drop_last() =~= old_results);
                lemma_values_wf_push(values_view(old_results), value_view(v));
                assert(values_view(old_results) + (seq![value_view(v)] + Seq::<SValue>::empty())
                    =~= values_view(results@) + Seq::<SValue>::empty());
                let g = ev_list(f, self.env(), xs.subrange(i + 1, xs.len() as int));
                match g.1 {
                    Ok(ws) => {
                        assert(values_view(old_results) + (seq![value_view(v)] + ws) =~= values_view(results@) + ws);
                    },
                    Err(_) => {},
                }
            }
            i = i + 1;
        }
        proof {
            assert(xs.subrange(i as int, xs.len() as int) =~= Seq::<SNode>::empty());
            assert(values_view(results@) + Seq::<SValue>::empty() =~= values_view(results@));
        }
        Ok(Value::ArrayV(results))
    }
}

impl Intepreter {
    fn eval_map(&mut self, items: &Vec<MapNodeItem>) -> (r: Result<Value, EvalError>)
        requires
            old(self).wf(),
        ensures
            final(self).wf(),
            final(self).fuel() == old(self).fuel(),
            outcome_is(
                final(self).env(),
                r,
                ev(old(self).fuel(), old(self).env(), SNode::MapExpr(crate::script::ast::items_view(items@))),
            ),
        decreases old(self).fuel(), items, 1nat,
    {
        let ghost f = self.fuel();
        let ghost xs = crate::script::ast::items_view(items@);
        let ghost e0 = self.env();
        let mut acc: Vec<(String, Value)> = Vec::new();
        proof {
            crate::script::ast::lemma_items_view(items@);
            assert(xs.subrange(0, xs.len() as int) =~= xs);
            assert(entries_view(acc@) =~= Seq::<(Seq<char>, SValue)>::empty());
        }
        let mut i: usize = 0;
        while i < items.len()
            invariant
                0 <= i <= items.len(),
                self.wf(),
                self.fuel() == f,
                f == old(self).fuel(),
                e0 == old(self).env(),
                xs == crate::script::ast::items_view(items@),
                xs.len() == items.len(),
                forall|k: int| 0 <= k < items.len() ==> xs[k] == (crate::script::ast::SItem {
                    name: node_view(*(#[trigger] items@[k]).name),
                    value: node_view(*items@[k].value),
                }),
                ev(f, e0, SNode::MapExpr(xs)) == ev_items(f, self.env(), xs.subrange(i as int, xs.len() as int), entries_view(acc@)),
                entries_wf(entries_view(acc@)),
                crate::script::value::keys_ascending(entries_view(acc@)),
            decreases items.len() - i,
        {
            let ghost rest = xs.subrange(i as int, xs.len() as int);
            proof {
                assert(rest[0] == xs[i as int]);
                assert(rest.drop_first() =~= xs.subrange(i + 1, xs.len() as int));
                broadcast use vstd::std_specs::vec::axiom_vec_index_decreases;

                assert(decreases_to!(items => items[i as int]));
                assert(decreases_to!(items[i as int] => items[i as int].name));
                assert(decreases_to!(items[i as int] => items[i as int].value));
            }
            let k = match self.eval(&items[i].name) {
                Err(e) => {
                    return Err(e);
                },
                Ok(v) => v,
            };
            let v = match self.eval(&items[i].value) {
                Err(e) => {
                    return Err(e);
                },
                Ok(v) => v,
            };
            let key = k.to_string();
            let ghost before = entries_view(acc@);
            let ghost kv = key@;
            let ghost vv = v@;
            map_insert_exec(&mut acc, key, v);
            proof {
                crate::script::semantics::lemma_map_insert_ascending(before, kv, vv);
            }
            i = i + 1;
        }
        proof {
            assert(xs.subrange(i as int, xs.len() as int) =~= Seq::<crate::script::ast::SItem>::empty());
        }
        Ok(Value::MapV(acc))
    }

    fn eval_expr_list(&mut self, node: &Node) -> (r: Result<Value, EvalError>)
        requires
            old(self).wf(),
            node is ExprList,
        ensures
            final(self).wf(),
            final(self).fuel() == old(self).fuel(),
            outcome_is(final(self).env(), r, ev(old(self).fuel(), old(self).env(), node@)),
        decreases old(self).fuel(), node, 1nat,
    {
        let elements = match node {
            Node::ExprList { elements } => elements,
            _ => {
                assert(false);
                return Err(EvalError::VarNotFound);
            },
        };
        let ghost f = self.fuel();
        let ghost xs = crate::script::ast::nodes_view(elements@);
        let ghost e0 = self.env();
        let mut last = Value::NullV;
        proof {
            crate::script::ast::lemma_nodes_view(elements@);
            assert(xs.subrange(0, xs.len() as int) =~= xs);
        }
        let mut i: usize = 0;
        while i < elements.len()
            invariant
                0 <= i <= elements.len(),
                self.wf(),
                self.fuel() == f,
                f == old(self).fuel(),
                e0 == old(self).env(),
                *node == (Node::ExprList { elements: *elements }),
                xs == crate::script::ast::nodes_view(elements@),
                xs.len() == elements.len(),
                forall|k: int| 0 <= k < elements.len() ==> xs[k] == node_view(#[trigger] elements@[k]),
                ev(f, e0, node@) == ev_seq(f, self.env(), xs.subrange(i as int, xs.len() as int), last@),
                value_wf(last@),
            decreases elements.len() - i,
        {
            let ghost rest = xs.subrange(i as int, xs.len() as int);
            proof {
                assert(rest[0] == xs[i as int]);
                assert(rest.drop_first() =~= xs.subrange(i + 1, xs.len() as int));
                broadcast use vstd::std_specs::vec::axiom_vec_index_decreases;

                assert(decreases_to!(elements => elements[i as int]));
            }
            last = match self.eval(&elements[i]) {
                Err(e) => {
                    return Err(e);
                },
                Ok(v) => v,
            };
            i = i + 1;
        }
        proof {
            assert(xs.subrange(i as int, xs.len() as int) =~= Seq::<SNode>::empty());
        }
        Ok(last)
    }

    fn eval_multi_tests(&mut self, node: &Node) -> (r: Result<Value, EvalError>)
        requires
            old(self).wf(),
            node is MultiTests,
        ensures
            final(self).wf(),
            final(self).fuel() == old(self).fuel(),
            outcome_is(final(self).env(), r, ev(old(self).fuel(), old(self).env(), node@)),
        decreases old(self).fuel(), node, 1nat,
    {
        let elements = match node {
            Node::MultiTests { elements } => elements,
            _ => {
                assert(false);
                return Err(EvalError::VarNotFound);
            },
        };
        let ghost f = self.fuel();
        let ghost xs = crate::script::ast::nodes_view(elements@);
        let ghost e0 = self.env();
        proof {
            crate::script::ast::lemma_nodes_view(elements@);
            assert(xs.subrange(0, xs.len() as int) =~= xs);
        }
        let mut i: usize = 0;
        while i < elements.len()
            invariant
                0 <= i <= elements.len(),
                self.wf(),
                self.fuel() == f,
                f == old(self).fuel(),
                e0 == old(self).env(),
                *node == (Node::MultiTests { elements: *elements }),
                xs == crate::script::ast::nodes_view(elements@),
                xs.len() == elements.len(),
                forall|k: int| 0 <= k < elements.len() ==> xs[k] == node_view(#[trigger] elements@[k]),
                ev(f, e0, node@) == ev_tests(f, self.env(), xs.subrange(i as int, xs.len() as int)),
            decreases elements.len() - i,
        {
            let ghost rest = xs.subrange(i as int, xs.len() as int);
            proof {
                assert(rest[0] == xs[i as int]);
                assert(rest.drop_first() =~= xs.subrange(i + 1, xs.len() as int));
                broadcast use vstd::std_specs::vec::axiom_vec_index_decreases;

                assert(decreases_to!(elements => elements[i as int]));
                assert(decreases_to!(*node => elements[i as int]));
            }
            let v = match self.eval(&elements[i]) {
                Err(e) => {
                    return Err(e);
                },
                Ok(v) => v,
            };
            if v.bool_value() {
                return Ok(Value::BoolV(true));
            }
            i = i + 1;
        }
        proof {
            assert(xs.subrange(i as int, xs.len() as int) =~= Seq::<SNode>::empty());
        }
        Ok(Value::BoolV(false))
    }
}

impl Intepreter {
    fn eval_for(&mut self, node: &Node) -> (r: Result<Value, EvalError>)
        requires
            old(self).wf(),
            node is ForExpr,
        ensures
            final(self).wf(),
            final(self).fuel() == old(self).fuel(),
            outcome_is(final(self).env(), r, ev(old(self).fuel(), old(self).env(), node@)),
        decreases old(self).fuel(), node, 1nat,
    {
        let (var_name, list_expr, body) = match node {
            Node::ForExpr { var_name, list_expr, return_expr } => (var_name, list_expr, return_expr),
            _ => {
                assert(false);
                return Err(EvalError::VarNotFound);
            },
        };
        let ghost f = self.fuel();
        let lv = match self.eval(list_expr) {
            Err(e) => {
                return Err(e);
            },
            Ok(v) => v,
        };
        let items = match lv {
            Value::ArrayV(items) => items,
            _ => {
                return Err(EvalError::runtime("for loop require a list"));
            },
        };
        let ghost xs = values_view(items@);
        let ghost e0 = old(self).env();
        let ghost b = node_view(**body);
        let mut results: Vec<Value> = Vec::new();
        proof {
            assert(values_view(results@) =~= Seq::<SValue>::empty());
        }
        proof {
            lemma_values_view(items@);
            lemma_values_wf(xs);
            assert(xs.skip(0) =~= xs);
        }
        let mut i: usize = 0;
        while i < items.len()
            invariant
                0 <= i <= items.len(),
                self.wf(),
                self.fuel() == f,
                f == old(self).fuel(),
                e0 == old(self).env(),
                *node == (Node::ForExpr { var_name: *var_name, list_expr: *list_expr, return_expr: *body }),
                b == node_view(**body),
                xs == values_view(items@),
                xs.len() == items.len(),
                forall|k: int| 0 <= k < items.len() ==> xs[k] == value_view(#[trigger] items@[k]),
                forall|k: int| 0 <= k < items.len() ==> value_wf(#[trigger] xs[k]),
                ev(f, e0, node@) == ev_for(f, self.env(), var_name@, xs.skip(i as int), b, values_view(results@)),
                values_wf(values_view(results@)),
            decreases items.len() - i,
        {
            let ghost rest = xs.skip(i as int);
            proof {
                assert(rest[0] == xs[i as int]);
                assert(rest.drop_first() =~= xs.skip(i + 1));
            }
            self.push_frame();
            self.set_var(var_name.clone(), items[i].clone());
            let res = self.eval(body);
            self.pop_frame();
            let v = match res {
                Err(e) => {
                    return Err(e);
                },
                Ok(v) => v,
            };
            let ghost old_results = results@;
            results.push(v);
            proof {
                assert(results@.drop_last() =~= old_results);
                assert(values_view(results@) == values_view(old_results).push(value_view(v)));
                lemma_values_wf_push(values_view(old_results), value_view(v));
            }
            i = i + 1;
        }
        proof {
            assert(xs.skip(i as int) =~= Seq::<SValue>::empty());
        }
        Ok(Value::ArrayV(results))
    }
}

impl Intepreter {
    fn eval_some(&mut self, node: &Node) -> (r: Result<Value, EvalError>)
        requires
            old(self).wf(),
            node is SomeExpr,
        ensures
            final(self).wf(),
            final(self).fuel() == old(self).fuel(),
            outcome_is(final(self).env(), r, ev(old(self).fuel(), old(self).env(), node@)),
        decreases old(self).fuel(), node, 1nat,
    {
        let (var_name, list_expr, body) = match node {
            Node::SomeExpr { var_name, list_expr, filter_expr } => (var_name, list_expr, filter_expr),
            _ => {
                assert(false);
                return Err(EvalError::VarNotFound);
            },
        };
        let ghost f = self.fuel();
        let lv = match self.eval(list_expr) {
            Err(e) => {
                return Err(e);
            },
            Ok(v) => v,
        };
        let items = match lv {
            Value::ArrayV(items) => items,
            _ => {
                return Err(EvalError::runtime("for loop require a list"));
            },
        };
        let ghost xs = values_view(items@);
        let ghost e0 = old(self).env();
        let ghost b = node_view(**body);
        
        proof {
            lemma_values_view(items@);
            lemma_values_wf(xs);
            assert(xs.skip(0) =~= xs);
        }
        let mut i: usize = 0;
        while i < items.len()
            invariant
                0 <= i <= items.len(),
                self.wf(),
                self.fuel() == f,
                f == old(self).fuel(),
                e0 == old(self).env(),
                *node == (Node::SomeExpr { var_name: *var_name, list_expr: *list_expr, filter_expr: *body }),
                b == node_view(**body),
                xs == values_view(items@),
                xs.len() == items.len(),
                forall|k: int| 0 <= k < items.len() ==> xs[k] == value_view(#[trigger] items@[k]),
                forall|k: int| 0 <= k < items.len() ==> value_wf(#[trigger] xs[k]),
                ev(f, e0, node@) == ev_some(f, self.env(), var_name@, xs.skip(i as int), b),
            decreases items.len() - i,
        {
            let ghost rest = xs.skip(i as int);
            proof {
                assert(rest[0] == xs[i as int]);
                assert(rest.drop_first() =~= xs.skip(i + 1));
            }
            self.push_frame();
            self.set_var(var_name.clone(), items[i].clone());
            let res = self.eval(body);
            self.pop_frame();
            let v = match res {
                Err(e) => {
                    return Err(e);
                },
                Ok(v) => v,
            };
            if v.bool_value() {
                return Ok(items[i].clone());
            }
            i = i + 1;
        }
        proof {
            assert(xs.skip(i as int) =~= Seq::<SValue>::empty());
        }
        Ok(Value::NullV)
    }
}

impl Intepreter {
    fn eval_every(&mut self, node: &Node) -> (r: Result<Value, EvalError>)
        requires
            old(self).wf(),
            node is EveryExpr,
        ensures
            final(self).wf(),
            final(self).fuel() == old(self).fuel(),
            outcome_is(final(self).env(), r, ev(old(self).fuel(), old(self).env(), node@)),
        decreases old(self).fuel(), node, 1nat,
    {
        let (var_name, list_expr, body) = match node {
            Node::EveryExpr { var_name, list_expr, filter_expr } => (var_name, list_expr, filter_expr),
            _ => {
                assert(false);
                return Err(EvalError::VarNotFound);
            },
        };
        let ghost f = self.fuel();
        let lv = match self.eval(list_expr) {
            Err(e) => {
                return Err(e);
            },
            Ok(v) => v,
        };
        let items = match lv {
            Value::ArrayV(items) => items,
            _ => {
                return Err(EvalError::runtime("for loop require a list"));
            },
        };
        let ghost xs = values_view(items@);
        let ghost e0 = old(self).env();
        let ghost b = node_view(**body);
        let mut results: Vec<Value> = Vec::new();
        proof {
            assert(values_view(results@) =~= Seq::<SValue>::empty());
        }
        proof {
            lemma_values_view(items@);
            lemma_values_wf(xs);
            assert(xs.skip(0) =~= xs);
        }
        let mut i: usize = 0;
        while i < items.len()
            invariant
                0 <= i <= items.len(),
                self.wf(),
                self.fuel() == f,
                f == old(self).fuel(),
                e0 == old(self).env(),
                *node == (Node::EveryExpr { var_name: *var_name, list_expr: *list_expr, filter_expr: *body }),
                b == node_view(**body),
                xs == values_view(items@),
                xs.len() == items.len(),
                forall|k: int| 0 <= k < items.len() ==> xs[k] == value_view(#[trigger] items@[k]),
                forall|k: int| 0 <= k < items.len() ==> value_wf(#[trigger] xs[k]),
                ev(f, e0, node@) == ev_every(f, self.env(), var_name@, xs.skip(i as int), b, values_view(results@)),
                values_wf(values_view(results@)),
            decreases items.len() - i,
        {
            let ghost rest = xs.skip(i as int);
            proof {
                assert(rest[0] == xs[i as int]);
                assert(rest.drop_first() =~= xs.skip(i + 1));
            }
            self.push_frame();
            self.set_var(var_name.clone(), items[i].clone());
            let res = self.eval(body);
            self.pop_frame();
            let v = match res {
                Err(e) => {
                    return Err(e);
                },
                Ok(v) => v,
            };
            if v.bool_value() {
                let ghost old_results = results@;
                results.push(items[i].clone());
                proof {
                    assert(results@.drop_last() =~= old_results);
                    assert(values_view(results@) == values_view(old_results).push(xs[i as int]));
                    lemma_values_wf_push(values_view(old_results), xs[i as int]);
                }
            }
            i = i + 1;
        }
        proof {
            assert(xs.skip(i as int) =~= Seq::<SValue>::empty());
        }
        Ok(Value::ArrayV(results))
    }
}

impl Intepreter {
    /// Calls the built-in function `name` with `vals` bound to `arg_names`.
    fn native_call_exec(&mut self, name: &String, arg_names: &Vec<String>, vals: &Vec<Value>) -> (r:
        Result<Value, EvalError>)
        requires
            old(self).wf(),
            arg_names.len() <= vals.len(),
            values_wf(values_view(vals@)),
        ensures
            final(self).wf(),
            final(self).fuel() == old(self).fuel(),
            outcome_is(
                final(self).env(),
                r,
                native_call(
                    old(self).env(),
                    name@,
                    crate::script::ast::strings_view(arg_names@),
                    values_view(vals@),
                ),
            ),
    {
        proof {
            crate::script::ast::lemma_strings_view(arg_names@);
            lemma_values_view(vals@);
            lemma_values_wf(values_view(vals@));
        }
        let is_set = str_eq(name.as_str(), "set") && arg_names.len() == 2 && str_eq(
            arg_names[0].as_str(),
            "name",
        ) && str_eq(arg_names[1].as_str(), "value");
        proof {
            let nv = crate::script::ast::strings_view(arg_names@);
            if arg_names.len() == 2 && arg_names@[0]@ == "name"@ && arg_names@[1]@ == "value"@ {
                assert(nv =~= seq!["name"@, "value"@]);
            }
            if nv == seq!["name"@, "value"@] {
                assert(nv[0] == "name"@);
                assert(nv[1] == "value"@);
            }
        }
        if !is_set {
            return Err(EvalError::runtime("unknown native function"));
        }
        match &vals[0] {
            Value::StrV(var) => {
                self.set_var(var.clone(), vals[1].clone());
                Ok(vals[1].clone())
            },
            _ => Err(EvalError::runtime("argument name should be string")),
        }
    }

    /// Binds the values to the names in the innermost scope.
    fn bind_args_exec(&mut self, names: &Vec<String>, vals: &Vec<Value>)
        requires
            old(self).wf(),
            names.len() <= vals.len(),
            values_wf(values_view(vals@)),
        ensures
            final(self).wf(),
            final(self).fuel() == old(self).fuel(),
            final(self).env() == bind_args(
                old(self).env(),
                crate::script::ast::strings_view(names@),
                values_view(vals@),
            ),
    {
        let ghost nv = crate::script::ast::strings_view(names@);
        let ghost vv = values_view(vals@);
        proof {
            crate::script::ast::lemma_strings_view(names@);
            lemma_values_view(vals@);
            lemma_values_wf(vv);
            assert(nv.skip(0) =~= nv);
            assert(vv.skip(0) =~= vv);
        }
        let mut i: usize = 0;
        while i < names.len()
            invariant
                0 <= i <= names.len(),
                names.len() <= vals.len(),
                self.wf(),
                self.fuel() == old(self).fuel(),
                nv == crate::script::ast::strings_view(names@),
                vv == values_view(vals@),
                nv.len() == names.len(),
                vv.len() == vals.len(),
                forall|k: int| 0 <= k < names.len() ==> nv[k] == (#[trigger] names@[k])@,
                forall|k: int| 0 <= k < vals.len() ==> vv[k] == value_view(#[trigger] vals@[k]),
                forall|k: int| 0 <= k < vals.len() ==> value_wf(#[trigger] vv[k]),
                bind_args(old(self).env(), nv, vv) == bind_args(self.env(), nv.skip(i as int), vv.skip(i as int)),
            decreases names.len() - i,
        {
            proof {
                assert(nv.skip(i as int)[0] == nv[i as int]);
                assert(vv.skip(i as int)[0] == vv[i as int]);
                assert(nv.skip(i as int).drop_first() =~= nv.skip(i + 1));
                assert(vv.skip(i as int).drop_first() =~= vv.skip(i + 1));
            }
            self.set_var(names[i].clone(), vals[i].clone());
            i = i + 1;
        }
        proof {
            assert(nv.skip(i as int).len() == 0);
        }
    }

    fn eval_call(&mut self, fv: Value, args: &Vec<FuncCallArg>) -> (r: Result<Value, EvalError>)
        requires
            old(self).wf(),
            value_wf(fv@),
        ensures
            final(self).wf(),
            final(self).fuel() == old(self).fuel(),
            outcome_is(
                final(self).env(),
                r,
                call_rest(old(self).fuel(), old(self).env(), fv@, crate::script::ast::args_view(args@)),
            ),
        decreases old(self).fuel(), args, 1nat,
    {
        let ghost f = self.fuel();
        let ghost xs = crate::script::ast::args_view(args@);
        let ghost e1 = self.env();
        let mut vals: Vec<Value> = Vec::new();
        proof {
            crate::script::ast::lemma_args_view(args@);
            assert(xs.subrange(0, xs.len() as int) =~= xs);
            assert(values_view(vals@) =~= Seq::<SValue>::empty());
            assert(prepend_all(Seq::empty(), ev_args(f, e1, xs)) == ev_args(f, e1, xs));
        }
        let mut i: usize = 0;
        while i < args.len()
            invariant
                0 <= i <= args.len(),
                self.wf(),
                self.fuel() == f,
                f == old(self).fuel(),
                e1 == old(self).env(),
                xs == crate::script::ast::args_view(args@),
                xs.len() == args.len(),
                forall|k: int| 0 <= k < args.len() ==> xs[k] == (crate::script::ast::SArg {
                    name: (#[trigger] args@[k]).arg_name@,
                    arg: node_view(*args@[k].arg),
                }),
                ev_args(f, e1, xs) == prepend_all(values_view(vals@), ev_args(f, self.env(), xs.subrange(i as int, xs.len() as int))),
                values_wf(values_view(vals@)),
            decreases args.len() - i,
        {
            let ghost rest = xs.subrange(i as int, xs.len() as int);
            proof {
                assert(rest[0] == xs[i as int]);
                assert(rest.drop_first() =~= xs.subrange(i + 1, xs.len() as int));
                broadcast use vstd::std_specs::vec::axiom_vec_index_decreases;

                assert(decreases_to!(args => args[i as int]));
                assert(decreases_to!(args[i as int] => args[i as int].arg));
            }
            let ghost env_i = self.env();
            let v = match self.eval(&args[i].arg) {
                Err(e) => {
                    proof {
                        let g = ev_args(f, env_i, rest);
                        assert(g.0 == self.env());
                        assert(g.1 == Err::<Seq<SValue>, SEvalErr>(eval_err_view(e)));
                        assert(ev_args(f, e1, xs).1 == Err::<Seq<SValue>, SEvalErr>(eval_err_view(e)));
                    }
                    return Err(e);
                },
                Ok(v) => v,
            };
            let ghost old_vals = vals@;
            vals.push(v);
            proof {
                assert(vals@.drop_last() =~= old_vals);
                lemma_values_wf_push(values_view(old_vals), value_view(v));
                let g = ev_args(f, self.env(), xs.subrange(i + 1, xs.len() as int));
                match g.1 {
                    Ok(ws) => {
                        assert(values_view(old_vals) + (seq![value_view(v)] + ws) =~= values_view(vals@) + ws);
                    },
                    Err(_) => {},
                }
            }
            i = i + 1;
        }
        proof {
            assert(xs.subrange(i as int, xs.len() as int) =~= Seq::<crate::script::ast::SArg>::empty());
            assert(values_view(vals@) + Seq::<SValue>::empty() =~= values_view(vals@));
        }
        match fv {
            Value::NativeFuncV { name, arg_names } => {
                if arg_names.len() > vals.len() {
                    proof {
                        crate::script::ast::lemma_strings_view(arg_names@);
                        lemma_values_view(vals@);
                    }
                    Err(EvalError::runtime("native func call with too few arguments"))
                } else {
                    proof {
                        crate::script::ast::lemma_strings_view(arg_names@);
                        lemma_values_view(vals@);
                    }
                    self.native_call_exec(&name, &arg_names, &vals)
                }
            },
            Value::FuncV { func_def } => match *func_def {
                Node::FuncDef { arg_names, body } => {
                    proof {
                        crate::script::ast::lemma_strings_view(arg_names@);
                        lemma_values_view(vals@);
                    }
                    if arg_names.len() > vals.len() {
                        return Err(EvalError::runtime("func call with too few arguments"));
                    }
                    if self.calls_left == 0 {
                        return Err(EvalError::runtime("call depth exceeded"));
                    }
                    self.push_frame();
                    self.bind_args_exec(&arg_names, &vals);
                    self.calls_left = self.calls_left - 1;
                    let r = self.eval(&body);
                    self.calls_left = self.calls_left + 1;
                    self.pop_frame();
                    r
                },
                other => Err(runtime_error("cannot call non funct ", other.to_string().as_str())),
            },
            other => Err(runtime_error("cannot call non function ", other.data_type().as_str())),
        }
    }
}

} // verus!
