//! What evaluating a FEEL script gives: the scopes it leaves and its value
//! or error, as functions of the tree, the scopes before, and how many
//! nested function calls are still allowed.
use crate::script::ast::{node_text, SArg, SItem, SNode};
use crate::script::grammar::SErr;
use crate::script::value::{
    kind_name, num_add, num_div, num_mul, num_order, num_parse, num_sub, truthy, value_text,
    Num, SValue,
};
use crate::temporal::{
    add_fits, chrono_delta, datetime_add_spec, datetime_sub_spec, delta_duration, offset_secs,
    temporal_body, temporal_of, ymd_fields, DateTime, Duration, Temporal,
};
use vstd::prelude::*;

verus! {

/// The variables of one scope, each name once, in the order first set.
pub type Frame = Seq<(Seq<char>, SValue)>;

/// The scopes, innermost last.
pub type Env = Seq<Frame>;

/// An evaluation error.
pub enum SEvalErr {
    VarNotFound,
    Runtime(Seq<char>),
    Decimal(Seq<char>),
    Parse(SErr),
}

pub type SRes = Result<SValue, SEvalErr>;

pub open spec fn runtime(m: Seq<char>) -> SRes {
    Err(SEvalErr::Runtime(m))
}

/// The value of `name` in a scope, if it has one.
pub open spec fn frame_get(fr: Frame, name: Seq<char>) -> Option<SValue>
    decreases fr.len(),
{
    if fr.len() == 0 {
        None
    } else if fr[0].0 == name {
        Some(fr[0].1)
    } else {
        frame_get(fr.drop_first(), name)
    }
}

/// The scope with `name` set to `v`: its value replaced, or added last.
pub open spec fn frame_set(fr: Frame, name: Seq<char>, v: SValue) -> Frame
    decreases fr.len(),
{
    if fr.len() == 0 {
        seq![(name, v)]
    } else if fr[0].0 == name {
        fr.update(0, (name, v))
    } else {
        seq![fr[0]] + frame_set(fr.drop_first(), name, v)
    }
}

/// The scopes without the innermost one, where there is one.
pub open spec fn pop_env(env: Env) -> Env {
    if env.len() == 0 {
        env
    } else {
        env.drop_last()
    }
}

/// The built-in names: `set` and `is defined`.
pub open spec fn prelude_get(name: Seq<char>) -> Option<SValue> {
    if name == "set"@ {
        Some(SValue::Native("set"@, seq!["name"@, "value"@]))
    } else if name == "is defined"@ {
        Some(SValue::Macro("is defined"@, seq!["value"@]))
    } else {
        None
    }
}

/// The value of `name` in the innermost scope that has it, else among the
/// built-in names.
pub open spec fn resolve(env: Env, name: Seq<char>) -> Option<SValue>
    decreases env.len(),
{
    if env.len() == 0 {
        prelude_get(name)
    } else {
        match frame_get(env.last(), name) {
            Some(v) => Some(v),
            None => resolve(env.drop_last(), name),
        }
    }
}

/// The scopes with `name` set to `v` in the innermost scope, which is made
/// where there is none.
pub open spec fn set_var(env: Env, name: Seq<char>, v: SValue) -> Env {
    let e = if env.len() == 0 {
        seq![Seq::empty()]
    } else {
        env
    };
    e.update(e.len() - 1, frame_set(e.last(), name, v))
}

/// The innermost scope with each name of `names` set to the value at its
/// index; there are at least as many values as names.
pub open spec fn bind_args(env: Env, names: Seq<Seq<char>>, vals: Seq<SValue>) -> Env
    decreases names.len(),
{
    if names.len() == 0 {
        env
    } else {
        bind_args(
            set_var(env, names[0], vals[0]),
            names.drop_first(),
            vals.drop_first(),
        )
    }
}

/// The number `-n`.
pub open spec fn neg_num(n: Num) -> Num {
    Num { mantissa: -n.mantissa as i128, scale: n.scale }
}

/// The order of two strings, character by character.
pub open spec fn str_order(a: Seq<char>, b: Seq<char>) -> int
    decreases a.len(),
{
    if a.len() == 0 && b.len() == 0 {
        0
    } else if a.len() == 0 {
        -1
    } else if b.len() == 0 {
        1
    } else if (a[0] as u32) < (b[0] as u32) {
        -1
    } else if (a[0] as u32) > (b[0] as u32) {
        1
    } else {
        str_order(a.drop_first(), b.drop_first())
    }
}

/// Whether the order `o` (`-1`, `0` or `1`) satisfies the comparison `op`.
pub open spec fn order_holds(op: Seq<char>, o: int) -> bool {
    if op == ">"@ {
        o > 0
    } else if op == ">="@ {
        o >= 0
    } else if op == "<"@ {
        o < 0
    } else if op == "<="@ {
        o <= 0
    } else if op == "!="@ {
        o != 0
    } else {
        o == 0
    }
}

/// The comparison `op` holds of `l` and `r`.
pub open spec fn compares(op: Seq<char>, l: SValue, r: SValue) -> bool {
    compare_values(op, l, r) == Ok::<SValue, SEvalErr>(SValue::Bool(true))
}

/// Comparisons of two numbers, or of two strings, give booleans and agree
/// with each other: `!=` is the negation of `=`; `=` holds of a value and
/// itself; exactly one of `<`, `=` and `>` holds; `a < b` is `b > a`; `<=`
/// is `<` or `=`, and `>=` is `>` or `=`.  Two strings are `=` exactly when
/// they are the same string.
pub proof fn law_comparisons_agree(l: SValue, r: SValue)
    requires
        (l is Number && r is Number) || (l is Str && r is Str),
    ensures
        compare_values("!="@, l, r) matches Ok(SValue::Bool(_)),
        compare_values("="@, l, r) matches Ok(SValue::Bool(_)),
        compares("!="@, l, r) == !compares("="@, l, r),
        compares("="@, l, l),
        compares("<"@, l, r) || compares("="@, l, r) || compares(">"@, l, r),
        compares("<"@, l, r) ==> !compares("="@, l, r) && !compares(">"@, l, r),
        compares("="@, l, r) ==> !compares(">"@, l, r),
        compares("<"@, l, r) == compares(">"@, r, l),
        compares("<="@, l, r) == (compares("<"@, l, r) || compares("="@, l, r)),
        compares(">="@, l, r) == (compares(">"@, l, r) || compares("="@, l, r)),
        l is Str ==> (compares("="@, l, r) <==> l == r),
{
    reveal_strlit(">");
    reveal_strlit(">=");
    reveal_strlit("<");
    reveal_strlit("<=");
    reveal_strlit("!=");
    reveal_strlit("=");
    assert("="@.len() == 1 && "!="@.len() == 2);
    assert("="@[0] != ">"@[0] && "="@[0] != "<"@[0]);
    assert("!="@[0] != ">"@[0] && "!="@[0] != "<"@[0] && "!="@[0] != ">="@[0] && "!="@[0] != "<="@[0]);
    assert("="@ != ">"@ && "="@ != ">="@ && "="@ != "<"@ && "="@ != "<="@ && "="@ != "!="@);
    assert("!="@ != ">"@ && "!="@ != ">="@ && "!="@ != "<"@ && "!="@ != "<="@);
    match (l, r) {
        (SValue::Str(a), SValue::Str(b)) => {
            lemma_str_order_antisym(a, b);
            lemma_str_order_zero(a, b);
            lemma_str_order_zero(a, a);
        },
        (SValue::Number(a), SValue::Number(b)) => {
            assert(num_order(a, a) == 0);
        },
        _ => {},
    }
}

pub open spec fn is_comparison(op: Seq<char>) -> bool {
    op == ">"@ || op == ">="@ || op == "<"@ || op == "<="@ || op == "!="@ || op == "="@
}

/// Adding (or, where `op_is_add` is false, subtracting) a duration to a date
/// and time; a negative duration turns one into the other.
pub open spec fn datetime_op(op_is_add: bool, dt: DateTime, dur: Duration, negative: bool) -> Result<
    DateTime,
    Seq<char>,
> {
    if op_is_add != negative {
        if add_fits(dt, dur) {
            datetime_add_spec(dt, dur)
        } else {
            Err("temporal value out of range"@)
        }
    } else {
        datetime_sub_spec(dt, dur)
    }
}

/// A time delta of `seconds` (and of `nanoseconds` in all, where they fit)
/// as a duration value.
pub open spec fn delta_value(seconds: i64, nanoseconds: Option<i64>) -> SRes {
    if seconds == i64::MIN || nanoseconds == Some(i64::MIN) {
        runtime("temporal value out of range"@)
    } else {
        let (d, negative) = delta_duration(seconds, nanoseconds);
        Ok(SValue::Duration(d, negative))
    }
}

/// `a - b` on two dates and times: the time between the two instants that
/// `chrono` builds from them.
pub open spec fn datetime_diff(a: DateTime, b: DateTime) -> SRes {
    match (ymd_fields(a), offset_secs(a.time), ymd_fields(b), offset_secs(b.time)) {
        (Some(x), Some(xo), Some(y), Some(yo)) => match chrono_delta(x, xo, y, yo) {
            Some((seconds, nanoseconds)) => delta_value(seconds, nanoseconds),
            None => runtime("temporal value out of range"@),
        },
        _ => runtime("temporal value out of range"@),
    }
}

pub open spec fn temporal_value(r: Result<DateTime, Seq<char>>) -> SRes {
    match r {
        Ok(v) => Ok(SValue::DateTime(v)),
        Err(m) => runtime(m),
    }
}

pub open spec fn number_result(r: Option<Num>) -> SRes {
    match r {
        Some(n) => Ok(SValue::Number(n)),
        None => runtime("number out of range"@),
    }
}

/// `+` on two values.
pub open spec fn add_values(l: SValue, r: SValue) -> SRes {
    match l {
        SValue::Number(a) => match r {
            SValue::Number(b) => number_result(num_add(a, b)),
            _ => runtime("canot + number and "@ + kind_name(r)),
        },
        SValue::Str(a) => match r {
            SValue::Str(b) => Ok(SValue::Str(a + b)),
            _ => runtime("canot + string and "@ + kind_name(r)),
        },
        SValue::DateTime(dt) => match r {
            SValue::Duration(d, negative) => temporal_value(datetime_op(true, dt, d, negative)),
            _ => runtime("canot + datetime and "@ + kind_name(r)),
        },
        SValue::Duration(d, negative) => match r {
            SValue::DateTime(b) => temporal_value(datetime_op(true, b, d, negative)),
            _ => runtime("canot + duration and "@ + kind_name(r)),
        },
        _ => runtime("canot + "@ + kind_name(l) + " and "@ + kind_name(r)),
    }
}

/// `-` on two values.
pub open spec fn sub_values(l: SValue, r: SValue) -> SRes {
    match l {
        SValue::Number(a) => match r {
            SValue::Number(b) => number_result(num_sub(a, b)),
            _ => runtime("canot - number and "@ + kind_name(r)),
        },
        SValue::DateTime(a) => match r {
            SValue::Duration(d, negative) => temporal_value(datetime_op(false, a, d, negative)),
            SValue::DateTime(b) => datetime_diff(a, b),
            _ => runtime("canot - datetime and "@ + kind_name(r)),
        },
        _ => runtime("canot - "@ + kind_name(l) + " and "@ + kind_name(r)),
    }
}

/// `*` or `/` on two values.
pub open spec fn mul_div_values(op: Seq<char>, l: SValue, r: SValue) -> SRes {
    match l {
        SValue::Number(a) => match r {
            SValue::Number(b) => number_result(
                if op == "*"@ {
                    num_mul(a, b)
                } else {
                    num_div(a, b)
                },
            ),
            _ => runtime("canot "@ + op + " number and "@ + kind_name(r)),
        },
        _ => runtime("canot "@ + op + " "@ + kind_name(l) + " and "@ + kind_name(r)),
    }
}

/// A comparison of two values: numbers with numbers, strings with strings.
pub open spec fn compare_values(op: Seq<char>, l: SValue, r: SValue) -> SRes {
    match l {
        SValue::Number(a) => match r {
            SValue::Number(b) => Ok(SValue::Bool(order_holds(op, num_order(a, b)))),
            _ => runtime("canot "@ + op + " number and "@ + kind_name(r)),
        },
        SValue::Str(a) => match r {
            SValue::Str(b) => Ok(SValue::Bool(order_holds(op, str_order(a, b)))),
            _ => runtime("canot "@ + op + " string and "@ + kind_name(r)),
        },
        _ => runtime("canot "@ + op + " "@ + kind_name(l) + " and "@ + kind_name(r)),
    }
}

/// A binary operator on two values.
pub open spec fn binop_values(op: Seq<char>, l: SValue, r: SValue) -> SRes {
    if op == "+"@ {
        add_values(l, r)
    } else if op == "-"@ {
        sub_values(l, r)
    } else if op == "*"@ || op == "/"@ {
        mul_div_values(op, l, r)
    } else if is_comparison(op) {
        compare_values(op, l, r)
    } else {
        runtime("unknown op "@ + op)
    }
}

/// The value of a temporal literal.
pub open spec fn temporal_literal(v: Seq<char>) -> SRes {
    if v.len() > 0 && v[0] == '@' && v.len() < 3 {
        runtime("fail to parse temporal value"@)
    } else {
        match temporal_of(temporal_body(v)) {
            Ok(Temporal::DateTime(x)) => Ok(SValue::DateTime(x)),
            Ok(Temporal::Date(x)) => Ok(SValue::Date(x)),
            Ok(Temporal::Time(x)) => Ok(SValue::Time(x)),
            Ok(Temporal::Duration(x)) => Ok(SValue::Duration(x, false)),
            Err(m) => runtime(m),
        }
    }
}

/// Evaluates `n` with at most `f` nested function calls.
pub open spec fn ev(f: nat, env: Env, n: SNode) -> (Env, SRes)
    decreases f, n, 0nat,
{
    match n {
        SNode::Null => (env, Ok(SValue::Null)),
        SNode::Bool(b) => (env, Ok(SValue::Bool(b))),
        SNode::Number(v) => (
            env,
            match num_parse(v) {
                Ok(x) => Ok(SValue::Number(x)),
                Err(m) => Err(SEvalErr::Decimal(m)),
            },
        ),
        SNode::Str(v) => (
            env,
            if v.len() >= 2 {
                Ok(SValue::Str(v.subrange(1, v.len() - 1)))
            } else {
                runtime("string literal without quotes"@)
            },
        ),
        SNode::Temporal(v) => (env, temporal_literal(v)),
        SNode::Ident(v) => (env, Ok(SValue::Str(v))),
        SNode::Var(name) => (
            env,
            match resolve(env, name) {
                Some(v) => Ok(v),
                None => Err(SEvalErr::VarNotFound),
            },
        ),
        SNode::Neg(x) => {
            let (e1, r) = ev(f, env, *x);
            (
                e1,
                match r {
                    Err(e) => Err(e),
                    Ok(SValue::Number(m)) => Ok(SValue::Number(neg_num(m))),
                    Ok(v) => runtime("cannot neg "@ + kind_name(v)),
                },
            )
        },
        SNode::Binop { op, left, right } => {
            let (e1, r1) = ev(f, env, *left);
            match r1 {
                Err(e) => (e1, Err(e)),
                Ok(lv) => {
                    let (e2, r2) = ev(f, e1, *right);
                    match r2 {
                        Err(e) => (e2, Err(e)),
                        Ok(rv) => (e2, binop_values(op, lv, rv)),
                    }
                },
            }
        },
        SNode::Array(xs) => {
            let (e1, r) = ev_list(f, env, xs);
            (
                e1,
                match r {
                    Err(e) => Err(e),
                    Ok(vs) => Ok(SValue::Array(vs)),
                },
            )
        },
        SNode::MapExpr(items) => ev_items(f, env, items, Seq::empty()),
        SNode::FuncDef { .. } => (env, Ok(SValue::Func(n))),
        SNode::FuncCall { func_ref, args } => {
            let (e1, r1) = ev(f, env, *func_ref);
            match r1 {
                Err(e) => (e1, Err(e)),
                Ok(fv) => call_rest(f, e1, fv, args),
            }
        },
        SNode::IfExpr { condition, then_branch, else_branch } => {
            let (e1, r1) = ev(f, env, *condition);
            match r1 {
                Err(e) => (e1, Err(e)),
                Ok(c) => if truthy(c) {
                    ev(f, e1, *then_branch)
                } else {
                    ev(f, e1, *else_branch)
                },
            }
        },
        SNode::ForExpr { var_name, list_expr, return_expr } => {
            let (e1, r1) = ev(f, env, *list_expr);
            match r1 {
                Err(e) => (e1, Err(e)),
                Ok(SValue::Array(items)) => ev_for(f, e1, var_name, items, *return_expr, Seq::empty()),
                Ok(_) => (e1, runtime("for loop require a list"@)),
            }
        },
        SNode::SomeExpr { var_name, list_expr, filter_expr } => {
            let (e1, r1) = ev(f, env, *list_expr);
            match r1 {
                Err(e) => (e1, Err(e)),
                Ok(SValue::Array(items)) => ev_some(f, e1, var_name, items, *filter_expr),
                Ok(_) => (e1, runtime("for loop require a list"@)),
            }
        },
        SNode::EveryExpr { var_name, list_expr, filter_expr } => {
            let (e1, r1) = ev(f, env, *list_expr);
            match r1 {
                Err(e) => (e1, Err(e)),
                Ok(SValue::Array(items)) => ev_every(
                    f,
                    e1,
                    var_name,
                    items,
                    *filter_expr,
                    Seq::empty(),
                ),
                Ok(_) => (e1, runtime("for loop require a list"@)),
            }
        },
        SNode::ExprList(xs) => ev_seq(f, env, xs, SValue::Null),
        SNode::MultiTests(xs) => ev_tests(f, env, xs),
        _ => (env, runtime("eval not supported "@ + node_text(n))),
    }
}

/// A call of the function value `fv`: its arguments evaluated in order,
/// then the function called with them.
pub open spec fn call_rest(f: nat, env: Env, fv: SValue, args: Seq<SArg>) -> (Env, SRes)
    decreases f, args, 1nat,
{
    let (e2, r2) = ev_args(f, env, args);
    match r2 {
        Err(e) => (e2, Err(e)),
        Ok(vals) => match fv {
            SValue::Native(name, arg_names) => if arg_names.len() > vals.len() {
                (e2, runtime("native func call with too few arguments"@))
            } else {
                native_call(e2, name, arg_names, vals)
            },
            SValue::Func(def) => match def {
                SNode::FuncDef { arg_names, body } => if arg_names.len() > vals.len() {
                    (e2, runtime("func call with too few arguments"@))
                } else if f == 0 {
                    (e2, runtime("call depth exceeded"@))
                } else {
                    let e3 = bind_args(e2.push(Seq::empty()), arg_names, vals);
                    let (e4, r4) = ev((f - 1) as nat, e3, *body);
                    (pop_env(e4), r4)
                },
                _ => (e2, runtime("cannot call non funct "@ + node_text(def))),
            },
            _ => (e2, runtime("cannot call non function "@ + kind_name(fv))),
        },
    }
}

/// The built-in function `name` called with `vals` bound to `arg_names`;
/// `set(name, value)` sets a variable and gives the value.
pub open spec fn native_call(env: Env, name: Seq<char>, arg_names: Seq<Seq<char>>, vals: Seq<SValue>) -> (
    Env,
    SRes,
) {
    if name == "set"@ && arg_names == seq!["name"@, "value"@] {
        match vals[0] {
            SValue::Str(var) => (set_var(env, var, vals[1]), Ok(vals[1])),
            _ => (env, runtime("argument name should be string"@)),
        }
    } else {
        (env, runtime("unknown native function"@))
    }
}

/// The values of the nodes, evaluated in order.
pub open spec fn ev_list(f: nat, env: Env, xs: Seq<SNode>) -> (Env, Result<Seq<SValue>, SEvalErr>)
    decreases f, xs, 0nat,
{
    if xs.len() == 0 {
        (env, Ok(Seq::empty()))
    } else {
        let (e1, r1) = ev(f, env, xs[0]);
        match r1 {
            Err(e) => (e1, Err(e)),
            Ok(v) => {
                let (e2, r2) = ev_list(f, e1, xs.drop_first());
                match r2 {
                    Err(e) => (e2, Err(e)),
                    Ok(vs) => (e2, Ok(seq![v] + vs)),
                }
            },
        }
    }
}

/// The values of the arguments of a call, evaluated in order.
pub open spec fn ev_args(f: nat, env: Env, xs: Seq<SArg>) -> (Env, Result<Seq<SValue>, SEvalErr>)
    decreases f, xs, 0nat,
{
    if xs.len() == 0 {
        (env, Ok(Seq::empty()))
    } else {
        let (e1, r1) = ev(f, env, xs[0].arg);
        match r1 {
            Err(e) => (e1, Err(e)),
            Ok(v) => {
                let (e2, r2) = ev_args(f, e1, xs.drop_first());
                match r2 {
                    Err(e) => (e2, Err(e)),
                    Ok(vs) => (e2, Ok(seq![v] + vs)),
                }
            },
        }
    }
}

/// The map whose entries are those of `m` and `(k, v)`: the value of `k`
/// replaced, or the entry added in the order of the keys.
pub open spec fn map_insert(m: Seq<(Seq<char>, SValue)>, k: Seq<char>, v: SValue) -> Seq<
    (Seq<char>, SValue),
>
    decreases m.len(),
{
    if m.len() == 0 {
        seq![(k, v)]
    } else if m[0].0 == k {
        m.update(0, (k, v))
    } else if str_order(k, m[0].0) < 0 {
        seq![(k, v)] + m
    } else {
        seq![m[0]] + map_insert(m.drop_first(), k, v)
    }
}

proof fn lemma_str_order_antisym(a: Seq<char>, b: Seq<char>)
    ensures
        str_order(b, a) == -str_order(a, b),
    decreases a.len(),
{
    if a.len() > 0 && b.len() > 0 {
        lemma_str_order_antisym(a.drop_first(), b.drop_first());
    }
}

proof fn lemma_str_order_zero(a: Seq<char>, b: Seq<char>)
    ensures
        str_order(a, b) == 0 <==> a == b,
    decreases a.len(),
{
    if a.len() == 0 && b.len() == 0 {
        assert(a =~= b);
    }
    if a.len() > 0 && b.len() > 0 {
        lemma_str_order_zero(a.drop_first(), b.drop_first());
        if (a[0] as u32) == (b[0] as u32) {
            vstd::utf8::char_u32_cast(a[0], a[0] as u32);
            vstd::utf8::char_u32_cast(b[0], b[0] as u32);
            assert(a[0] == b[0]);
        }
        if a[0] == b[0] && a.drop_first() == b.drop_first() {
            assert(a =~= seq![a[0]] + a.drop_first());
            assert(b =~= seq![b[0]] + b.drop_first());
        }
        if a == b {
            assert(a.drop_first() == b.drop_first());
        }
    }
}

proof fn lemma_str_order_trans(a: Seq<char>, b: Seq<char>, c: Seq<char>)
    requires
        str_order(a, b) < 0,
        str_order(b, c) < 0,
    ensures
        str_order(a, c) < 0,
    decreases a.len(),
{
    if a.len() > 0 && b.len() > 0 && c.len() > 0 && (a[0] as u32) == (b[0] as u32) && (b[0]
        as u32) == (c[0] as u32) {
        lemma_str_order_trans(a.drop_first(), b.drop_first(), c.drop_first());
    }
}

/// The keys of `map_insert(m, k, v)` are those of `m` and `k`.
proof fn lemma_map_insert_keys(m: Seq<(Seq<char>, SValue)>, k: Seq<char>, v: SValue)
    ensures
        forall|j: int|
            0 <= j < map_insert(m, k, v).len() ==> (#[trigger] map_insert(m, k, v)[j]).0 == k
                || exists|i: int| 0 <= i < m.len() && m[i].0 == map_insert(m, k, v)[j].0,
    decreases m.len(),
{
    if m.len() > 0 && m[0].0 != k && !(str_order(k, m[0].0) < 0) {
        let rest = m.drop_first();
        lemma_map_insert_keys(rest, k, v);
        let r = map_insert(m, k, v);
        assert forall|j: int| 0 <= j < r.len() implies (#[trigger] r[j]).0 == k || exists|i: int|
            0 <= i < m.len() && m[i].0 == r[j].0 by {
            if j == 0 {
                assert(m[0].0 == r[0].0);
            } else {
                assert(r[j] == map_insert(rest, k, v)[j - 1]);
                if r[j].0 != k {
                    let i = choose|i: int| 0 <= i < rest.len() && rest[i].0 == map_insert(rest, k, v)[j - 1].0;
                    assert(m[i + 1] == rest[i]);
                }
            }
        }
    } else if m.len() > 0 && m[0].0 == k {
        let r = map_insert(m, k, v);
        assert forall|j: int| 0 <= j < r.len() implies (#[trigger] r[j]).0 == k || exists|i: int|
            0 <= i < m.len() && m[i].0 == r[j].0 by {
            if j > 0 {
                assert(m[j].0 == r[j].0);
            }
        }
    } else if m.len() > 0 {
        let r = map_insert(m, k, v);
        assert forall|j: int| 0 <= j < r.len() implies (#[trigger] r[j]).0 == k || exists|i: int|
            0 <= i < m.len() && m[i].0 == r[j].0 by {
            if j > 0 {
                assert(m[j - 1].0 == r[j].0);
            }
        }
    }
}

/// Adding an entry keeps the keys of a map in strictly ascending order.
pub proof fn lemma_map_insert_ascending(m: Seq<(Seq<char>, SValue)>, k: Seq<char>, v: SValue)
    requires
        crate::script::value::keys_ascending(m),
    ensures
        crate::script::value::keys_ascending(map_insert(m, k, v)),
    decreases m.len(),
{
    let r = map_insert(m, k, v);
    if m.len() == 0 {
    } else if m[0].0 == k {
        assert forall|i: int, j: int| 0 <= i < j < r.len() implies str_order(
            #[trigger] r[i].0,
            #[trigger] r[j].0,
        ) < 0 by {
            assert(r[i].0 == m[i].0 && r[j].0 == m[j].0);
        }
    } else if str_order(k, m[0].0) < 0 {
        assert forall|i: int, j: int| 0 <= i < j < r.len() implies str_order(
            #[trigger] r[i].0,
            #[trigger] r[j].0,
        ) < 0 by {
            if i == 0 {
                if j > 1 {
                    assert(str_order(m[0].0, m[j - 1].0) < 0);
                    lemma_str_order_trans(k, m[0].0, m[j - 1].0);
                }
            } else {
                assert(r[i] == m[i - 1] && r[j] == m[j - 1]);
            }
        }
    } else {
        let rest = m.drop_first();
        assert forall|i: int, j: int| 0 <= i < j < rest.len() implies str_order(
            #[trigger] rest[i].0,
            #[trigger] rest[j].0,
        ) < 0 by {
            assert(rest[i] == m[i + 1] && rest[j] == m[j + 1]);
        }
        lemma_map_insert_ascending(rest, k, v);
        lemma_map_insert_keys(rest, k, v);
        lemma_str_order_zero(k, m[0].0);
        lemma_str_order_antisym(k, m[0].0);
        let ri = map_insert(rest, k, v);
        assert forall|i: int, j: int| 0 <= i < j < r.len() implies str_order(
            #[trigger] r[i].0,
            #[trigger] r[j].0,
        ) < 0 by {
            if i == 0 {
                assert(r[j] == ri[j - 1]);
                if ri[j - 1].0 != k {
                    let q = choose|q: int| 0 <= q < rest.len() && rest[q].0 == ri[j - 1].0;
                    assert(rest[q] == m[q + 1]);
                    assert(str_order(m[0].0, m[q + 1].0) < 0);
                }
            } else {
                assert(r[i] == ri[i - 1] && r[j] == ri[j - 1]);
            }
        }
    }
}

/// The items of a map literal, each key given by the printed value of its
/// name, added to `acc`.
pub open spec fn ev_items(f: nat, env: Env, items: Seq<SItem>, acc: Seq<(Seq<char>, SValue)>) -> (
    Env,
    SRes,
)
    decreases f, items, 0nat,
{
    if items.len() == 0 {
        (env, Ok(SValue::Dict(acc)))
    } else {
        let (e1, r1) = ev(f, env, items[0].name);
        match r1 {
            Err(e) => (e1, Err(e)),
            Ok(k) => {
                let (e2, r2) = ev(f, e1, items[0].value);
                match r2 {
                    Err(e) => (e2, Err(e)),
                    Ok(v) => ev_items(f, e2, items.drop_first(), map_insert(acc, value_text(k), v)),
                }
            },
        }
    }
}

/// A `for` loop over `items`: the body evaluated in a new scope where the
/// variable is the item, the results added to `acc`.
pub open spec fn ev_for(
    f: nat,
    env: Env,
    var: Seq<char>,
    items: Seq<SValue>,
    body: SNode,
    acc: Seq<SValue>,
) -> (Env, SRes)
    decreases f, body, items.len(),
{
    if items.len() == 0 {
        (env, Ok(SValue::Array(acc)))
    } else {
        let e1 = set_var(env.push(Seq::empty()), var, items[0]);
        let (e2, r2) = ev(f, e1, body);
        match r2 {
            Err(e) => (pop_env(e2), Err(e)),
            Ok(v) => ev_for(f, pop_env(e2), var, items.drop_first(), body, acc.push(v)),
        }
    }
}

/// `some`: the first item for which the test holds, else null.
pub open spec fn ev_some(f: nat, env: Env, var: Seq<char>, items: Seq<SValue>, body: SNode) -> (
    Env,
    SRes,
)
    decreases f, body, items.len(),
{
    if items.len() == 0 {
        (env, Ok(SValue::Null))
    } else {
        let e1 = set_var(env.push(Seq::empty()), var, items[0]);
        let (e2, r2) = ev(f, e1, body);
        match r2 {
            Err(e) => (pop_env(e2), Err(e)),
            Ok(v) => if truthy(v) {
                (pop_env(e2), Ok(items[0]))
            } else {
                ev_some(f, pop_env(e2), var, items.drop_first(), body)
            },
        }
    }
}

/// `every`: the items for which the test holds, added to `acc`.
pub open spec fn ev_every(
    f: nat,
    env: Env,
    var: Seq<char>,
    items: Seq<SValue>,
    body: SNode,
    acc: Seq<SValue>,
) -> (Env, SRes)
    decreases f, body, items.len(),
{
    if items.len() == 0 {
        (env, Ok(SValue::Array(acc)))
    } else {
        let e1 = set_var(env.push(Seq::empty()), var, items[0]);
        let (e2, r2) = ev(f, e1, body);
        match r2 {
            Err(e) => (pop_env(e2), Err(e)),
            Ok(v) => ev_every(
                f,
                pop_env(e2),
                var,
                items.drop_first(),
                body,
                if truthy(v) {
                    acc.push(items[0])
                } else {
                    acc
                },
            ),
        }
    }
}

/// A list of expressions: the value of the last, null for none.
pub open spec fn ev_seq(f: nat, env: Env, xs: Seq<SNode>, last: SValue) -> (Env, SRes)
    decreases f, xs, 0nat,
{
    if xs.len() == 0 {
        (env, Ok(last))
    } else {
        let (e1, r1) = ev(f, env, xs[0]);
        match r1 {
            Err(e) => (e1, Err(e)),
            Ok(v) => ev_seq(f, e1, xs.drop_first(), v),
        }
    }
}

/// Unary tests: true where one of them holds.
pub open spec fn ev_tests(f: nat, env: Env, xs: Seq<SNode>) -> (Env, SRes)
    decreases f, xs, 0nat,
{
    if xs.len() == 0 {
        (env, Ok(SValue::Bool(false)))
    } else {
        let (e1, r1) = ev(f, env, xs[0]);
        match r1 {
            Err(e) => (e1, Err(e)),
            Ok(v) => if truthy(v) {
                (e1, Ok(SValue::Bool(true)))
            } else {
                ev_tests(f, e1, xs.drop_first())
            },
        }
    }
}

} // verus!
