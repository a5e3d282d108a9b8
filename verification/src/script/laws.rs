//! Laws of evaluation: what a variable reads after it is set, and that
//! evaluating an expression touches no scope but the innermost one, so that
//! a call of a function, or a loop, leaves the caller's scopes as they were.
use crate::script::ast::{SArg, SItem, SNode};
use crate::script::semantics::{
    bind_args, call_rest, ev, ev_args, ev_every, ev_for, ev_items, ev_list, ev_seq, ev_some,
    ev_tests, frame_get, frame_set, pop_env, resolve, set_var, Env, Frame, SEvalErr,
};
use crate::script::value::SValue;
use vstd::prelude::*;

verus! {

/// `after` differs from `before` at most in its innermost scope, and has as
/// many scopes.
pub open spec fn inner_only(before: Env, after: Env) -> bool {
    &&& after.len() == before.len()
    &&& after.drop_last() == before.drop_last()
}

proof fn lemma_frame_set_get(fr: Frame, name: Seq<char>, v: SValue)
    ensures
        frame_get(frame_set(fr, name, v), name) == Some(v),
    decreases fr.len(),
{
    if fr.len() > 0 && fr[0].0 != name {
        let rest = frame_set(fr.drop_first(), name, v);
        lemma_frame_set_get(fr.drop_first(), name, v);
        assert((seq![fr[0]] + rest).drop_first() =~= rest);
    }
}

proof fn lemma_frame_set_other(fr: Frame, name: Seq<char>, other: Seq<char>, v: SValue)
    requires
        other != name,
    ensures
        frame_get(frame_set(fr, name, v), other) == frame_get(fr, other),
    decreases fr.len(),
{
    if fr.len() == 0 {
        let one: Frame = seq![(name, v)];
        assert(one.drop_first() =~= Seq::<(Seq<char>, SValue)>::empty());
        assert(frame_get(one.drop_first(), other) is None);
    } else if fr[0].0 == name {
        assert(fr.update(0, (name, v)).drop_first() =~= fr.drop_first());
        assert(frame_get(fr.update(0, (name, v)), other) == frame_get(fr.drop_first(), other));
    } else {
        let rest = frame_set(fr.drop_first(), name, v);
        lemma_frame_set_other(fr.drop_first(), name, other, v);
        assert((seq![fr[0]] + rest).drop_first() =~= rest);
    }
}

/// A variable reads the value it was last set to.
pub proof fn lemma_set_then_resolve(env: Env, name: Seq<char>, v: SValue)
    ensures
        resolve(set_var(env, name, v), name) == Some(v),
{
    let e = if env.len() == 0 {
        seq![Seq::empty()]
    } else {
        env
    };
    lemma_frame_set_get(e.last(), name, v);
    assert(set_var(env, name, v).last() == frame_set(e.last(), name, v));
}

/// After a variable is set, evaluating it gives the value it was set to.
pub proof fn lemma_set_then_eval(f: nat, env: Env, name: Seq<char>, v: SValue)
    ensures
        ev(f, set_var(env, name, v), SNode::Var(name)).1 == Ok::<SValue, SEvalErr>(v),
{
    lemma_set_then_resolve(env, name, v);
}

/// Setting a variable leaves what every other name reads.
pub proof fn lemma_set_keeps_others(env: Env, name: Seq<char>, other: Seq<char>, v: SValue)
    requires
        other != name,
    ensures
        resolve(set_var(env, name, v), other) == resolve(env, other),
{
    let e = if env.len() == 0 {
        seq![Seq::<(Seq<char>, SValue)>::empty()]
    } else {
        env
    };
    let s = set_var(env, name, v);
    lemma_frame_set_other(e.last(), name, other, v);
    assert(s.drop_last() =~= e.drop_last());
    assert(s.last() == frame_set(e.last(), name, v));
    assert(resolve(s, other) == resolve(e, other));
    if env.len() == 0 {
        assert(e.drop_last() =~= env);
        assert(frame_get(e.last(), other) is None);
        assert(resolve(e, other) == resolve(e.drop_last(), other));
    }
}

proof fn lemma_set_var_inner(env: Env, name: Seq<char>, v: SValue)
    requires
        env.len() > 0,
    ensures
        inner_only(env, set_var(env, name, v)),
{
    assert(set_var(env, name, v).drop_last() =~= env.drop_last());
}

proof fn lemma_pushed_scope(env: Env, name: Seq<char>, v: SValue)
    ensures
        set_var(env.push(Seq::empty()), name, v).len() == env.len() + 1,
        set_var(env.push(Seq::empty()), name, v).drop_last() == env,
{
    assert(set_var(env.push(Seq::empty()), name, v).drop_last() =~= env);
}

proof fn lemma_bind_args_inner(env: Env, names: Seq<Seq<char>>, vals: Seq<SValue>)
    requires
        env.len() > 0,
    ensures
        inner_only(env, bind_args(env, names, vals)),
    decreases names.len(),
{
    if names.len() > 0 {
        lemma_set_var_inner(env, names[0], vals[0]);
        lemma_bind_args_inner(set_var(env, names[0], vals[0]), names.drop_first(), vals.drop_first());
    }
}

/// Evaluating an expression where there is a scope changes at most the
/// innermost scope: the scopes around it, and their number, stay as they
/// were.
pub proof fn lemma_ev_inner(f: nat, env: Env, n: SNode)
    requires
        env.len() > 0,
    ensures
        inner_only(env, ev(f, env, n).0),
    decreases f, n, 0nat,
{
    match n {
        SNode::Neg(x) => {
            lemma_ev_inner(f, env, *x);
        },
        SNode::Binop { op, left, right } => {
            lemma_ev_inner(f, env, *left);
            let (e1, r1) = ev(f, env, *left);
            if r1 is Ok {
                lemma_ev_inner(f, e1, *right);
            }
        },
        SNode::Array(xs) => {
            lemma_ev_list_inner(f, env, xs);
        },
        SNode::MapExpr(items) => {
            lemma_ev_items_inner(f, env, items, Seq::empty());
        },
        SNode::FuncCall { func_ref, args } => {
            lemma_ev_inner(f, env, *func_ref);
            let (e1, r1) = ev(f, env, *func_ref);
            if let Ok(fv) = r1 {
                lemma_call_rest_inner(f, e1, fv, args);
            }
        },
        SNode::IfExpr { condition, then_branch, else_branch } => {
            lemma_ev_inner(f, env, *condition);
            let (e1, r1) = ev(f, env, *condition);
            if r1 is Ok {
                lemma_ev_inner(f, e1, *then_branch);
                lemma_ev_inner(f, e1, *else_branch);
            }
        },
        SNode::ForExpr { var_name, list_expr, return_expr } => {
            lemma_ev_inner(f, env, *list_expr);
            let (e1, r1) = ev(f, env, *list_expr);
            if let Ok(SValue::Array(items)) = r1 {
                lemma_ev_for_inner(f, e1, var_name, items, *return_expr, Seq::empty());
            }
        },
        SNode::SomeExpr { var_name, list_expr, filter_expr } => {
            lemma_ev_inner(f, env, *list_expr);
            let (e1, r1) = ev(f, env, *list_expr);
            if let Ok(SValue::Array(items)) = r1 {
                lemma_ev_some_inner(f, e1, var_name, items, *filter_expr);
            }
        },
        SNode::EveryExpr { var_name, list_expr, filter_expr } => {
            lemma_ev_inner(f, env, *list_expr);
            let (e1, r1) = ev(f, env, *list_expr);
            if let Ok(SValue::Array(items)) = r1 {
                lemma_ev_every_inner(f, e1, var_name, items, *filter_expr, Seq::empty());
            }
        },
        SNode::ExprList(xs) => {
            lemma_ev_seq_inner(f, env, xs, SValue::Null);
        },
        SNode::MultiTests(xs) => {
            lemma_ev_tests_inner(f, env, xs);
        },
        _ => {},
    }
}

/// A call: the arguments may change the innermost scope; the body of a
/// function runs in a scope of its own, which is dropped after it.
pub proof fn lemma_call_rest_inner(f: nat, env: Env, fv: SValue, args: Seq<SArg>)
    requires
        env.len() > 0,
    ensures
        inner_only(env, call_rest(f, env, fv, args).0),
    decreases f, args, 1nat,
{
    lemma_ev_args_inner(f, env, args);
    let (e2, r2) = ev_args(f, env, args);
    if let Ok(vals) = r2 {
        match fv {
            SValue::Native(name, arg_names) => {
                if name == "set"@ && arg_names == seq!["name"@, "value"@] && arg_names.len()
                    <= vals.len() {
                    if let SValue::Str(var) = vals[0] {
                        lemma_set_var_inner(e2, var, vals[1]);
                    }
                }
            },
            SValue::Func(def) => {
                if let SNode::FuncDef { arg_names, body } = def {
                    if arg_names.len() <= vals.len() && f > 0 {
                        let e3 = bind_args(e2.push(Seq::empty()), arg_names, vals);
                        lemma_bind_args_inner(e2.push(Seq::empty()), arg_names, vals);
                        assert(e2.push(Seq::empty()).drop_last() =~= e2);
                        lemma_ev_inner((f - 1) as nat, e3, *body);
                    }
                }
            },
            _ => {},
        }
    }
}

proof fn lemma_function_body_scope(
    f: nat,
    e2: Env,
    arg_names: Seq<Seq<char>>,
    vals: Seq<SValue>,
    body: SNode,
)
    requires
        f > 0,
    ensures
        ({
            let e3 = bind_args(e2.push(Seq::empty()), arg_names, vals);
            pop_env(ev((f - 1) as nat, e3, body).0) == e2
        }),
{
    let e3 = bind_args(e2.push(Seq::empty()), arg_names, vals);
    lemma_bind_args_inner(e2.push(Seq::empty()), arg_names, vals);
    assert(e2.push(Seq::empty()).drop_last() =~= e2);
    lemma_ev_inner((f - 1) as nat, e3, body);
}

pub proof fn lemma_ev_list_inner(f: nat, env: Env, xs: Seq<SNode>)
    requires
        env.len() > 0,
    ensures
        inner_only(env, ev_list(f, env, xs).0),
    decreases f, xs, 0nat,
{
    if xs.len() > 0 {
        lemma_ev_inner(f, env, xs[0]);
        let (e1, r1) = ev(f, env, xs[0]);
        if r1 is Ok {
            lemma_ev_list_inner(f, e1, xs.drop_first());
        }
    }
}

pub proof fn lemma_ev_args_inner(f: nat, env: Env, xs: Seq<SArg>)
    requires
        env.len() > 0,
    ensures
        inner_only(env, ev_args(f, env, xs).0),
    decreases f, xs, 0nat,
{
    if xs.len() > 0 {
        lemma_ev_inner(f, env, xs[0].arg);
        let (e1, r1) = ev(f, env, xs[0].arg);
        if r1 is Ok {
            lemma_ev_args_inner(f, e1, xs.drop_first());
        }
    }
}

pub proof fn lemma_ev_items_inner(
    f: nat,
    env: Env,
    items: Seq<SItem>,
    acc: Seq<(Seq<char>, SValue)>,
)
    requires
        env.len() > 0,
    ensures
        inner_only(env, ev_items(f, env, items, acc).0),
    decreases f, items, 0nat,
{
    if items.len() > 0 {
        lemma_ev_inner(f, env, items[0].name);
        let (e1, r1) = ev(f, env, items[0].name);
        if let Ok(k) = r1 {
            lemma_ev_inner(f, e1, items[0].value);
            let (e2, r2) = ev(f, e1, items[0].value);
            if let Ok(v) = r2 {
                lemma_ev_items_inner(
                    f,
                    e2,
                    items.drop_first(),
                    crate::script::semantics::map_insert(
                        acc,
                        crate::script::value::value_text(k),
                        v,
                    ),
                );
            }
        }
    }
}

/// A `for` loop gives back the scopes exactly as it found them: each pass
/// runs in a scope of its own.
pub proof fn lemma_ev_for_inner(
    f: nat,
    env: Env,
    var: Seq<char>,
    items: Seq<SValue>,
    body: SNode,
    acc: Seq<SValue>,
)
    ensures
        ev_for(f, env, var, items, body, acc).0 == env,
    decreases f, body, items.len(),
{
    if items.len() > 0 {
        let e1 = set_var(env.push(Seq::empty()), var, items[0]);
        lemma_pushed_scope(env, var, items[0]);
        lemma_ev_inner(f, e1, body);
        let (e2, r2) = ev(f, e1, body);
        if let Ok(v) = r2 {
            lemma_ev_for_inner(f, pop_env(e2), var, items.drop_first(), body, acc.push(v));
        }
    }
}

pub proof fn lemma_ev_some_inner(f: nat, env: Env, var: Seq<char>, items: Seq<SValue>, body: SNode)
    ensures
        ev_some(f, env, var, items, body).0 == env,
    decreases f, body, items.len(),
{
    if items.len() > 0 {
        let e1 = set_var(env.push(Seq::empty()), var, items[0]);
        lemma_pushed_scope(env, var, items[0]);
        lemma_ev_inner(f, e1, body);
        let (e2, r2) = ev(f, e1, body);
        if r2 is Ok {
            lemma_ev_some_inner(f, pop_env(e2), var, items.drop_first(), body);
        }
    }
}

pub proof fn lemma_ev_every_inner(
    f: nat,
    env: Env,
    var: Seq<char>,
    items: Seq<SValue>,
    body: SNode,
    acc: Seq<SValue>,
)
    ensures
        ev_every(f, env, var, items, body, acc).0 == env,
    decreases f, body, items.len(),
{
    if items.len() > 0 {
        let e1 = set_var(env.push(Seq::empty()), var, items[0]);
        lemma_pushed_scope(env, var, items[0]);
        lemma_ev_inner(f, e1, body);
        let (e2, r2) = ev(f, e1, body);
        if let Ok(v) = r2 {
            lemma_ev_every_inner(
                f,
                pop_env(e2),
                var,
                items.drop_first(),
                body,
                if crate::script::value::truthy(v) {
                    acc.push(items[0])
                } else {
                    acc
                },
            );
        }
    }
}

pub proof fn lemma_ev_seq_inner(f: nat, env: Env, xs: Seq<SNode>, last: SValue)
    requires
        env.len() > 0,
    ensures
        inner_only(env, ev_seq(f, env, xs, last).0),
    decreases f, xs, 0nat,
{
    if xs.len() > 0 {
        lemma_ev_inner(f, env, xs[0]);
        let (e1, r1) = ev(f, env, xs[0]);
        if let Ok(v) = r1 {
            lemma_ev_seq_inner(f, e1, xs.drop_first(), v);
        }
    }
}

pub proof fn lemma_ev_tests_inner(f: nat, env: Env, xs: Seq<SNode>)
    requires
        env.len() > 0,
    ensures
        inner_only(env, ev_tests(f, env, xs).0),
    decreases f, xs, 0nat,
{
    if xs.len() > 0 {
        lemma_ev_inner(f, env, xs[0]);
        let (e1, r1) = ev(f, env, xs[0]);
        if r1 is Ok {
            lemma_ev_tests_inner(f, e1, xs.drop_first());
        }
    }
}

/// Calling a function defined in the script cannot change the caller's
/// variables: after the call the scopes are as the arguments left them.
pub proof fn lemma_function_call_keeps_scopes(
    f: nat,
    env: Env,
    arg_names: Seq<Seq<char>>,
    body: SNode,
    args: Seq<SArg>,
)
    requires
        env.len() > 0,
    ensures
        call_rest(f, env, SValue::Func(SNode::FuncDef { arg_names, body: Box::new(body) }), args).0
            == ev_args(f, env, args).0,
{
    let (e2, r2) = ev_args(f, env, args);
    if let Ok(vals) = r2 {
        if arg_names.len() <= vals.len() && f > 0 {
            lemma_function_body_scope(f, e2, arg_names, vals, body);
        }
    }
}

} // verus!
