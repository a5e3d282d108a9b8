//! The grammar of FEEL scripts, as functions from a lexer state to a syntax
//! tree and the state after it.  The parser of `parse.rs` computes them.
use crate::script::ast::{SArg, SItem, SNode};
use crate::scan::str_in;
use crate::script::token::script_next;
use vstd::prelude::*;

verus! {

/// A token as the grammar sees it.
pub struct SToken {
    pub kind: Seq<char>,
    pub value: Seq<char>,
}

/// Lexer state: characters read so far, and the current token.
pub struct PState {
    pub off: int,
    pub cur: Option<SToken>,
}

/// A parse error: a message of the parser, or one of the lexer.
pub enum SErr {
    Parse(Seq<char>),
    Scan(Seq<char>),
}

pub type PRes = Result<(SNode, PState), SErr>;

/// Input left to read, counting the current token as one more step where it
/// is not the empty end token.
pub open spec fn rank(s: Seq<char>, st: PState) -> int {
    2 * (s.len() - st.off) + if has_value(st) {
        1int
    } else {
        0int
    }
}

/// Whether the current token has a non-empty text.
pub open spec fn has_value(st: PState) -> bool {
    st.cur is Some && st.cur->0.value.len() > 0
}

/// Whether a call from a rule at `(st, tier)` to one at `(st2, tier2)` goes
/// down the order `(rank, tier)`.
pub open spec fn below(s: Seq<char>, st2: PState, tier2: int, st: PState, tier: int) -> bool {
    &&& 0 <= tier2
    &&& 0 <= rank(s, st2)
    &&& (rank(s, st2) < rank(s, st) || (rank(s, st2) == rank(s, st) && tier2 < tier))
}

/// Reads the next token (the lexer's `next_token`).
pub open spec fn step(s: Seq<char>, st: PState) -> Result<PState, SErr> {
    match script_next(s, st.off) {
        Ok((k, a, b)) => Ok(PState { off: b, cur: Some(SToken { kind: k, value: s.subrange(a, b) }) }),
        Err(_) => Err(SErr::Scan("fail to find token"@)),
    }
}

pub open spec fn is_kind(st: PState, k: Seq<char>) -> bool {
    st.cur is Some && st.cur->0.kind == k
}

pub open spec fn is_kw(st: PState, kw: Seq<char>) -> bool {
    st.cur is Some && st.cur->0.kind == "keyword"@ && st.cur->0.value == kw
}

pub open spec fn unexpect(st: PState, expects: Seq<char>) -> SErr {
    SErr::Parse("unexpected token "@ + st.cur->0.kind + ", expect "@ + expects)
}

pub open spec fn unexpect_keyword(st: PState, expects: Seq<char>) -> SErr {
    SErr::Parse("unexpected keyword "@ + st.cur->0.value + ", expect "@ + expects)
}

/// The error where the rule of a whole expression read no input.
pub open spec fn stalled() -> SErr {
    SErr::Parse("expression consumed no input"@)
}

pub open spec fn is_compare_op(st: PState) -> bool {
    is_kind(st, ">"@) || is_kind(st, ">="@) || is_kind(st, "<"@) || is_kind(st, "<="@) || is_kind(
        st,
        "!="@,
    ) || is_kind(st, "="@)
}

/// Whether the current token is an operator of binary level `lvl`:
/// 6 `in`, 5 `or`, 4 `and`, 3 comparisons, 2 `+ -`, 1 `* / %`.
pub open spec fn level_op(st: PState, lvl: int) -> bool {
    if lvl == 6 {
        is_kw(st, "in"@)
    } else if lvl == 5 {
        is_kw(st, "or"@)
    } else if lvl == 4 {
        is_kw(st, "and"@)
    } else if lvl == 3 {
        is_compare_op(st)
    } else if lvl == 2 {
        is_kind(st, "+"@) || is_kind(st, "-"@)
    } else {
        is_kind(st, "*"@) || is_kind(st, "/"@) || is_kind(st, "%"@)
    }
}

/// A whole script: expressions and unary tests separated by `;`.
pub open spec fn g_parse(s: Seq<char>) -> Result<SNode, SErr> {
    match step(s, PState { off: 0, cur: None }) {
        Err(e) => Err(e),
        Ok(st) => g_top(s, Seq::empty(), st),
    }
}

pub open spec fn g_top(s: Seq<char>, exprs: Seq<SNode>, st: PState) -> Result<SNode, SErr>
    decreases rank(s, st), 40int,
{
    if is_kind(st, "eof"@) {
        if exprs.len() == 1 {
            Ok(exprs[0])
        } else {
            Ok(SNode::ExprList(exprs))
        }
    } else if is_kind(st, ";"@) {
        match step(s, st) {
            Err(e) => Err(e),
            Ok(st1) => if below(s, st1, 40, st, 40) {
                g_top(s, exprs, st1)
            } else {
                Err(stalled())
            },
        }
    } else {
        match g_multi_tests(s, st) {
            Err(e) => Err(e),
            Ok((n, st1)) => if below(s, st1, 40, st, 40) {
                g_top(s, exprs.push(n), st1)
            } else {
                Err(stalled())
            },
        }
    }
}

/// A unary test `op expr`, tested on `?`, or an expression.
pub open spec fn g_test(s: Seq<char>, st: PState) -> PRes
    decreases rank(s, st), 38int,
{
    if is_compare_op(st) {
        let op = st.cur->0.kind;
        match step(s, st) {
            Err(e) => Err(e),
            Ok(st1) => if below(s, st1, 24, st, 38) {
                match g_expression(s, st1) {
                    Err(e) => Err(e),
                    Ok((right, st2)) => Ok(
                        (
                            SNode::Binop {
                                op,
                                left: Box::new(SNode::Var("?"@)),
                                right: Box::new(right),
                            },
                            st2,
                        ),
                    ),
                }
            } else {
                Err(stalled())
            },
        }
    } else {
        g_expression(s, st)
    }
}

/// Tests separated by `,`.
pub open spec fn g_multi_tests(s: Seq<char>, st: PState) -> PRes
    decreases rank(s, st), 39int,
{
    match g_test(s, st) {
        Err(e) => Err(e),
        Ok((first, st1)) => if is_kind(st1, ","@) {
            if below(s, st1, 37, st, 39) {
                g_tests_rest(s, seq![first], st1)
            } else {
                Err(stalled())
            }
        } else {
            Ok((first, st1))
        },
    }
}

pub open spec fn g_tests_rest(s: Seq<char>, elems: Seq<SNode>, st: PState) -> PRes
    decreases rank(s, st), 37int,
{
    if is_kind(st, ","@) {
        match step(s, st) {
            Err(e) => Err(e),
            Ok(st1) => if below(s, st1, 38, st, 37) {
                match g_test(s, st1) {
                    Err(e) => Err(e),
                    Ok((n, st2)) => if below(s, st2, 37, st, 37) {
                        g_tests_rest(s, elems.push(n), st2)
                    } else {
                        Err(stalled())
                    },
                }
            } else {
                Err(stalled())
            },
        }
    } else {
        Ok((SNode::MultiTests(elems), st))
    }
}

pub open spec fn g_expression(s: Seq<char>, st: PState) -> PRes
    decreases rank(s, st), 24int,
{
    g_level(s, st, 6)
}

/// Binary operators of level `lvl` (see `level_op`), left associative.
pub open spec fn g_level(s: Seq<char>, st: PState, lvl: nat) -> PRes
    decreases rank(s, st), 2 * lvl + 11,
{
    if lvl == 0 || lvl > 6 {
        g_postfix(s, st)
    } else {
        match g_level(s, st, (lvl - 1) as nat) {
            Err(e) => Err(e),
            Ok((left, st1)) => if below(s, st1, 2 * lvl as int + 10, st, 2 * lvl as int + 11) {
                g_level_rest(s, left, st1, lvl)
            } else {
                Err(stalled())
            },
        }
    }
}

pub open spec fn g_level_rest(s: Seq<char>, left: SNode, st: PState, lvl: nat) -> PRes
    decreases rank(s, st), 2 * lvl + 10,
{
    if 1 <= lvl <= 6 && level_op(st, lvl as int) {
        let op = st.cur->0.value;
        match step(s, st) {
            Err(e) => Err(e),
            Ok(st1) => if below(s, st1, 2 * lvl as int + 9, st, 2 * lvl as int + 10) {
                match g_level(s, st1, (lvl - 1) as nat) {
                    Err(e) => Err(e),
                    Ok((right, st2)) => if below(s, st2, 2 * lvl as int + 10, st, 2 * lvl as int + 10) {
                        g_level_rest(
                            s,
                            SNode::Binop { op, left: Box::new(left), right: Box::new(right) },
                            st2,
                            lvl,
                        )
                    } else {
                        Err(stalled())
                    },
                }
            } else {
                Err(stalled())
            },
        }
    } else {
        Ok((left, st))
    }
}

/// A single element followed by calls, indexing and attribute access.
pub open spec fn g_postfix(s: Seq<char>, st: PState) -> PRes
    decreases rank(s, st), 10int,
{
    match g_single(s, st) {
        Err(e) => Err(e),
        Ok((n, st1)) => if below(s, st1, 9, st, 10) {
            g_postfix_rest(s, n, st1)
        } else {
            Err(stalled())
        },
    }
}

pub open spec fn g_postfix_rest(s: Seq<char>, node: SNode, st: PState) -> PRes
    decreases rank(s, st), 9int,
{
    if is_kind(st, "("@) {
        match g_call_rest(s, node, st) {
            Err(e) => Err(e),
            Ok((n, st1)) => if below(s, st1, 9, st, 9) {
                g_postfix_rest(s, n, st1)
            } else {
                Err(stalled())
            },
        }
    } else if is_kind(st, "["@) {
        match step(s, st) {
            Err(e) => Err(e),
            Ok(st1) => if below(s, st1, 24, st, 9) {
                match g_expression(s, st1) {
                    Err(e) => Err(e),
                    Ok((at, st2)) => if !is_kind(st2, "]"@) {
                        Err(unexpect(st2, "]"@))
                    } else {
                        match step(s, st2) {
                            Err(e) => Err(e),
                            Ok(st3) => if below(s, st3, 9, st, 9) {
                                g_postfix_rest(
                                    s,
                                    SNode::Binop {
                                        op: "[]"@,
                                        left: Box::new(node),
                                        right: Box::new(at),
                                    },
                                    st3,
                                )
                            } else {
                                Err(stalled())
                            },
                        }
                    },
                }
            } else {
                Err(stalled())
            },
        }
    } else if is_kind(st, "."@) {
        match step(s, st) {
            Err(e) => Err(e),
            Ok(st1) => if below(s, st1, 1, st, 9) {
                match g_name(s, st1, Seq::empty(), Seq::empty()) {
                    Err(e) => Err(e),
                    Ok((attr, st2)) => if below(s, st2, 9, st, 9) {
                        g_postfix_rest(
                            s,
                            SNode::DotOp { left: Box::new(node), attr: name_of(attr) },
                            st2,
                        )
                    } else {
                        Err(stalled())
                    },
                }
            } else {
                Err(stalled())
            },
        }
    } else {
        Ok((node, st))
    }
}

/// The argument list of a call, after its `(`.
pub open spec fn g_call_rest(s: Seq<char>, func: SNode, st: PState) -> PRes
    decreases rank(s, st), 8int,
{
    match step(s, st) {
        Err(e) => Err(e),
        Ok(st1) => if below(s, st1, 26, st, 8) {
            match g_args(s, Seq::empty(), st1) {
                Err(e) => Err(e),
                Ok((args, st2)) => Ok(
                    (SNode::FuncCall { func_ref: Box::new(func), args }, st2),
                ),
            }
        } else {
            Err(stalled())
        },
    }
}

pub open spec fn g_args(s: Seq<char>, args: Seq<SArg>, st: PState) -> Result<
    (Seq<SArg>, PState),
    SErr,
>
    decreases rank(s, st), 26int,
{
    if is_kind(st, ")"@) {
        match step(s, st) {
            Err(e) => Err(e),
            Ok(st1) => Ok((args, st1)),
        }
    } else {
        match g_arg(s, st) {
            Err(e) => Err(e),
            Ok((a, st1)) => if is_kind(st1, ","@) {
                match step(s, st1) {
                    Err(e) => Err(e),
                    Ok(st2) => if below(s, st2, 26, st, 26) {
                        g_args(s, args.push(a), st2)
                    } else {
                        Err(stalled())
                    },
                }
            } else if !is_kind(st1, ")"@) {
                Err(unexpect(st1, ") and ,"@))
            } else {
                match step(s, st1) {
                    Err(e) => Err(e),
                    Ok(st2) => Ok((args.push(a), st2)),
                }
            },
        }
    }
}

/// An argument of a call: an expression, or `name: expression`.
pub open spec fn g_arg(s: Seq<char>, st: PState) -> Result<(SArg, PState), SErr>
    decreases rank(s, st), 25int,
{
    match g_expression(s, st) {
        Err(e) => Err(e),
        Ok((arg, st1)) => if is_kind(st1, ":"@) {
            match step(s, st1) {
                Err(e) => Err(e),
                Ok(st2) => match arg {
                    SNode::Var(name) => match step(s, st2) {
                        Err(e) => Err(e),
                        Ok(st3) => if below(s, st3, 24, st, 25) {
                            match g_expression(s, st3) {
                                Err(e) => Err(e),
                                Ok((v, st4)) => Ok((SArg { name, arg: v }, st4)),
                            }
                        } else {
                            Err(stalled())
                        },
                    },
                    _ => Err(unexpect(st2, "'var'"@)),
                },
            }
        } else {
            Ok((SArg { name: Seq::empty(), arg }, st1))
        },
    }
}

/// Names and keywords joined by single spaces; stops at the keywords `stop`.
/// Gives the words read, in order.
pub open spec fn g_name(s: Seq<char>, st: PState, stop: Seq<&str>, words: Seq<Seq<char>>) -> Result<
    (Seq<Seq<char>>, PState),
    SErr,
>
    decreases rank(s, st), 1int,
{
    if (is_kind(st, "name"@) || is_kind(st, "keyword"@)) && !(is_kind(st, "keyword"@)
        && str_in(stop, st.cur->0.value)) {
        match step(s, st) {
            Err(e) => Err(e),
            Ok(st1) => if below(s, st1, 1, st, 1) {
                g_name(s, st1, stop, words.push(st.cur->0.value))
            } else {
                Err(stalled())
            },
        }
    } else if words.len() > 0 {
        Ok((words, st))
    } else {
        Err(unexpect(st, "names"@))
    }
}

/// Words joined by single spaces.
pub open spec fn name_of(words: Seq<Seq<char>>) -> Seq<char>
    decreases words.len(),
{
    if words.len() == 0 {
        Seq::empty()
    } else if words.len() == 1 {
        words[0]
    } else {
        name_of(words.subrange(0, words.len() - 1)) + " "@ + words[words.len() - 1]
    }
}

/// A token read as a leaf of the tree.
pub open spec fn g_leaf(s: Seq<char>, st: PState, n: SNode) -> PRes {
    match step(s, st) {
        Err(e) => Err(e),
        Ok(st1) => Ok((n, st1)),
    }
}

/// A single element: literal, name, parenthesized expression, range, list,
/// map, `?`, or a keyword construct.
pub open spec fn g_single(s: Seq<char>, st: PState) -> PRes
    decreases rank(s, st), 8int,
{
    let v = st.cur->0.value;
    if is_kind(st, "number"@) {
        g_leaf(s, st, SNode::Number(v))
    } else if is_kind(st, "name"@) {
        g_leaf(s, st, SNode::Var(v))
    } else if is_kind(st, "string"@) {
        g_leaf(s, st, SNode::Str(v))
    } else if is_kind(st, "temporal"@) {
        g_leaf(s, st, SNode::Temporal(v))
    } else if is_kind(st, "-"@) {
        g_neg(s, st)
    } else if is_kind(st, "{"@) {
        g_map(s, st)
    } else if is_kind(st, "("@) {
        g_bracket(s, st)
    } else if is_kind(st, "["@) {
        g_bracket_list(s, st)
    } else if is_kind(st, "?"@) {
        Ok((SNode::Var("?"@), st))
    } else if is_kind(st, "keyword"@) {
        if v == "true"@ {
            g_leaf(s, st, SNode::Bool(true))
        } else if v == "false"@ {
            g_leaf(s, st, SNode::Bool(false))
        } else if v == "null"@ {
            g_leaf(s, st, SNode::Null)
        } else if v == "if"@ {
            g_if(s, st)
        } else if v == "for"@ {
            g_for(s, st)
        } else if v == "some"@ || v == "every"@ {
            g_quantified(s, st)
        } else if v == "function"@ {
            g_function(s, st)
        } else {
            Err(unexpect_keyword(st, "true, false"@))
        }
    } else {
        Err(unexpect(st, "name, number"@))
    }
}

pub open spec fn g_neg(s: Seq<char>, st: PState) -> PRes
    decreases rank(s, st), 7int,
{
    match step(s, st) {
        Err(e) => Err(e),
        Ok(st1) => if below(s, st1, 24, st, 7) {
            match g_expression(s, st1) {
                Err(e) => Err(e),
                Ok((v, st2)) => Ok((SNode::Neg(Box::new(v)), st2)),
            }
        } else {
            Err(stalled())
        },
    }
}

pub open spec fn g_map(s: Seq<char>, st: PState) -> PRes
    decreases rank(s, st), 7int,
{
    match step(s, st) {
        Err(e) => Err(e),
        Ok(st1) => if below(s, st1, 6, st, 7) {
            match g_map_items(s, Seq::empty(), st1) {
                Err(e) => Err(e),
                Ok((items, st2)) => Ok((SNode::MapExpr(items), st2)),
            }
        } else {
            Err(stalled())
        },
    }
}

pub open spec fn g_map_items(s: Seq<char>, items: Seq<SItem>, st: PState) -> Result<
    (Seq<SItem>, PState),
    SErr,
>
    decreases rank(s, st), 6int,
{
    if is_kind(st, "}"@) {
        match step(s, st) {
            Err(e) => Err(e),
            Ok(st1) => Ok((items, st1)),
        }
    } else {
        match g_map_item(s, st) {
            Err(e) => Err(e),
            Ok((item, st1)) => {
                let items2 = items.push(item);
                if is_kind(st1, ","@) {
                    match step(s, st1) {
                        Err(e) => Err(e),
                        Ok(st2) => if below(s, st2, 6, st, 6) {
                            g_map_items(s, items2, st2)
                        } else {
                            Err(stalled())
                        },
                    }
                } else if !is_kind(st1, "}"@) {
                    Err(unexpect(st1, "'}', ','"@))
                } else {
                    match step(s, st1) {
                        Err(e) => Err(e),
                        Ok(st2) => Ok((items2, st2)),
                    }
                }
            },
        }
    }
}

/// One item `key: value` of a map.
pub open spec fn g_map_item(s: Seq<char>, st: PState) -> Result<(SItem, PState), SErr>
    decreases rank(s, st), 5int,
{
    match g_map_key(s, st) {
        Err(e) => Err(e),
        Ok((key, st1)) => if !is_kind(st1, ":"@) {
            Err(unexpect(st1, ":"@))
        } else {
            match step(s, st1) {
                Err(e) => Err(e),
                Ok(st2) => if below(s, st2, 24, st, 5) {
                    match g_expression(s, st2) {
                        Err(e) => Err(e),
                        Ok((value, st3)) => Ok((SItem { name: key, value }, st3)),
                    }
                } else {
                    Err(stalled())
                },
            }
        },
    }
}

pub open spec fn g_map_key(s: Seq<char>, st: PState) -> PRes
    decreases rank(s, st), 4int,
{
    if is_kind(st, "name"@) {
        match g_name(s, st, Seq::empty(), Seq::empty()) {
            Err(e) => Err(e),
            Ok((words, st1)) => Ok((SNode::Ident(name_of(words)), st1)),
        }
    } else if is_kind(st, "string"@) {
        g_leaf(s, st, SNode::Str(st.cur->0.value))
    } else {
        Err(unexpect(st, "name or string"@))
    }
}

/// The end of a range whose start is read: `end)` or `end]`.
pub open spec fn g_range_end(s: Seq<char>, start_open: bool, start: SNode, st: PState) -> PRes
    decreases rank(s, st), 25int,
{
    match g_expression(s, st) {
        Err(e) => Err(e),
        Ok((end, st1)) => if is_kind(st1, ")"@) || is_kind(st1, "]"@) {
            let end_open = is_kind(st1, ")"@);
            match step(s, st1) {
                Err(e) => Err(e),
                Ok(st2) => Ok(
                    (
                        SNode::Range {
                            start_open,
                            start: Box::new(start),
                            end_open,
                            end: Box::new(end),
                        },
                        st2,
                    ),
                ),
            }
        } else {
            Err(unexpect(st1, "')', ']'"@))
        },
    }
}

/// `( expr )` or an open-start range `( start .. end`.
pub open spec fn g_bracket(s: Seq<char>, st: PState) -> PRes
    decreases rank(s, st), 7int,
{
    match step(s, st) {
        Err(e) => Err(e),
        Ok(st1) => if below(s, st1, 24, st, 7) {
            match g_expression(s, st1) {
                Err(e) => Err(e),
                Ok((a, st2)) => if is_kind(st2, ".."@) {
                    match step(s, st2) {
                        Err(e) => Err(e),
                        Ok(st3) => if below(s, st3, 25, st, 7) {
                            g_range_end(s, true, a, st3)
                        } else {
                            Err(stalled())
                        },
                    }
                } else if is_kind(st2, ")"@) {
                    match step(s, st2) {
                        Err(e) => Err(e),
                        Ok(st3) => Ok((a, st3)),
                    }
                } else {
                    Err(unexpect(st2, "')', '..'"@))
                },
            }
        } else {
            Err(stalled())
        },
    }
}

/// `[ ]`, a list `[a, b, ...]`, or a closed-start range `[ start .. end`.
pub open spec fn g_bracket_list(s: Seq<char>, st: PState) -> PRes
    decreases rank(s, st), 7int,
{
    match step(s, st) {
        Err(e) => Err(e),
        Ok(st1) => if is_kind(st1, "]"@) {
            match step(s, st1) {
                Err(e) => Err(e),
                Ok(st2) => Ok((SNode::Array(Seq::empty()), st2)),
            }
        } else if below(s, st1, 24, st, 7) {
            match g_expression(s, st1) {
                Err(e) => Err(e),
                Ok((a, st2)) => if is_kind(st2, ","@) || is_kind(st2, "]"@) {
                    if below(s, st2, 3, st, 7) {
                        g_list_rest(s, seq![a], st2)
                    } else {
                        Err(stalled())
                    }
                } else if !is_kind(st2, ".."@) {
                    Err(unexpect(st2, "'..'"@))
                } else {
                    match step(s, st2) {
                        Err(e) => Err(e),
                        Ok(st3) => if below(s, st3, 25, st, 7) {
                            g_range_end(s, false, a, st3)
                        } else {
                            Err(stalled())
                        },
                    }
                },
            }
        } else {
            Err(stalled())
        },
    }
}

pub open spec fn g_list_rest(s: Seq<char>, elems: Seq<SNode>, st: PState) -> PRes
    decreases rank(s, st), 3int,
{
    if is_kind(st, ","@) {
        match step(s, st) {
            Err(e) => Err(e),
            Ok(st1) => if below(s, st1, 24, st, 3) {
                match g_expression(s, st1) {
                    Err(e) => Err(e),
                    Ok((n, st2)) => if below(s, st2, 3, st, 3) {
                        g_list_rest(s, elems.push(n), st2)
                    } else {
                        Err(stalled())
                    },
                }
            } else {
                Err(stalled())
            },
        }
    } else if !is_kind(st, "]"@) {
        Err(unexpect(st, "']'"@))
    } else {
        match step(s, st) {
            Err(e) => Err(e),
            Ok(st1) => Ok((SNode::Array(elems), st1)),
        }
    }
}

/// `if c then a else b`.
pub open spec fn g_if(s: Seq<char>, st: PState) -> PRes
    decreases rank(s, st), 7int,
{
    match step(s, st) {
        Err(e) => Err(e),
        Ok(st1) => if below(s, st1, 24, st, 7) {
            match g_expression(s, st1) {
                Err(e) => Err(e),
                Ok((c, st2)) => if !is_kw(st2, "then"@) {
                    Err(unexpect_keyword(st2, "then"@))
                } else {
                    match step(s, st2) {
                        Err(e) => Err(e),
                        Ok(st3) => if below(s, st3, 24, st, 7) {
                            match g_expression(s, st3) {
                                Err(e) => Err(e),
                                Ok((t, st4)) => if !is_kw(st4, "else"@) {
                                    Err(unexpect_keyword(st4, "else"@))
                                } else {
                                    match step(s, st4) {
                                        Err(e) => Err(e),
                                        Ok(st5) => if below(s, st5, 24, st, 7) {
                                            match g_expression(s, st5) {
                                                Err(e) => Err(e),
                                                Ok((e2, st6)) => Ok(
                                                    (
                                                        SNode::IfExpr {
                                                            condition: Box::new(c),
                                                            then_branch: Box::new(t),
                                                            else_branch: Box::new(e2),
                                                        },
                                                        st6,
                                                    ),
                                                ),
                                            }
                                        } else {
                                            Err(stalled())
                                        },
                                    }
                                },
                            }
                        } else {
                            Err(stalled())
                        },
                    }
                },
            }
        } else {
            Err(stalled())
        },
    }
}

/// `for name in list, ... return expr`; the part after `,` is read as a
/// further `for` expression.
pub open spec fn g_for(s: Seq<char>, st: PState) -> PRes
    decreases rank(s, st), 7int,
{
    match step(s, st) {
        Err(e) => Err(e),
        Ok(st1) => if below(s, st1, 1, st, 7) {
            match g_name(s, st1, seq!["in", "for"], Seq::empty()) {
                Err(e) => Err(e),
                Ok((words, st2)) => if !is_kw(st2, "in"@) {
                    Err(unexpect_keyword(st2, "in"@))
                } else {
                    match step(s, st2) {
                        Err(e) => Err(e),
                        Ok(st3) => if below(s, st3, 24, st, 7) {
                            match g_expression(s, st3) {
                                Err(e) => Err(e),
                                Ok((list, st4)) => if is_kind(st4, ","@) {
                                    if below(s, st4, 7, st, 7) {
                                        match g_for(s, st4) {
                                            Err(e) => Err(e),
                                            Ok((ret, st5)) => Ok(
                                                (
                                                    SNode::ForExpr {
                                                        var_name: name_of(words),
                                                        list_expr: Box::new(list),
                                                        return_expr: Box::new(ret),
                                                    },
                                                    st5,
                                                ),
                                            ),
                                        }
                                    } else {
                                        Err(stalled())
                                    }
                                } else if !is_kw(st4, "return"@) {
                                    Err(unexpect_keyword(st4, "return"@))
                                } else {
                                    match step(s, st4) {
                                        Err(e) => Err(e),
                                        Ok(st5) => if below(s, st5, 24, st, 7) {
                                            match g_expression(s, st5) {
                                                Err(e) => Err(e),
                                                Ok((ret, st6)) => Ok(
                                                    (
                                                        SNode::ForExpr {
                                                            var_name: name_of(words),
                                                            list_expr: Box::new(list),
                                                            return_expr: Box::new(ret),
                                                        },
                                                        st6,
                                                    ),
                                                ),
                                            }
                                        } else {
                                            Err(stalled())
                                        },
                                    }
                                },
                            }
                        } else {
                            Err(stalled())
                        },
                    }
                },
            }
        } else {
            Err(stalled())
        },
    }
}

/// `some name in list satisfies test` or `every ...`.
pub open spec fn g_quantified(s: Seq<char>, st: PState) -> PRes
    decreases rank(s, st), 7int,
{
    let cmd = st.cur->0.value;
    match step(s, st) {
        Err(e) => Err(e),
        Ok(st1) => if below(s, st1, 1, st, 7) {
            match g_name(s, st1, seq!["in"], Seq::empty()) {
                Err(e) => Err(e),
                Ok((words, st2)) => if !is_kw(st2, "in"@) {
                    Err(unexpect_keyword(st2, "in"@))
                } else {
                    match step(s, st2) {
                        Err(e) => Err(e),
                        Ok(st3) => if below(s, st3, 24, st, 7) {
                            match g_expression(s, st3) {
                                Err(e) => Err(e),
                                Ok((list, st4)) => if !is_kw(st4, "satisfies"@) {
                                    Err(unexpect_keyword(st4, "satisfies"@))
                                } else {
                                    match step(s, st4) {
                                        Err(e) => Err(e),
                                        Ok(st5) => if below(s, st5, 24, st, 7) {
                                            match g_expression(s, st5) {
                                                Err(e) => Err(e),
                                                Ok((f, st6)) => Ok(
                                                    (
                                                        if cmd == "some"@ {
                                                            SNode::SomeExpr {
                                                                var_name: name_of(words),
                                                                list_expr: Box::new(list),
                                                                filter_expr: Box::new(f),
                                                            }
                                                        } else {
                                                            SNode::EveryExpr {
                                                                var_name: name_of(words),
                                                                list_expr: Box::new(list),
                                                                filter_expr: Box::new(f),
                                                            }
                                                        },
                                                        st6,
                                                    ),
                                                ),
                                            }
                                        } else {
                                            Err(stalled())
                                        },
                                    }
                                },
                            }
                        } else {
                            Err(stalled())
                        },
                    }
                },
            }
        } else {
            Err(stalled())
        },
    }
}

/// `function(a, b, ...) body`.
pub open spec fn g_function(s: Seq<char>, st: PState) -> PRes
    decreases rank(s, st), 7int,
{
    match step(s, st) {
        Err(e) => Err(e),
        Ok(st1) => if !is_kind(st1, "("@) {
            Err(unexpect(st1, "'('"@))
        } else {
            match step(s, st1) {
                Err(e) => Err(e),
                Ok(st2) => if below(s, st2, 6, st, 7) {
                    match g_params(s, Seq::empty(), st2) {
                        Err(e) => Err(e),
                        Ok((names, st3)) => if below(s, st3, 24, st, 7) {
                            match g_expression(s, st3) {
                                Err(e) => Err(e),
                                Ok((body, st4)) => Ok(
                                    (SNode::FuncDef { arg_names: names, body: Box::new(body) }, st4),
                                ),
                            }
                        } else {
                            Err(stalled())
                        },
                    }
                } else {
                    Err(stalled())
                },
            }
        },
    }
}

/// The parameter names of a function definition, through its `)`.
pub open spec fn g_params(s: Seq<char>, names: Seq<Seq<char>>, st: PState) -> Result<
    (Seq<Seq<char>>, PState),
    SErr,
>
    decreases rank(s, st), 6int,
{
    if is_kind(st, ")"@) {
        match step(s, st) {
            Err(e) => Err(e),
            Ok(st1) => Ok((names, st1)),
        }
    } else {
        match g_name(s, st, Seq::empty(), Seq::empty()) {
            Err(e) => Err(e),
            Ok((words, st1)) => {
                let names2 = names.push(name_of(words));
                if is_kind(st1, ","@) {
                    match step(s, st1) {
                        Err(e) => Err(e),
                        Ok(st2) => if below(s, st2, 6, st, 6) {
                            g_params(s, names2, st2)
                        } else {
                            Err(stalled())
                        },
                    }
                } else if !is_kind(st1, ")"@) {
                    Err(unexpect(st1, "')'"@))
                } else {
                    match step(s, st1) {
                        Err(e) => Err(e),
                        Ok(st2) => Ok((names2, st2)),
                    }
                }
            },
        }
    }
}

} // verus!
