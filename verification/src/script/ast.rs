//! Syntax tree of FEEL scripts, its abstract view, and its printed form.
use crate::text::{push_char, push_str};
use vstd::prelude::*;

verus! {

/// An argument of a function call, named where `arg_name` is not empty.
#[derive(Debug)]
pub struct FuncCallArg {
    pub arg_name: String,
    pub arg: Box<Node>,
}

/// An item `name: value` of a map (context) literal.
#[derive(Debug)]
pub struct MapNodeItem {
    pub name: Box<Node>,
    pub value: Box<Node>,
}

#[derive(Debug)]
pub enum Node {
    Binop { op: String, left: Box<Node>, right: Box<Node> },
    DotOp { left: Box<Node>, attr: String },
    // function calling
    FuncCall { func_ref: Box<Node>, args: Vec<FuncCallArg> },
    // function definition
    FuncDef { arg_names: Vec<String>, body: Box<Node> },
    // variable
    Var(String),
    // ident, used in map key
    Ident(String),
    Number(String),
    Bool(bool),
    Null,
    Str(String),
    Temporal(String),
    Neg(Box<Node>),
    Array(Vec<Box<Node>>),
    MapExpr(Vec<MapNodeItem>),
    Range { start_open: bool, start: Box<Node>, end_open: bool, end: Box<Node> },
    IfExpr { condition: Box<Node>, then_branch: Box<Node>, else_branch: Box<Node> },
    ForExpr { var_name: String, list_expr: Box<Node>, return_expr: Box<Node> },
    SomeExpr { var_name: String, list_expr: Box<Node>, filter_expr: Box<Node> },
    EveryExpr { var_name: String, list_expr: Box<Node>, filter_expr: Box<Node> },
    ExprList { elements: Vec<Node> },
    MultiTests { elements: Vec<Node> },
}

/// The abstract value of a syntax tree: strings as character sequences.
pub enum SNode {
    Binop { op: Seq<char>, left: Box<SNode>, right: Box<SNode> },
    DotOp { left: Box<SNode>, attr: Seq<char> },
    FuncCall { func_ref: Box<SNode>, args: Seq<SArg> },
    FuncDef { arg_names: Seq<Seq<char>>, body: Box<SNode> },
    Var(Seq<char>),
    Ident(Seq<char>),
    Number(Seq<char>),
    Bool(bool),
    Null,
    Str(Seq<char>),
    Temporal(Seq<char>),
    Neg(Box<SNode>),
    Array(Seq<SNode>),
    MapExpr(Seq<SItem>),
    Range { start_open: bool, start: Box<SNode>, end_open: bool, end: Box<SNode> },
    IfExpr { condition: Box<SNode>, then_branch: Box<SNode>, else_branch: Box<SNode> },
    ForExpr { var_name: Seq<char>, list_expr: Box<SNode>, return_expr: Box<SNode> },
    SomeExpr { var_name: Seq<char>, list_expr: Box<SNode>, filter_expr: Box<SNode> },
    EveryExpr { var_name: Seq<char>, list_expr: Box<SNode>, filter_expr: Box<SNode> },
    ExprList(Seq<SNode>),
    MultiTests(Seq<SNode>),
}

pub struct SArg {
    pub name: Seq<char>,
    pub arg: SNode,
}

pub struct SItem {
    pub name: SNode,
    pub value: SNode,
}

pub open spec fn node_view(n: Node) -> SNode
    decreases n,
{
    match n {
        Node::Binop { op, left, right } => SNode::Binop {
            op: op@,
            left: Box::new(node_view(*left)),
            right: Box::new(node_view(*right)),
        },
        Node::DotOp { left, attr } => SNode::DotOp { left: Box::new(node_view(*left)), attr: attr@ },
        Node::FuncCall { func_ref, args } => SNode::FuncCall {
            func_ref: Box::new(node_view(*func_ref)),
            args: args_view(args@),
        },
        Node::FuncDef { arg_names, body } => SNode::FuncDef {
            arg_names: strings_view(arg_names@),
            body: Box::new(node_view(*body)),
        },
        Node::Var(v) => SNode::Var(v@),
        Node::Ident(v) => SNode::Ident(v@),
        Node::Number(v) => SNode::Number(v@),
        Node::Bool(b) => SNode::Bool(b),
        Node::Null => SNode::Null,
        Node::Str(v) => SNode::Str(v@),
        Node::Temporal(v) => SNode::Temporal(v@),
        Node::Neg(v) => SNode::Neg(Box::new(node_view(*v))),
        Node::Array(elements) => SNode::Array(boxes_view(elements@)),
        Node::MapExpr(items) => SNode::MapExpr(items_view(items@)),
        Node::Range { start_open, start, end_open, end } => SNode::Range {
            start_open,
            start: Box::new(node_view(*start)),
            end_open,
            end: Box::new(node_view(*end)),
        },
        Node::IfExpr { condition, then_branch, else_branch } => SNode::IfExpr {
            condition: Box::new(node_view(*condition)),
            then_branch: Box::new(node_view(*then_branch)),
            else_branch: Box::new(node_view(*else_branch)),
        },
        Node::ForExpr { var_name, list_expr, return_expr } => SNode::ForExpr {
            var_name: var_name@,
            list_expr: Box::new(node_view(*list_expr)),
            return_expr: Box::new(node_view(*return_expr)),
        },
        Node::SomeExpr { var_name, list_expr, filter_expr } => SNode::SomeExpr {
            var_name: var_name@,
            list_expr: Box::new(node_view(*list_expr)),
            filter_expr: Box::new(node_view(*filter_expr)),
        },
        Node::EveryExpr { var_name, list_expr, filter_expr } => SNode::EveryExpr {
            var_name: var_name@,
            list_expr: Box::new(node_view(*list_expr)),
            filter_expr: Box::new(node_view(*filter_expr)),
        },
        Node::ExprList { elements } => SNode::ExprList(nodes_view(elements@)),
        Node::MultiTests { elements } => SNode::MultiTests(nodes_view(elements@)),
    }
}

pub open spec fn boxes_view(v: Seq<Box<Node>>) -> Seq<SNode>
    decreases v,
{
    if v.len() == 0 {
        Seq::empty()
    } else {
        boxes_view(v.subrange(0, v.len() - 1)).push(node_view(*v[v.len() - 1]))
    }
}

pub open spec fn nodes_view(v: Seq<Node>) -> Seq<SNode>
    decreases v,
{
    if v.len() == 0 {
        Seq::empty()
    } else {
        nodes_view(v.subrange(0, v.len() - 1)).push(node_view(v[v.len() - 1]))
    }
}

pub open spec fn args_view(v: Seq<FuncCallArg>) -> Seq<SArg>
    decreases v,
{
    if v.len() == 0 {
        Seq::empty()
    } else {
        args_view(v.subrange(0, v.len() - 1)).push(
            SArg { name: v[v.len() - 1].arg_name@, arg: node_view(*v[v.len() - 1].arg) },
        )
    }
}

pub open spec fn items_view(v: Seq<MapNodeItem>) -> Seq<SItem>
    decreases v,
{
    if v.len() == 0 {
        Seq::empty()
    } else {
        items_view(v.subrange(0, v.len() - 1)).push(
            SItem { name: node_view(*v[v.len() - 1].name), value: node_view(*v[v.len() - 1].value) },
        )
    }
}

pub open spec fn strings_view(v: Seq<String>) -> Seq<Seq<char>>
    decreases v.len(),
{
    if v.len() == 0 {
        Seq::empty()
    } else {
        strings_view(v.subrange(0, v.len() - 1)).push(v[v.len() - 1]@)
    }
}

impl View for Node {
    type V = SNode;

    open spec fn view(&self) -> SNode {
        node_view(*self)
    }
}

pub proof fn lemma_boxes_view(v: Seq<Box<Node>>)
    ensures
        boxes_view(v).len() == v.len(),
        forall|i: int| 0 <= i < v.len() ==> boxes_view(v)[i] == node_view(*#[trigger] v[i]),
    decreases v.len(),
{
    if v.len() > 0 {
        let w = v.subrange(0, v.len() - 1);
        lemma_boxes_view(w);
        assert forall|i: int| 0 <= i < v.len() implies boxes_view(v)[i] == node_view(*#[trigger] v[i]) by {
            if i < v.len() - 1 {
                assert(w[i] == v[i]);
            }
        }
    }
}

pub proof fn lemma_nodes_view(v: Seq<Node>)
    ensures
        nodes_view(v).len() == v.len(),
        forall|i: int| 0 <= i < v.len() ==> nodes_view(v)[i] == node_view(#[trigger] v[i]),
    decreases v.len(),
{
    if v.len() > 0 {
        let w = v.subrange(0, v.len() - 1);
        lemma_nodes_view(w);
        assert forall|i: int| 0 <= i < v.len() implies nodes_view(v)[i] == node_view(#[trigger] v[i]) by {
            if i < v.len() - 1 {
                assert(w[i] == v[i]);
            }
        }
    }
}

pub proof fn lemma_args_view(v: Seq<FuncCallArg>)
    ensures
        args_view(v).len() == v.len(),
        forall|i: int|
            0 <= i < v.len() ==> args_view(v)[i] == (SArg {
                name: (#[trigger] v[i]).arg_name@,
                arg: node_view(*v[i].arg),
            }),
    decreases v.len(),
{
    if v.len() > 0 {
        let w = v.subrange(0, v.len() - 1);
        lemma_args_view(w);
        assert forall|i: int| 0 <= i < v.len() implies args_view(v)[i] == (SArg { name: (#[trigger] v[i]).arg_name@, arg: node_view(*v[i].arg) }) by {
            if i < v.len() - 1 {
                assert(w[i] == v[i]);
            }
        }
    }
}

pub proof fn lemma_items_view(v: Seq<MapNodeItem>)
    ensures
        items_view(v).len() == v.len(),
        forall|i: int|
            0 <= i < v.len() ==> items_view(v)[i] == (SItem {
                name: node_view(*(#[trigger] v[i]).name),
                value: node_view(*v[i].value),
            }),
    decreases v.len(),
{
    if v.len() > 0 {
        let w = v.subrange(0, v.len() - 1);
        lemma_items_view(w);
        assert forall|i: int| 0 <= i < v.len() implies items_view(v)[i] == (SItem { name: node_view(*(#[trigger] v[i]).name), value: node_view(*v[i].value) }) by {
            if i < v.len() - 1 {
                assert(w[i] == v[i]);
            }
        }
    }
}

pub proof fn lemma_strings_view(v: Seq<String>)
    ensures
        strings_view(v).len() == v.len(),
        forall|i: int| 0 <= i < v.len() ==> strings_view(v)[i] == (#[trigger] v[i])@,
    decreases v.len(),
{
    if v.len() > 0 {
        let w = v.subrange(0, v.len() - 1);
        lemma_strings_view(w);
        assert forall|i: int| 0 <= i < v.len() implies strings_view(v)[i] == (#[trigger] v[i])@ by {
            if i < v.len() - 1 {
                assert(w[i] == v[i]);
            }
        }
    }
}

/// The printed form of a syntax tree.
pub open spec fn node_text(n: SNode) -> Seq<char>
    decreases n,
{
    match n {
        SNode::Binop { op, left, right } => "("@ + op + " "@ + node_text(*left) + " "@ + node_text(
            *right,
        ) + ")"@,
        SNode::DotOp { left, attr } => "(. "@ + node_text(*left) + " "@ + attr + ")"@,
        SNode::FuncCall { func_ref, args } => "(call "@ + node_text(*func_ref) + " "@ + "["@
            + args_text(args) + "]"@ + ")"@,
        SNode::FuncDef { arg_names, body } => "(function "@ + "["@ + names_text(arg_names) + "]"@
            + " "@ + node_text(*body) + ")"@,
        SNode::Var(v) => v,
        SNode::Ident(v) => v,
        SNode::Number(v) => v,
        SNode::Bool(b) => if b {
            "true"@
        } else {
            "false"@
        },
        SNode::Null => "null"@,
        SNode::Str(v) => v,
        SNode::Temporal(v) => v,
        SNode::Neg(v) => "(- "@ + node_text(*v) + ")"@,
        SNode::Range { start_open, start, end_open, end } => (if start_open {
            "("@
        } else {
            "["@
        }) + node_text(*start) + ".."@ + node_text(*end) + (if end_open {
            ")"@
        } else {
            "]"@
        }),
        SNode::Array(elements) => "["@ + list_text(elements) + "]"@,
        SNode::MapExpr(items) => "{"@ + items_text(items) + "}"@,
        SNode::IfExpr { condition, then_branch, else_branch } => "(if "@ + node_text(*condition)
            + " "@ + node_text(*then_branch) + " "@ + node_text(*else_branch) + ")"@,
        SNode::ForExpr { var_name, list_expr, return_expr } => "(for "@ + var_name + " in "@
            + node_text(*list_expr) + " "@ + node_text(*return_expr) + ")"@,
        SNode::SomeExpr { var_name, list_expr, filter_expr } => "(some "@ + var_name + " in "@
            + node_text(*list_expr) + " satisfies "@ + node_text(*filter_expr) + ")"@,
        SNode::EveryExpr { var_name, list_expr, filter_expr } => "(every "@ + var_name + " in "@
            + node_text(*list_expr) + " satisfies "@ + node_text(*filter_expr) + ")"@,
        SNode::ExprList(elements) => list_text(elements),
        SNode::MultiTests(elements) => list_text(elements),
    }
}

/// The printed forms of `xs`, separated by `", "`.
pub open spec fn list_text(xs: Seq<SNode>) -> Seq<char>
    decreases xs,
{
    if xs.len() == 0 {
        Seq::empty()
    } else if xs.len() == 1 {
        node_text(xs[0])
    } else {
        list_text(xs.subrange(0, xs.len() - 1)) + ", "@ + node_text(xs[xs.len() - 1])
    }
}

pub open spec fn arg_text(a: SArg) -> Seq<char>
    decreases a,
{
    if a.name.len() == 0 {
        node_text(a.arg)
    } else {
        a.name + ":"@ + node_text(a.arg)
    }
}

pub open spec fn args_text(xs: Seq<SArg>) -> Seq<char>
    decreases xs,
{
    if xs.len() == 0 {
        Seq::empty()
    } else if xs.len() == 1 {
        arg_text(xs[0])
    } else {
        args_text(xs.subrange(0, xs.len() - 1)) + ", "@ + arg_text(xs[xs.len() - 1])
    }
}

pub open spec fn item_text(a: SItem) -> Seq<char>
    decreases a,
{
    node_text(a.name) + ": "@ + node_text(a.value)
}

pub open spec fn items_text(xs: Seq<SItem>) -> Seq<char>
    decreases xs,
{
    if xs.len() == 0 {
        Seq::empty()
    } else if xs.len() == 1 {
        item_text(xs[0])
    } else {
        items_text(xs.subrange(0, xs.len() - 1)) + ", "@ + item_text(xs[xs.len() - 1])
    }
}

pub open spec fn names_text(xs: Seq<Seq<char>>) -> Seq<char>
    decreases xs.len(),
{
    if xs.len() == 0 {
        Seq::empty()
    } else if xs.len() == 1 {
        xs[0]
    } else {
        names_text(xs.subrange(0, xs.len() - 1)) + ", "@ + xs[xs.len() - 1]
    }
}

impl Node {
    /// The printed form of the tree, as `node_text` states.
    pub fn to_string(&self) -> (r: String)
        ensures
            r@ == node_text(self@),
        decreases self,
    {
        let mut r = String::new();
        match self {
            Node::Binop { op, left, right } => {
                push_str(&mut r, "(");
                push_str(&mut r, op.as_str());
                push_str(&mut r, " ");
                push_str(&mut r, left.to_string().as_str());
                push_str(&mut r, " ");
                push_str(&mut r, right.to_string().as_str());
                push_str(&mut r, ")");
            },
            Node::DotOp { left, attr } => {
                push_str(&mut r, "(. ");
                push_str(&mut r, left.to_string().as_str());
                push_str(&mut r, " ");
                push_str(&mut r, attr.as_str());
                push_str(&mut r, ")");
            },
            Node::FuncCall { func_ref, args } => {
                push_str(&mut r, "(call ");
                push_str(&mut r, func_ref.to_string().as_str());
                push_str(&mut r, " ");
                push_str(&mut r, "[");
                push_str(&mut r, Node::args_string(args).as_str());
                push_str(&mut r, "]");
                push_str(&mut r, ")");
            },
            Node::FuncDef { arg_names, body } => {
                push_str(&mut r, "(function ");
                push_str(&mut r, "[");
                push_str(&mut r, names_string(arg_names).as_str());
                push_str(&mut r, "]");
                push_str(&mut r, " ");
                push_str(&mut r, body.to_string().as_str());
                push_str(&mut r, ")");
            },
            Node::Var(v) => {
                push_str(&mut r, v.as_str());
            },
            Node::Ident(v) => {
                push_str(&mut r, v.as_str());
            },
            Node::Number(v) => {
                push_str(&mut r, v.as_str());
            },
            Node::Bool(b) => {
                if *b {
                    push_str(&mut r, "true");
                } else {
                    push_str(&mut r, "false");
                }
            },
            Node::Null => {
                push_str(&mut r, "null");
            },
            Node::Str(v) => {
                push_str(&mut r, v.as_str());
            },
            Node::Temporal(v) => {
                push_str(&mut r, v.as_str());
            },
            Node::Neg(v) => {
                push_str(&mut r, "(- ");
                push_str(&mut r, v.to_string().as_str());
                push_str(&mut r, ")");
            },
            Node::Range { start_open, start, end_open, end } => {
                if *start_open {
                    push_str(&mut r, "(");
                } else {
                    push_str(&mut r, "[");
                }
                push_str(&mut r, start.to_string().as_str());
                push_str(&mut r, "..");
                push_str(&mut r, end.to_string().as_str());
                if *end_open {
                    push_str(&mut r, ")");
                } else {
                    push_str(&mut r, "]");
                }
            },
            Node::Array(elements) => {
                push_str(&mut r, "[");
                push_str(&mut r, Node::boxes_string(elements).as_str());
                push_str(&mut r, "]");
            },
            Node::MapExpr(items) => {
                push_str(&mut r, "{");
                push_str(&mut r, Node::items_string(items).as_str());
                push_str(&mut r, "}");
            },
            Node::IfExpr { condition, then_branch, else_branch } => {
                push_str(&mut r, "(if ");
                push_str(&mut r, condition.to_string().as_str());
                push_str(&mut r, " ");
                push_str(&mut r, then_branch.to_string().as_str());
                push_str(&mut r, " ");
                push_str(&mut r, else_branch.to_string().as_str());
                push_str(&mut r, ")");
            },
            Node::ForExpr { var_name, list_expr, return_expr } => {
                push_str(&mut r, "(for ");
                push_str(&mut r, var_name.as_str());
                push_str(&mut r, " in ");
                push_str(&mut r, list_expr.to_string().as_str());
                push_str(&mut r, " ");
                push_str(&mut r, return_expr.to_string().as_str());
                push_str(&mut r, ")");
            },
            Node::SomeExpr { var_name, list_expr, filter_expr } => {
                push_str(&mut r, "(some ");
                push_str(&mut r, var_name.as_str());
                push_str(&mut r, " in ");
                push_str(&mut r, list_expr.to_string().as_str());
                push_str(&mut r, " satisfies ");
                push_str(&mut r, filter_expr.to_string().as_str());
                push_str(&mut r, ")");
            },
            Node::EveryExpr { var_name, list_expr, filter_expr } => {
                push_str(&mut r, "(every ");
                push_str(&mut r, var_name.as_str());
                push_str(&mut r, " in ");
                push_str(&mut r, list_expr.to_string().as_str());
                push_str(&mut r, " satisfies ");
                push_str(&mut r, filter_expr.to_string().as_str());
                push_str(&mut r, ")");
            },
            Node::ExprList { elements } => {
                r = Node::list_string(elements);
            },
            Node::MultiTests { elements } => {
                r = Node::list_string(elements);
            },
        }
        r
    }

    /// The printed arguments of a call, separated by `", "`.
    fn args_string(args: &Vec<FuncCallArg>) -> (r: String)
        ensures
            r@ == args_text(args_view(args@)),
        decreases args,
    {
        let mut r = String::new();
        proof {
            lemma_args_view(args@);
            assert(args_view(args@).take(0) =~= Seq::<SArg>::empty());
        }
        let mut i: usize = 0;
        while i < args.len()
            invariant
                0 <= i <= args.len(),
                args_view(args@).len() == args.len(),
                forall|k: int|
                    0 <= k < args.len() ==> args_view(args@)[k] == (SArg {
                        name: (#[trigger] args@[k]).arg_name@,
                        arg: node_view(*args@[k].arg),
                    }),
                r@ == args_text(args_view(args@).take(i as int)),
            decreases args.len() - i,
        {
            let a = &args[i];
            if i > 0 {
                push_str(&mut r, ", ");
            }
            if !a.arg_name.as_str().is_empty() {
                push_str(&mut r, a.arg_name.as_str());
                push_str(&mut r, ":");
            }
            proof {
                broadcast use vstd::std_specs::vec::axiom_vec_index_decreases;

                assert(decreases_to!(args => args[i as int]));
                assert(decreases_to!(args[i as int] => args[i as int].arg));
            }
            push_str(&mut r, a.arg.to_string().as_str());
            proof {
                let xs = args_view(args@);
                assert(xs.take(i + 1).subrange(0, i as int) =~= xs.take(i as int));
                assert(xs.take(i + 1)[i as int] == xs[i as int]);
                assert(arg_text(xs[i as int]) == (if a.arg_name@.len() == 0 {
                    Seq::<char>::empty()
                } else {
                    a.arg_name@ + ":"@
                }) + node_text(node_view(*a.arg)));
            }
            i = i + 1;
            assert(r@ =~= args_text(args_view(args@).take(i as int)));
        }
        assert(args_view(args@).take(i as int) =~= args_view(args@));
        r
    }

    /// The printed elements of an array, separated by `", "`.
    fn boxes_string(elements: &Vec<Box<Node>>) -> (r: String)
        ensures
            r@ == list_text(boxes_view(elements@)),
        decreases elements,
    {
        let mut r = String::new();
        proof {
            lemma_boxes_view(elements@);
            assert(boxes_view(elements@).take(0) =~= Seq::<SNode>::empty());
        }
        let mut i: usize = 0;
        while i < elements.len()
            invariant
                0 <= i <= elements.len(),
                boxes_view(elements@).len() == elements.len(),
                forall|k: int|
                    0 <= k < elements.len() ==> boxes_view(elements@)[k] == node_view(
                        *#[trigger] elements@[k],
                    ),
                r@ == list_text(boxes_view(elements@).take(i as int)),
            decreases elements.len() - i,
        {
            if i > 0 {
                push_str(&mut r, ", ");
            }
            proof {
                broadcast use vstd::std_specs::vec::axiom_vec_index_decreases;

                assert(decreases_to!(elements => elements[i as int]));
            }
            push_str(&mut r, elements[i].to_string().as_str());
            proof {
                let xs = boxes_view(elements@);
                assert(xs.take(i + 1).subrange(0, i as int) =~= xs.take(i as int));
            }
            i = i + 1;
            assert(r@ =~= list_text(boxes_view(elements@).take(i as int)));
        }
        assert(boxes_view(elements@).take(i as int) =~= boxes_view(elements@));
        r
    }

    /// The printed items of a map literal, separated by `", "`.
    fn items_string(items: &Vec<MapNodeItem>) -> (r: String)
        ensures
            r@ == items_text(items_view(items@)),
        decreases items,
    {
        let mut r = String::new();
        proof {
            lemma_items_view(items@);
            assert(items_view(items@).take(0) =~= Seq::<SItem>::empty());
        }
        let mut i: usize = 0;
        while i < items.len()
            invariant
                0 <= i <= items.len(),
                items_view(items@).len() == items.len(),
                forall|k: int|
                    0 <= k < items.len() ==> items_view(items@)[k] == (SItem {
                        name: node_view(*(#[trigger] items@[k]).name),
                        value: node_view(*items@[k].value),
                    }),
                r@ == items_text(items_view(items@).take(i as int)),
            decreases items.len() - i,
        {
            let it = &items[i];
            if i > 0 {
                push_str(&mut r, ", ");
            }
            proof {
                broadcast use vstd::std_specs::vec::axiom_vec_index_decreases;

                assert(decreases_to!(items => items[i as int]));
                assert(decreases_to!(items[i as int] => items[i as int].name));
                assert(decreases_to!(items[i as int] => items[i as int].value));
            }
            push_str(&mut r, it.name.to_string().as_str());
            push_str(&mut r, ": ");
            push_str(&mut r, it.value.to_string().as_str());
            proof {
                let xs = items_view(items@);
                assert(xs.take(i + 1).subrange(0, i as int) =~= xs.take(i as int));
                assert(xs.take(i + 1)[i as int] == xs[i as int]);
                assert(item_text(xs[i as int]) == node_text(node_view(*it.name)) + ": "@
                    + node_text(node_view(*it.value)));
            }
            i = i + 1;
            assert(r@ =~= items_text(items_view(items@).take(i as int)));
        }
        assert(items_view(items@).take(i as int) =~= items_view(items@));
        r
    }

    /// The printed forms of `elements`, separated by `", "`.
    fn list_string(elements: &Vec<Node>) -> (r: String)
        ensures
            r@ == list_text(nodes_view(elements@)),
        decreases elements,
    {
        let mut r = String::new();
        proof {
            lemma_nodes_view(elements@);
            assert(nodes_view(elements@).take(0) =~= Seq::<SNode>::empty());
        }
        let mut i: usize = 0;
        while i < elements.len()
            invariant
                0 <= i <= elements.len(),
                nodes_view(elements@).len() == elements.len(),
                forall|k: int|
                    0 <= k < elements.len() ==> nodes_view(elements@)[k] == node_view(
                        #[trigger] elements@[k],
                    ),
                r@ == list_text(nodes_view(elements@).take(i as int)),
            decreases elements.len() - i,
        {
            if i > 0 {
                push_str(&mut r, ", ");
            }
            proof {
                broadcast use vstd::std_specs::vec::axiom_vec_index_decreases;

                assert(decreases_to!(elements => elements[i as int]));
            }
            push_str(&mut r, elements[i].to_string().as_str());
            proof {
                let xs = nodes_view(elements@);
                assert(xs.take(i + 1).subrange(0, i as int) =~= xs.take(i as int));
            }
            i = i + 1;
            assert(r@ =~= list_text(nodes_view(elements@).take(i as int)));
        }
        assert(nodes_view(elements@).take(i as int) =~= nodes_view(elements@));
        r
    }
}

/// The names of a function definition, separated by `", "`.
fn names_string(names: &Vec<String>) -> (r: String)
    ensures
        r@ == names_text(strings_view(names@)),
{
    let mut r = String::new();
    proof {
        lemma_strings_view(names@);
        assert(strings_view(names@).take(0) =~= Seq::<Seq<char>>::empty());
    }
    let mut i: usize = 0;
    while i < names.len()
        invariant
            0 <= i <= names.len(),
            strings_view(names@).len() == names.len(),
            forall|k: int| 0 <= k < names.len() ==> strings_view(names@)[k] == (
            #[trigger] names@[k])@,
            r@ == names_text(strings_view(names@).take(i as int)),
        decreases names.len() - i,
    {
        if i > 0 {
            push_str(&mut r, ", ");
        }
        push_str(&mut r, names[i].as_str());
        proof {
            let xs = strings_view(names@);
            assert(xs.take(i + 1).subrange(0, i as int) =~= xs.take(i as int));
        }
        i = i + 1;
        assert(r@ =~= names_text(strings_view(names@).take(i as int)));
    }
    assert(strings_view(names@).take(i as int) =~= strings_view(names@));
    r
}

pub(crate) fn clone_strings(v: &Vec<String>) -> (r: Vec<String>)
    ensures
        r@ == v@,
{
    let mut r: Vec<String> = Vec::new();
    let mut i: usize = 0;
    while i < v.len()
        invariant
            0 <= i <= v.len(),
            r@ == v@.take(i as int),
        decreases v.len() - i,
    {
        r.push(v[i].clone());
        i = i + 1;
        assert(r@ =~= v@.take(i as int));
    }
    assert(v@.take(v@.len() as int) =~= v@);
    r
}

fn clone_boxes(v: &Vec<Box<Node>>) -> (r: Vec<Box<Node>>)
    ensures
        boxes_view(r@) == boxes_view(v@),
    decreases v,
{
    let mut r: Vec<Box<Node>> = Vec::new();
    let mut i: usize = 0;
    while i < v.len()
        invariant
            0 <= i <= v.len(),
            r@.len() == i,
            boxes_view(r@) == boxes_view(v@.take(i as int)),
        decreases v.len() - i,
    {
        proof {
            broadcast use vstd::std_specs::vec::axiom_vec_index_decreases;

            assert(decreases_to!(v => v[i as int]));
        }
        let c = v[i].deep_clone();
        let ghost old_r = r@;
        r.push(Box::new(c));
        proof {
            assert(r@.subrange(0, r@.len() - 1) =~= old_r);
            assert(v@.take(i + 1).subrange(0, i as int) =~= v@.take(i as int));
        }
        i = i + 1;
    }
    assert(v@.take(v@.len() as int) =~= v@);
    r
}

fn clone_nodes(v: &Vec<Node>) -> (r: Vec<Node>)
    ensures
        nodes_view(r@) == nodes_view(v@),
    decreases v,
{
    let mut r: Vec<Node> = Vec::new();
    let mut i: usize = 0;
    while i < v.len()
        invariant
            0 <= i <= v.len(),
            r@.len() == i,
            nodes_view(r@) == nodes_view(v@.take(i as int)),
        decreases v.len() - i,
    {
        proof {
            broadcast use vstd::std_specs::vec::axiom_vec_index_decreases;

            assert(decreases_to!(v => v[i as int]));
        }
        let c = v[i].deep_clone();
        let ghost old_r = r@;
        r.push(c);
        proof {
            assert(r@.subrange(0, r@.len() - 1) =~= old_r);
            assert(v@.take(i + 1).subrange(0, i as int) =~= v@.take(i as int));
        }
        i = i + 1;
    }
    assert(v@.take(v@.len() as int) =~= v@);
    r
}

fn clone_args(v: &Vec<FuncCallArg>) -> (r: Vec<FuncCallArg>)
    ensures
        args_view(r@) == args_view(v@),
    decreases v,
{
    let mut r: Vec<FuncCallArg> = Vec::new();
    let mut i: usize = 0;
    while i < v.len()
        invariant
            0 <= i <= v.len(),
            r@.len() == i,
            args_view(r@) == args_view(v@.take(i as int)),
        decreases v.len() - i,
    {
        proof {
            broadcast use vstd::std_specs::vec::axiom_vec_index_decreases;

            assert(decreases_to!(v => v[i as int]));
            assert(decreases_to!(v[i as int] => v[i as int].arg));
        }
        let c = FuncCallArg { arg_name: v[i].arg_name.clone(), arg: Box::new(v[i].arg.deep_clone()) };
        let ghost old_r = r@;
        r.push(c);
        proof {
            assert(r@.subrange(0, r@.len() - 1) =~= old_r);
            assert(v@.take(i + 1).subrange(0, i as int) =~= v@.take(i as int));
        }
        i = i + 1;
    }
    assert(v@.take(v@.len() as int) =~= v@);
    r
}

fn clone_items(v: &Vec<MapNodeItem>) -> (r: Vec<MapNodeItem>)
    ensures
        items_view(r@) == items_view(v@),
    decreases v,
{
    let mut r: Vec<MapNodeItem> = Vec::new();
    let mut i: usize = 0;
    while i < v.len()
        invariant
            0 <= i <= v.len(),
            r@.len() == i,
            items_view(r@) == items_view(v@.take(i as int)),
        decreases v.len() - i,
    {
        proof {
            broadcast use vstd::std_specs::vec::axiom_vec_index_decreases;

            assert(decreases_to!(v => v[i as int]));
            assert(decreases_to!(v[i as int] => v[i as int].name));
            assert(decreases_to!(v[i as int] => v[i as int].value));
        }
        let c = MapNodeItem {
            name: Box::new(v[i].name.deep_clone()),
            value: Box::new(v[i].value.deep_clone()),
        };
        let ghost old_r = r@;
        r.push(c);
        proof {
            assert(r@.subrange(0, r@.len() - 1) =~= old_r);
            assert(v@.take(i + 1).subrange(0, i as int) =~= v@.take(i as int));
        }
        i = i + 1;
    }
    assert(v@.take(v@.len() as int) =~= v@);
    r
}

impl Node {
    /// A copy of the tree.
    pub fn deep_clone(&self) -> (r: Node)
        ensures
            r@ == self@,
        decreases self,
    {
        match self {
            Node::Binop { op, left, right } => Node::Binop {
                op: op.clone(),
                left: Box::new(left.deep_clone()),
                right: Box::new(right.deep_clone()),
            },
            Node::DotOp { left, attr } => Node::DotOp {
                left: Box::new(left.deep_clone()),
                attr: attr.clone(),
            },
            Node::FuncCall { func_ref, args } => Node::FuncCall {
                func_ref: Box::new(func_ref.deep_clone()),
                args: clone_args(args),
            },
            Node::FuncDef { arg_names, body } => {
                let names = clone_strings(arg_names);
                assert(strings_view(names@) == strings_view(arg_names@));
                Node::FuncDef { arg_names: names, body: Box::new(body.deep_clone()) }
            },
            Node::Var(v) => Node::Var(v.clone()),
            Node::Ident(v) => Node::Ident(v.clone()),
            Node::Number(v) => Node::Number(v.clone()),
            Node::Bool(b) => Node::Bool(*b),
            Node::Null => Node::Null,
            Node::Str(v) => Node::Str(v.clone()),
            Node::Temporal(v) => Node::Temporal(v.clone()),
            Node::Neg(v) => Node::Neg(Box::new(v.deep_clone())),
            Node::Array(elements) => Node::Array(clone_boxes(elements)),
            Node::MapExpr(items) => Node::MapExpr(clone_items(items)),
            Node::Range { start_open, start, end_open, end } => Node::Range {
                start_open: *start_open,
                start: Box::new(start.deep_clone()),
                end_open: *end_open,
                end: Box::new(end.deep_clone()),
            },
            Node::IfExpr { condition, then_branch, else_branch } => Node::IfExpr {
                condition: Box::new(condition.deep_clone()),
                then_branch: Box::new(then_branch.deep_clone()),
                else_branch: Box::new(else_branch.deep_clone()),
            },
            Node::ForExpr { var_name, list_expr, return_expr } => Node::ForExpr {
                var_name: var_name.clone(),
                list_expr: Box::new(list_expr.deep_clone()),
                return_expr: Box::new(return_expr.deep_clone()),
            },
            Node::SomeExpr { var_name, list_expr, filter_expr } => Node::SomeExpr {
                var_name: var_name.clone(),
                list_expr: Box::new(list_expr.deep_clone()),
                filter_expr: Box::new(filter_expr.deep_clone()),
            },
            Node::EveryExpr { var_name, list_expr, filter_expr } => Node::EveryExpr {
                var_name: var_name.clone(),
                list_expr: Box::new(list_expr.deep_clone()),
                filter_expr: Box::new(filter_expr.deep_clone()),
            },
            Node::ExprList { elements } => Node::ExprList { elements: clone_nodes(elements) },
            Node::MultiTests { elements } => Node::MultiTests { elements: clone_nodes(elements) },
        }
    }
}

} // verus!
