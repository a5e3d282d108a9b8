//! Syntax tree of FEEL expressions: each node carries where it starts in
//! the text.  Its printed form is stated over the tree itself.
use crate::position::TextPosition;
use crate::text::push_str;
use vstd::prelude::*;

verus! {

broadcast use vstd::std_specs::vec::axiom_vec_index_decreases;

/// An argument of a function call, named where `arg_name` is not empty.
#[derive(Debug)]
pub struct FuncCallArg {
    pub arg_name: String,
    pub arg: Box<Node>,
}

/// An item `name: value` of a map (context) literal.
#[derive(Debug)]
pub struct MapNodeItem {
    pub name: Box<Node>,
    pub value: Box<Node>,
}

#[derive(Debug)]
pub enum NodeSyntax {
    BinOp { op: String, left: Box<Node>, right: Box<Node> },
    LogicOp { op: String, left: Box<Node>, right: Box<Node> },
    DotOp { left: Box<Node>, attr: String },
    // function calling
    FuncCall { func_ref: Box<Node>, args: Vec<FuncCallArg> },
    // function definition
    FuncDef { arg_names: Vec<String>, body: Box<Node> },
    // variable
    Var(String),
    // ident, used in map key
    Ident(String),
    Number(String),
    Bool(bool),
    Null,
    Str(String),
    Temporal(String),
    Neg(Box<Node>),
    Array(Vec<Box<Node>>),
    MapExpr(Vec<MapNodeItem>),
    Range { start_open: bool, start: Box<Node>, end_open: bool, end: Box<Node> },
    IfExpr { condition: Box<Node>, then_branch: Box<Node>, else_branch: Box<Node> },
    ForExpr { var_name: String, list_expr: Box<Node>, return_expr: Box<Node> },
    SomeExpr { var_name: String, list_expr: Box<Node>, filter_expr: Box<Node> },
    EveryExpr { var_name: String, list_expr: Box<Node>, filter_expr: Box<Node> },
    ExprList(Vec<Node>),
    MultiTests(Vec<Node>),
}

/// A syntax node and the position where it starts.
#[derive(Debug)]
pub struct Node {
    pub syntax: Box<NodeSyntax>,
    pub start_pos: TextPosition,
}

impl Node {
    pub fn new(syntax: NodeSyntax, start_pos: TextPosition) -> (r: Box<Node>)
        ensures
            *r.syntax == syntax,
            r.start_pos == start_pos,
    {
        Box::new(Node { syntax: Box::new(syntax), start_pos })
    }
}

/// The printed form of a node: that of its syntax.
pub open spec fn node_text(n: Node) -> Seq<char>
    decreases n,
{
    syntax_text(*n.syntax)
}

/// The printed form of a syntax node.
pub open spec fn syntax_text(s: NodeSyntax) -> Seq<char>
    decreases s,
{
    match s {
        NodeSyntax::BinOp { op, left, right } => "("@ + op@ + " "@ + node_text(*left) + " "@
            + node_text(*right) + ")"@,
        NodeSyntax::LogicOp { op, left, right } => "("@ + op@ + " "@ + node_text(*left) + " "@
            + node_text(*right) + ")"@,
        NodeSyntax::DotOp { left, attr } => "(. "@ + node_text(*left) + " "@ + attr@ + ")"@,
        NodeSyntax::FuncCall { func_ref, args } => "(call "@ + node_text(*func_ref) + " "@ + "["@
            + args_text(args@) + "]"@ + ")"@,
        NodeSyntax::FuncDef { arg_names, body } => "(function "@ + "["@ + names_text(arg_names@)
            + "]"@ + " "@ + node_text(*body) + ")"@,
        NodeSyntax::Var(v) => v@,
        NodeSyntax::Ident(v) => v@,
        NodeSyntax::Number(v) => v@,
        NodeSyntax::Bool(b) => if b {
            "true"@
        } else {
            "false"@
        },
        NodeSyntax::Null => "null"@,
        NodeSyntax::Str(v) => v@,
        NodeSyntax::Temporal(v) => v@,
        NodeSyntax::Neg(v) => "(- "@ + node_text(*v) + ")"@,
        NodeSyntax::Range { start_open, start, end_open, end } => (if start_open {
            "("@
        } else {
            "["@
        }) + node_text(*start) + ".."@ + node_text(*end) + (if end_open {
            ")"@
        } else {
            "]"@
        }),
        NodeSyntax::Array(elements) => "["@ + boxes_text(elements@) + "]"@,
        NodeSyntax::MapExpr(items) => "{"@ + items_text(items@) + "}"@,
        NodeSyntax::IfExpr { condition, then_branch, else_branch } => "(if "@ + node_text(
            *condition,
        ) + " "@ + node_text(*then_branch) + " "@ + node_text(*else_branch) + ")"@,
        NodeSyntax::ForExpr { var_name, list_expr, return_expr } => "(for "@ + var_name@
            + " in "@ + node_text(*list_expr) + " "@ + node_text(*return_expr) + ")"@,
        NodeSyntax::SomeExpr { var_name, list_expr, filter_expr } => "(some "@ + var_name@
            + " in "@ + node_text(*list_expr) + " satisfies "@ + node_text(*filter_expr) + ")"@,
        NodeSyntax::EveryExpr { var_name, list_expr, filter_expr } => "(every "@ + var_name@
            + " in "@ + node_text(*list_expr) + " satisfies "@ + node_text(*filter_expr) + ")"@,
        NodeSyntax::ExprList(elements) => "(expr-list "@ + nodes_text(elements@) + ")"@,
        NodeSyntax::MultiTests(elements) => "(multi-tests "@ + nodes_text(elements@) + ")"@,
    }
}

/// The printed arguments of a call, separated by `", "`.
pub open spec fn args_text(xs: Seq<FuncCallArg>) -> Seq<char>
    decreases xs,
{
    if xs.len() == 0 {
        Seq::empty()
    } else {
        let a = xs.last();
        let t = if a.arg_name@.len() == 0 {
            node_text(*a.arg)
        } else {
            a.arg_name@ + ":"@ + node_text(*a.arg)
        };
        if xs.len() == 1 {
            t
        } else {
            args_text(xs.drop_last()) + ", "@ + t
        }
    }
}

/// The printed elements of an array, separated by `", "`.
pub open spec fn boxes_text(xs: Seq<Box<Node>>) -> Seq<char>
    decreases xs,
{
    if xs.len() == 0 {
        Seq::empty()
    } else if xs.len() == 1 {
        node_text(*xs[0])
    } else {
        boxes_text(xs.drop_last()) + ", "@ + node_text(*xs.last())
    }
}

/// The printed items `name: value` of a map, separated by `", "`.
pub open spec fn items_text(xs: Seq<MapNodeItem>) -> Seq<char>
    decreases xs,
{
    if xs.len() == 0 {
        Seq::empty()
    } else {
        let t = node_text(*xs.last().name) + ": "@ + node_text(*xs.last().value);
        if xs.len() == 1 {
            t
        } else {
            items_text(xs.drop_last()) + ", "@ + t
        }
    }
}

/// The printed nodes, separated by single spaces.
pub open spec fn nodes_text(xs: Seq<Node>) -> Seq<char>
    decreases xs,
{
    if xs.len() == 0 {
        Seq::empty()
    } else if xs.len() == 1 {
        node_text(xs[0])
    } else {
        nodes_text(xs.drop_last()) + " "@ + node_text(xs.last())
    }
}

/// Names separated by `", "`.
pub open spec fn names_text(xs: Seq<String>) -> Seq<char>
    decreases xs.len(),
{
    if xs.len() == 0 {
        Seq::empty()
    } else if xs.len() == 1 {
        xs[0]@
    } else {
        names_text(xs.drop_last()) + ", "@ + xs.last()@
    }
}

/// The printed form of a call argument: `name:arg`, or `arg` where unnamed.
pub open spec fn arg_text(a: FuncCallArg) -> Seq<char> {
    if a.arg_name@.len() == 0 {
        node_text(*a.arg)
    } else {
        a.arg_name@ + ":"@ + node_text(*a.arg)
    }
}

impl FuncCallArg {
    pub fn to_string(&self) -> (r: String)
        ensures
            r@ == arg_text(*self),
        decreases self,
    {
        let mut r = String::new();
        if !self.arg_name.as_str().is_empty() {
            push_str(&mut r, self.arg_name.as_str());
            push_str(&mut r, ":");
        }
        push_str(&mut r, self.arg.to_string().as_str());
        proof {
            assert(r@ =~= arg_text(*self));
        }
        r
    }
}

impl MapNodeItem {
    pub fn to_string(&self) -> (r: String)
        ensures
            r@ == node_text(*self.name) + ": "@ + node_text(*self.value),
        decreases self,
    {
        let mut r = String::new();
        push_str(&mut r, self.name.to_string().as_str());
        push_str(&mut r, ": ");
        push_str(&mut r, self.value.to_string().as_str());
        proof {
            assert(r@ =~= node_text(*self.name) + ": "@ + node_text(*self.value));
        }
        r
    }
}

impl Node {
    /// The printed form of the node, as `node_text` states.
    pub fn to_string(&self) -> (r: String)
        ensures
            r@ == node_text(*self),
        decreases self,
    {
        self.syntax.to_string()
    }
}

fn args_string(args: &Vec<FuncCallArg>) -> (r: String)
    ensures
        r@ == args_text(args@),
    decreases args,
{
    let mut r = String::new();
    let mut i: usize = 0;
    proof {
        assert(args@.take(0) =~= Seq::<FuncCallArg>::empty());
    }
    while i < args.len()
        invariant
            0 <= i <= args.len(),
            r@ == args_text(args@.take(i as int)),
        decreases args.len() - i,
    {
        if i > 0 {
            push_str(&mut r, ", ");
        }
        assert(decreases_to!(args => args[i as int]));
        push_str(&mut r, args[i].to_string().as_str());
        proof {
            let t = args@.take(i + 1);
            assert(t.drop_last() =~= args@.take(i as int));
            assert(t.last() == args@[i as int]);
            assert(r@ =~= args_text(t));
        }
        i = i + 1;
    }
    proof {
        assert(args@.take(args@.len() as int) =~= args@);
    }
    r
}

fn boxes_string(elements: &Vec<Box<Node>>) -> (r: String)
    ensures
        r@ == boxes_text(elements@),
    decreases elements,
{
    let mut r = String::new();
    let mut i: usize = 0;
    proof {
        assert(elements@.take(0) =~= Seq::<Box<Node>>::empty());
    }
    while i < elements.len()
        invariant
            0 <= i <= elements.len(),
            r@ == boxes_text(elements@.take(i as int)),
        decreases elements.len() - i,
    {
        if i > 0 {
            push_str(&mut r, ", ");
        }
        assert(decreases_to!(elements => elements[i as int]));
        push_str(&mut r, elements[i].to_string().as_str());
        proof {
            let t = elements@.take(i + 1);
            assert(t.drop_last() =~= elements@.take(i as int));
            assert(t.last() == elements@[i as int]);
            assert(r@ =~= boxes_text(t));
        }
        i = i + 1;
    }
    proof {
        assert(elements@.take(elements@.len() as int) =~= elements@);
    }
    r
}

fn items_string(items: &Vec<MapNodeItem>) -> (r: String)
    ensures
        r@ == items_text(items@),
    decreases items,
{
    let mut r = String::new();
    let mut i: usize = 0;
    proof {
        assert(items@.take(0) =~= Seq::<MapNodeItem>::empty());
    }
    while i < items.len()
        invariant
            0 <= i <= items.len(),
            r@ == items_text(items@.take(i as int)),
        decreases items.len() - i,
    {
        if i > 0 {
            push_str(&mut r, ", ");
        }
        assert(decreases_to!(items => items[i as int]));
        push_str(&mut r, items[i].to_string().as_str());
        proof {
            let t = items@.take(i + 1);
            assert(t.drop_last() =~= items@.take(i as int));
            assert(t.last() == items@[i as int]);
            assert(r@ =~= items_text(t));
        }
        i = i + 1;
    }
    proof {
        assert(items@.take(items@.len() as int) =~= items@);
    }
    r
}

fn nodes_string(elements: &Vec<Node>) -> (r: String)
    ensures
        r@ == nodes_text(elements@),
    decreases elements,
{
    let mut r = String::new();
    let mut i: usize = 0;
    proof {
        assert(elements@.take(0) =~= Seq::<Node>::empty());
    }
    while i < elements.len()
        invariant
            0 <= i <= elements.len(),
            r@ == nodes_text(elements@.take(i as int)),
        decreases elements.len() - i,
    {
        if i > 0 {
            push_str(&mut r, " ");
        }
        assert(decreases_to!(elements => elements[i as int]));
        push_str(&mut r, elements[i].to_string().as_str());
        proof {
            let t = elements@.take(i + 1);
            assert(t.drop_last() =~= elements@.take(i as int));
            assert(t.last() == elements@[i as int]);
            assert(r@ =~= nodes_text(t));
        }
        i = i + 1;
    }
    proof {
        assert(elements@.take(elements@.len() as int) =~= elements@);
    }
    r
}

fn names_string(names: &Vec<String>) -> (r: String)
    ensures
        r@ == names_text(names@),
{
    let mut r = String::new();
    let mut i: usize = 0;
    proof {
        assert(names@.take(0) =~= Seq::<String>::empty());
    }
    while i < names.len()
        invariant
            0 <= i <= names.len(),
            r@ == names_text(names@.take(i as int)),
        decreases names.len() - i,
    {
        if i > 0 {
            push_str(&mut r, ", ");
        }
        push_str(&mut r, names[i].as_str());
        proof {
            let t = names@.take(i + 1);
            assert(t.drop_last() =~= names@.take(i as int));
            assert(r@ =~= names_text(t));
        }
        i = i + 1;
    }
    proof {
        assert(names@.take(names@.len() as int) =~= names@);
    }
    r
}

impl NodeSyntax {
    /// The printed form of the syntax node, as `syntax_text` states.
    pub fn to_string(&self) -> (r: String)
        ensures
            r@ == syntax_text(*self),
        decreases self,
    {
        let mut r = String::new();
        match self {
            NodeSyntax::BinOp { op, left, right } | NodeSyntax::LogicOp { op, left, right } => {
                push_str(&mut r, "(");
                push_str(&mut r, op.as_str());
                push_str(&mut r, " ");
                push_str(&mut r, left.to_string().as_str());
                push_str(&mut r, " ");
                push_str(&mut r, right.to_string().as_str());
                push_str(&mut r, ")");
            },
            NodeSyntax::DotOp { left, attr } => {
                push_str(&mut r, "(. ");
                push_str(&mut r, left.to_string().as_str());
                push_str(&mut r, " ");
                push_str(&mut r, attr.as_str());
                push_str(&mut r, ")");
            },
            NodeSyntax::FuncCall { func_ref, args } => {
                push_str(&mut r, "(call ");
                push_str(&mut r, func_ref.to_string().as_str());
                push_str(&mut r, " ");
                push_str(&mut r, "[");
                push_str(&mut r, args_string(args).as_str());
                push_str(&mut r, "]");
                push_str(&mut r, ")");
            },
            NodeSyntax::FuncDef { arg_names, body } => {
                push_str(&mut r, "(function ");
                push_str(&mut r, "[");
                push_str(&mut r, names_string(arg_names).as_str());
                push_str(&mut r, "]");
                push_str(&mut r, " ");
                push_str(&mut r, body.to_string().as_str());
                push_str(&mut r, ")");
            },
            NodeSyntax::Var(v) | NodeSyntax::Ident(v) | NodeSyntax::Number(v) | NodeSyntax::Str(v)
            | NodeSyntax::Temporal(v) => {
                push_str(&mut r, v.as_str());
            },
            NodeSyntax::Bool(b) => {
                if *b {
                    push_str(&mut r, "true");
                } else {
                    push_str(&mut r, "false");
                }
            },
            NodeSyntax::Null => {
                push_str(&mut r, "null");
            },
            NodeSyntax::Neg(v) => {
                push_str(&mut r, "(- ");
                push_str(&mut r, v.to_string().as_str());
                push_str(&mut r, ")");
            },
            NodeSyntax::Range { start_open, start, end_open, end } => {
                push_str(
                    &mut r,
                    if *start_open {
                        "("
                    } else {
                        "["
                    },
                );
                push_str(&mut r, start.to_string().as_str());
                push_str(&mut r, "..");
                push_str(&mut r, end.to_string().as_str());
                push_str(
                    &mut r,
                    if *end_open {
                        ")"
                    } else {
                        "]"
                    },
                );
            },
            NodeSyntax::Array(elements) => {
                push_str(&mut r, "[");
                push_str(&mut r, boxes_string(elements).as_str());
                push_str(&mut r, "]");
            },
            NodeSyntax::MapExpr(items) => {
                push_str(&mut r, "{");
                push_str(&mut r, items_string(items).as_str());
                push_str(&mut r, "}");
            },
            NodeSyntax::IfExpr { condition, then_branch, else_branch } => {
                push_str(&mut r, "(if ");
                push_str(&mut r, condition.to_string().as_str());
                push_str(&mut r, " ");
                push_str(&mut r, then_branch.to_string().as_str());
                push_str(&mut r, " ");
                push_str(&mut r, else_branch.to_string().as_str());
                push_str(&mut r, ")");
            },
            NodeSyntax::ForExpr { var_name, list_expr, return_expr } => {
                push_str(&mut r, "(for ");
                push_str(&mut r, var_name.as_str());
                push_str(&mut r, " in ");
                push_str(&mut r, list_expr.to_string().as_str());
                push_str(&mut r, " ");
                push_str(&mut r, return_expr.to_string().as_str());
                push_str(&mut r, ")");
            },
            NodeSyntax::SomeExpr { var_name, list_expr, filter_expr } => {
                push_str(&mut r, "(some ");
                push_str(&mut r, var_name.as_str());
                push_str(&mut r, " in ");
                push_str(&mut r, list_expr.to_string().as_str());
                push_str(&mut r, " satisfies ");
                push_str(&mut r, filter_expr.to_string().as_str());
                push_str(&mut r, ")");
            },
            NodeSyntax::EveryExpr { var_name, list_expr, filter_expr } => {
                push_str(&mut r, "(every ");
                push_str(&mut r, var_name.as_str());
                push_str(&mut r, " in ");
                push_str(&mut r, list_expr.to_string().as_str());
                push_str(&mut r, " satisfies ");
                push_str(&mut r, filter_expr.to_string().as_str());
                push_str(&mut r, ")");
            },
            NodeSyntax::ExprList(elements) => {
                push_str(&mut r, "(expr-list ");
                push_str(&mut r, nodes_string(elements).as_str());
                push_str(&mut r, ")");
            },
            NodeSyntax::MultiTests(elements) => {
                push_str(&mut r, "(multi-tests ");
                push_str(&mut r, nodes_string(elements).as_str());
                push_str(&mut r, ")");
            },
        }
        proof {
            assert(r@ =~= syntax_text(*self));
        }
        r
    }
}

} // verus!
