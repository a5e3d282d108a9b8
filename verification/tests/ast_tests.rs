use anpai::ast::{FuncCallArg, MapNodeItem, Node, NodeSyntax};
use anpai::position::TextPosition;

fn n(s: NodeSyntax) -> Box<Node> {
    Node::new(s, TextPosition::zero())
}

fn var(name: &str) -> Box<Node> {
    n(NodeSyntax::Var(name.to_owned()))
}

fn num(v: &str) -> Box<Node> {
    n(NodeSyntax::Number(v.to_owned()))
}

#[test]
fn feel_ast_prints_calls_and_ops() {
    let call = n(NodeSyntax::FuncCall {
        func_ref: var("b"),
        args: vec![
            FuncCallArg { arg_name: String::new(), arg: num("4") },
            FuncCallArg { arg_name: "x".to_owned(), arg: num("9") },
        ],
    });
    let add = n(NodeSyntax::BinOp { op: "+".to_owned(), left: var("a"), right: call });
    assert_eq!(add.to_string(), "(+ a (call b [4, x:9]))");
}

#[test]
fn feel_ast_prints_lists_maps_and_ranges() {
    let list = n(NodeSyntax::ExprList(vec![*num("1"), *var("a")]));
    assert_eq!(list.to_string(), "(expr-list 1 a)");
    let tests = n(NodeSyntax::MultiTests(vec![*num("1")]));
    assert_eq!(tests.to_string(), "(multi-tests 1)");
    let map = n(NodeSyntax::MapExpr(vec![MapNodeItem {
        name: n(NodeSyntax::Ident("a".to_owned())),
        value: n(NodeSyntax::Array(vec![num("2"), num("1")])),
    }]));
    assert_eq!(map.to_string(), "{a: [2, 1]}");
    let range = n(NodeSyntax::Range { start_open: true, start: num("1"), end_open: false, end: num("5") });
    assert_eq!(range.to_string(), "(1..5]");
}

#[test]
fn feel_ast_prints_keyword_forms() {
    let f = n(NodeSyntax::FuncDef {
        arg_names: vec!["a".to_owned(), "b".to_owned()],
        body: n(NodeSyntax::LogicOp { op: "and".to_owned(), left: var("a"), right: var("b") }),
    });
    assert_eq!(f.to_string(), "(function [a, b] (and a b))");
    let e = n(NodeSyntax::EveryExpr {
        var_name: "x".to_owned(),
        list_expr: var("l"),
        filter_expr: n(NodeSyntax::Bool(true)),
    });
    assert_eq!(e.to_string(), "(every x in l satisfies true)");
    let i = n(NodeSyntax::IfExpr {
        condition: n(NodeSyntax::Null),
        then_branch: n(NodeSyntax::Neg(num("1"))),
        else_branch: n(NodeSyntax::DotOp { left: var("p"), attr: "q".to_owned() }),
    });
    assert_eq!(i.to_string(), "(if null (- 1) (. p q))");
}

#[test]
fn node_new_keeps_position() {
    let pos = TextPosition { chars: 3, lines: 1, cols: 2 };
    let node = Node::new(NodeSyntax::Null, pos);
    assert_eq!(node.start_pos, pos);
}
