use anpai::eval::EvalError;
use anpai::dmn::{
    input_name, output_name, validate_hit_policy, Decision, DecisionTable, Diagram, DmnError,
    Input, InputExpression, Output, Requirements, XmlError,
};

fn requirements() -> Requirements {
    Requirements { required_inputs: vec![], required_decisions: vec![], required_authorities: vec![] }
}

fn decision(id: &str, table_id: &str) -> Decision {
    Decision {
        id: id.to_owned(),
        decision_table: Some(DecisionTable {
            id: table_id.to_owned(),
            hit_policy: "FIRST".to_owned(),
            inputs: vec![],
            outputs: vec![Output {
                id: "o".to_owned(),
                name: "result".to_owned(),
                type_ref: "string".to_owned(),
                allowed_values: vec!["\"a\"".to_owned()],
            }],
            rules: vec![],
        }),
        requirements: requirements(),
    }
}

fn diagram() -> Diagram {
    Diagram {
        id: "d".to_owned(),
        decisions: vec![decision("one", "t1"), decision("two", "t2"), decision("two", "t3")],
        input_datas: vec![],
        business_knowledge_models: vec![],
        knowledge_sources: vec![],
    }
}

#[test]
fn find_decision_by_reference() {
    let d = diagram().find_decision("#two".to_owned()).unwrap();
    assert_eq!(d.id, "two");
    let table = d.decision_table.unwrap();
    assert_eq!(table.id, "t2");
    assert_eq!(table.outputs[0].allowed_values, vec!["\"a\"".to_owned()]);
}

#[test]
fn find_decision_reports_missing_reference() {
    match diagram().find_decision("two".to_owned()) {
        Err(DmnError::NoElement(m)) => assert_eq!(m, "decision[@id=two]"),
        other => panic!("unexpected {:?}", other),
    }
}

#[test]
fn input_and_output_names() {
    let mut input = Input {
        id: "i".to_owned(),
        label: "Label".to_owned(),
        expression: InputExpression { id: "e".to_owned(), type_ref: String::new(), text: "x + 1".to_owned() },
    };
    assert_eq!(input_name(&input), "Label");
    input.label = String::new();
    assert_eq!(input_name(&input), "x + 1");
    input.expression.text = String::new();
    assert_eq!(input_name(&input), "i");
    let mut output = Output { id: "o".to_owned(), name: "n".to_owned(), type_ref: String::new(), allowed_values: vec![] };
    assert_eq!(output_name(&output), "n");
    output.name = String::new();
    assert_eq!(output_name(&output), "o");
}

#[test]
fn hit_policies() {
    for p in ["FIRST", "UNIQUE", "COLLECT", "ANY", "PRIORITY"] {
        assert!(validate_hit_policy(p, "decision=d table=t").is_ok());
    }
    match validate_hit_policy("RULE ORDER", "decision=d table=t") {
        Err(DmnError::HitPolicy(m)) => {
            assert_eq!(m, "decision=d table=t error=unsupported hit policy \"RULE ORDER\"")
        }
        other => panic!("unexpected {:?}", other),
    }
}

#[test]
fn dmn_error_texts() {
    let e = DmnError::File(
        "a.dmn".to_owned(),
        Box::new(DmnError::XML(XmlError::ParseError("bad".to_owned()))),
    );
    assert_eq!(e.to_string(), "file=a.dmn parse XML error parse xml error bad");
    let c = DmnError::Context("decision=d".to_owned(), Box::new(DmnError::NoAttribute("id".to_owned())));
    assert_eq!(c.to_string(), "decision=d attribute id not found");
    assert_eq!(
        DmnError::FEELEval(EvalError::index_error(), "rule/0".to_owned(), "x".to_owned()).to_string(),
        "eval FEEL error at rule/0, IndexError at chars: 0, lines: 0, cols: 0"
    );
    assert_eq!(XmlError::NoElement("x".to_owned()).to_string(), "no element `x`");
}
