use anpai::dmn::{DmnError, XmlError};
use anpai::dmn_read::parse_string;
use anpai::xml::{read_document, XmlNode};

#[test]
fn test_parse_rejects_unsupported_hit_policy() {
    let error = parse_string(
        r#"<definitions xmlns="https://www.omg.org/spec/DMN/20191111/MODEL/" id="definitions-1">
                <decision id="decision-1">
                    <decisionTable id="table-1" hitPolicy="RULE ORDER" />
                </decision>
            </definitions>"#,
    )
    .unwrap_err();

    assert!(matches!(error, DmnError::HitPolicy(message) if message.contains("RULE ORDER")));
}

#[test]
fn test_parse_rejects_rule_output_count_mismatch() {
    let error = parse_string(
        r#"<definitions xmlns="https://www.omg.org/spec/DMN/20191111/MODEL/" id="definitions-1">
                <decision id="decision-1">
                    <decisionTable id="table-1">
                        <output id="output-1" name="result" typeRef="string" />
                        <rule id="rule-1" />
                    </decisionTable>
                </decision>
            </definitions>"#,
    )
    .unwrap_err();

    assert!(
        matches!(error, DmnError::InvalidElement(message) if message.contains("output entry count 0"))
    );
}

#[test]
fn test_parse_rejects_rule_input_count_mismatch() {
    let error = parse_string(
        r#"<definitions xmlns="https://www.omg.org/spec/DMN/20191111/MODEL/" id="definitions-1">
                <decision id="decision-1">
                    <decisionTable id="table-1">
                        <input id="input-1" label="localMinute">
                            <inputExpression id="input-expression-1" typeRef="number"><text>value</text></inputExpression>
                        </input>
                        <rule id="rule-1" />
                    </decisionTable>
                </decision>
            </definitions>"#,
    )
    .unwrap_err();

    assert!(
        matches!(error, DmnError::InvalidElement(message) if message.contains("input entry count 0"))
    );
}

const SEASON: &str = r##"<?xml version="1.0" encoding="UTF-8"?>
<definitions xmlns="https://www.omg.org/spec/DMN/20191111/MODEL/" id="dish" name="Dish">
  <decision id="beverage" name="Beverage">
    <informationRequirement id="r1"><requiredDecision href="#dish-decision" /></informationRequirement>
    <informationRequirement id="r2"><requiredInput href="#season" /></informationRequirement>
    <authorityRequirement id="r3"><requiredAuthority href="#menu" /></authorityRequirement>
    <decisionTable id="beverage-table">
      <input id="season-input" label="Season">
        <inputExpression id="season-expression" typeRef="string">
          <text>  season </text>
        </inputExpression>
      </input>
      <output id="beverage-output" name="beverage" typeRef="string" />
      <rule id="winter">
        <description>cold days</description>
        <inputEntry id="winter-in"><text>"Winter"</text></inputEntry>
        <outputEntry id="winter-out"><text>"Tea"</text></outputEntry>
      </rule>
      <rule id="summer">
        <inputEntry id="summer-in"><text>"Summer"</text></inputEntry>
        <outputEntry id="summer-out"><text>"Lemonade"</text></outputEntry>
      </rule>
    </decisionTable>
  </decision>
  <inputData id="season" name="Season" />
  <businessKnowledgeModel id="bkm" name="Rules" />
  <knowledgeSource id="menu" name="Menu" />
</definitions>"##;

#[test]
fn reads_a_whole_diagram_in_document_order() {
    let d = parse_string(SEASON).unwrap();
    assert_eq!(d.id, "dish");
    assert_eq!(d.decisions.len(), 1);
    let decision = &d.decisions[0];
    assert_eq!(decision.id, "beverage");
    assert_eq!(decision.requirements.required_decisions, vec!["#dish-decision".to_string()]);
    assert_eq!(decision.requirements.required_inputs, vec!["#season".to_string()]);
    assert_eq!(decision.requirements.required_authorities, vec!["#menu".to_string()]);
    let table = decision.decision_table.as_ref().unwrap();
    assert_eq!(table.id, "beverage-table");
    assert_eq!(table.hit_policy, "FIRST");
    assert_eq!(table.inputs.len(), 1);
    assert_eq!(table.inputs[0].label, "Season");
    assert_eq!(table.inputs[0].expression.id, "season-expression");
    assert_eq!(table.inputs[0].expression.type_ref, "string");
    assert_eq!(table.inputs[0].expression.text, "season");
    assert_eq!(table.outputs.len(), 1);
    assert_eq!(table.outputs[0].name, "beverage");
    assert!(table.outputs[0].allowed_values.is_empty());
    assert_eq!(table.rules.len(), 2);
    assert_eq!(table.rules[0].id, "winter");
    assert_eq!(table.rules[0].description, "cold days");
    assert_eq!(table.rules[0].input_entries[0].text, "\"Winter\"");
    assert_eq!(table.rules[1].id, "summer");
    assert_eq!(table.rules[1].description, "");
    assert_eq!(table.rules[1].output_entries[0].text, "\"Lemonade\"");
    assert_eq!(d.input_datas.len(), 1);
    assert_eq!(d.input_datas[0].name, "Season");
    assert_eq!(d.business_knowledge_models[0].id, "bkm");
    assert_eq!(d.knowledge_sources[0].name, "Menu");
}

#[test]
fn a_missing_diagram_id_is_reported() {
    let error = parse_string(
        r#"<definitions xmlns="https://www.omg.org/spec/DMN/20191111/MODEL/" />"#,
    )
    .unwrap_err();
    assert!(matches!(error, DmnError::XML(XmlError::NoAttribute(ref a)) if a == "id"));
    assert_eq!(error.to_string(), "parse XML error attribute `id` not found");
}

#[test]
fn a_document_without_definitions_is_reported() {
    let error = parse_string(r#"<other id="x" />"#).unwrap_err();
    assert!(matches!(error, DmnError::XML(XmlError::NoElement(ref e)) if e == "ns:definitions"));
}

#[test]
fn definitions_outside_the_dmn_namespace_are_not_read() {
    let error = parse_string(r#"<definitions id="x" />"#).unwrap_err();
    assert!(matches!(error, DmnError::XML(XmlError::NoElement(_))));
}

#[test]
fn malformed_xml_is_a_parse_error() {
    let error = parse_string("<definitions>").unwrap_err();
    assert!(matches!(error, DmnError::XML(XmlError::ParseError(_))));
    assert!(error.to_string().contains("parse xml error"));
}

#[test]
fn an_output_without_id_is_located_in_its_table() {
    let error = parse_string(
        r#"<definitions xmlns="https://www.omg.org/spec/DMN/20191111/MODEL/" id="d">
                <decision id="decision-1">
                    <decisionTable id="table-1"><output name="result" /></decisionTable>
                </decision>
            </definitions>"#,
    )
    .unwrap_err();
    match error {
        DmnError::Context(location, inner) => {
            assert_eq!(location, "decision=decision-1 table=table-1 output=<unknown>");
            assert!(matches!(*inner, DmnError::XML(XmlError::NoAttribute(ref a)) if a == "id"));
        }
        other => panic!("unexpected error {}", other.to_string()),
    }
}

#[test]
fn a_rule_entry_count_message_names_both_counts() {
    let error = parse_string(
        r#"<definitions xmlns="https://www.omg.org/spec/DMN/20191111/MODEL/" id="d">
                <decision id="decision-1">
                    <decisionTable id="table-1" hitPolicy="UNIQUE">
                        <output id="o1" /><output id="o2" />
                        <rule id="r1"><outputEntry id="e1"><text>1</text></outputEntry></rule>
                    </decisionTable>
                </decision>
            </definitions>"#,
    )
    .unwrap_err();
    assert!(matches!(error, DmnError::InvalidElement(ref m)
        if m == "decision=decision-1 table=table-1 rule=r1 error=output entry count 1 does not match output column count 2"));
}

#[test]
fn documents_are_read_into_trees() {
    let roots = read_document(r#"<a xmlns="urn:x" k="v"><b>one</b>two<!-- c --></a>"#).unwrap();
    assert_eq!(roots.len(), 1);
    match &roots[0] {
        XmlNode::Element { ns, name, attrs, children } => {
            assert_eq!(ns.as_deref(), Some("urn:x"));
            assert_eq!(name, "a");
            assert_eq!(attrs, &vec![("k".to_string(), "v".to_string())]);
            assert_eq!(children.len(), 2);
            assert!(matches!(&children[1], XmlNode::Text(t) if t == "two"));
        }
        XmlNode::Text(_) => panic!("expected an element"),
    }
}
