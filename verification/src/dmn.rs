//! DMN decision models: the diagram read from a DMN document, its errors,
//! and the lookups and checks made on it.
use crate::eval::{eval_error_text, EvalError};
use crate::text::{debug_str, debug_text, push_str};
use vstd::prelude::*;

verus! {

/// An error of reading or querying an XML document; the errors of the XML
/// libraries are kept as their messages.
#[derive(Debug)]
pub enum XmlError {
    ParseError(String),
    NoAttribute(String),
    InvalidElement(String),
    NoElement(String),
    XPathParserError(String),
    XPathExecutionError(String),
}

pub open spec fn xml_error_text(e: XmlError) -> Seq<char> {
    match e {
        XmlError::ParseError(m) => "parse xml error "@ + m@,
        XmlError::NoAttribute(m) => "attribute `"@ + m@ + "` not found"@,
        XmlError::InvalidElement(m) => "invalid element `"@ + m@ + "`"@,
        XmlError::NoElement(m) => "no element `"@ + m@ + "`"@,
        XmlError::XPathParserError(m) => "parse xpath error "@ + m@,
        XmlError::XPathExecutionError(m) => "execute xpath error "@ + m@,
    }
}

impl XmlError {
    pub fn to_string(&self) -> (r: String)
        ensures
            r@ == xml_error_text(*self),
    {
        let mut r = String::new();
        match self {
            XmlError::ParseError(m) => {
                push_str(&mut r, "parse xml error ");
                push_str(&mut r, m.as_str());
            },
            XmlError::NoAttribute(m) => {
                push_str(&mut r, "attribute `");
                push_str(&mut r, m.as_str());
                push_str(&mut r, "` not found");
            },
            XmlError::InvalidElement(m) => {
                push_str(&mut r, "invalid element `");
                push_str(&mut r, m.as_str());
                push_str(&mut r, "`");
            },
            XmlError::NoElement(m) => {
                push_str(&mut r, "no element `");
                push_str(&mut r, m.as_str());
                push_str(&mut r, "`");
            },
            XmlError::XPathParserError(m) => {
                push_str(&mut r, "parse xpath error ");
                push_str(&mut r, m.as_str());
            },
            XmlError::XPathExecutionError(m) => {
                push_str(&mut r, "execute xpath error ");
                push_str(&mut r, m.as_str());
            },
        }
        assert(r@ =~= xml_error_text(*self));
        r
    }
}

/// An error of reading or evaluating a DMN document.  A FEEL error is kept
/// as its message, with the location and the text it arose in.
#[derive(Debug)]
pub enum DmnError {
    NoAttribute(String),
    InvalidElement(String),
    NoElement(String),
    IOError(String),
    XML(XmlError),
    FEELEval(EvalError, String, String),
    HitPolicy(String),
    Context(String, Box<DmnError>),
    File(String, Box<DmnError>),
}

/// The printed form of a DMN error.
pub open spec fn dmn_error_text(e: DmnError) -> Seq<char>
    decreases e,
{
    match e {
        DmnError::NoAttribute(name) => "attribute "@ + name@ + " not found"@,
        DmnError::InvalidElement(name) => "invalid element "@ + name@,
        DmnError::NoElement(name) => "no element `"@ + name@ + "`"@,
        DmnError::IOError(m) => "io error "@ + m@,
        DmnError::XML(x) => "parse XML error "@ + xml_error_text(x),
        DmnError::FEELEval(err, path, _) => "eval FEEL error at "@ + path@ + ", "@
            + eval_error_text(err),
        DmnError::HitPolicy(m) => m@,
        DmnError::Context(location, inner) => location@ + " "@ + dmn_error_text(*inner),
        DmnError::File(path, inner) => "file="@ + path@ + " "@ + dmn_error_text(*inner),
    }
}

impl DmnError {
    pub fn to_string(&self) -> (r: String)
        ensures
            r@ == dmn_error_text(*self),
        decreases self,
    {
        let mut r = String::new();
        match self {
            DmnError::NoAttribute(name) => {
                push_str(&mut r, "attribute ");
                push_str(&mut r, name.as_str());
                push_str(&mut r, " not found");
            },
            DmnError::InvalidElement(name) => {
                push_str(&mut r, "invalid element ");
                push_str(&mut r, name.as_str());
            },
            DmnError::NoElement(name) => {
                push_str(&mut r, "no element `");
                push_str(&mut r, name.as_str());
                push_str(&mut r, "`");
            },
            DmnError::IOError(m) => {
                push_str(&mut r, "io error ");
                push_str(&mut r, m.as_str());
            },
            DmnError::XML(x) => {
                push_str(&mut r, "parse XML error ");
                push_str(&mut r, x.to_string().as_str());
            },
            DmnError::FEELEval(err, path, _) => {
                push_str(&mut r, "eval FEEL error at ");
                push_str(&mut r, path.as_str());
                push_str(&mut r, ", ");
                push_str(&mut r, err.to_string().as_str());
            },
            DmnError::HitPolicy(m) => {
                push_str(&mut r, m.as_str());
            },
            DmnError::Context(location, inner) => {
                push_str(&mut r, location.as_str());
                push_str(&mut r, " ");
                push_str(&mut r, inner.to_string().as_str());
            },
            DmnError::File(path, inner) => {
                push_str(&mut r, "file=");
                push_str(&mut r, path.as_str());
                push_str(&mut r, " ");
                push_str(&mut r, inner.to_string().as_str());
            },
        }
        assert(r@ =~= dmn_error_text(*self));
        r
    }
}

#[derive(Debug)]
pub struct InputExpression {
    pub id: String,
    pub type_ref: String,
    pub text: String,
}

#[derive(Debug)]
pub struct Input {
    pub id: String,
    pub label: String,
    pub expression: InputExpression,
}

#[derive(Debug)]
pub struct Output {
    pub id: String,
    pub name: String,
    pub type_ref: String,
    pub allowed_values: Vec<String>,
}

#[derive(Debug)]
pub struct RuleInputEntry {
    pub id: String,
    pub text: String,
}

#[derive(Debug)]
pub struct RuleOutputEntry {
    pub id: String,
    pub text: String,
}

#[derive(Debug)]
pub struct Rule {
    pub id: String,
    pub description: String,
    pub input_entries: Vec<RuleInputEntry>,
    pub output_entries: Vec<RuleOutputEntry>,
}

#[derive(Debug)]
pub struct DecisionTable {
    pub id: String,
    pub hit_policy: String,
    pub inputs: Vec<Input>,
    pub outputs: Vec<Output>,
    pub rules: Vec<Rule>,
}

#[derive(Debug)]
pub struct Requirements {
    pub required_inputs: Vec<String>,
    pub required_decisions: Vec<String>,
    pub required_authorities: Vec<String>,
}

#[derive(Debug)]
pub struct InputData {
    pub id: String,
    pub name: String,
    pub requirements: Requirements,
}

#[derive(Debug)]
pub struct BusinessKnowledgeModel {
    pub id: String,
    pub name: String,
    pub requirements: Requirements,
}

#[derive(Debug)]
pub struct KnowledgeSource {
    pub id: String,
    pub name: String,
    pub requirements: Requirements,
}

#[derive(Debug)]
pub struct Decision {
    pub id: String,
    pub decision_table: Option<DecisionTable>,
    pub requirements: Requirements,
}

#[derive(Debug)]
pub struct Diagram {
    pub id: String,
    pub decisions: Vec<Decision>,
    pub input_datas: Vec<InputData>,
    pub business_knowledge_models: Vec<BusinessKnowledgeModel>,
    pub knowledge_sources: Vec<KnowledgeSource>,
}

impl Clone for InputExpression {
    fn clone(&self) -> (r: Self)
        ensures
            r == *self,
    {
        InputExpression {
            id: self.id.clone(),
            type_ref: self.type_ref.clone(),
            text: self.text.clone(),
        }
    }
}

impl Clone for Input {
    fn clone(&self) -> (r: Self)
        ensures
            r == *self,
    {
        Input { id: self.id.clone(), label: self.label.clone(), expression: self.expression.clone() }
    }
}

/// Two outputs with the same fields.
pub open spec fn output_same(a: Output, b: Output) -> bool {
    &&& a.id == b.id
    &&& a.name == b.name
    &&& a.type_ref == b.type_ref
    &&& a.allowed_values@ == b.allowed_values@
}

/// Two rules with the same fields.
pub open spec fn rule_same(a: Rule, b: Rule) -> bool {
    &&& a.id == b.id
    &&& a.description == b.description
    &&& a.input_entries@ == b.input_entries@
    &&& a.output_entries@ == b.output_entries@
}

/// Two decision tables with the same fields.
pub open spec fn table_same(a: DecisionTable, b: DecisionTable) -> bool {
    &&& a.id == b.id
    &&& a.hit_policy == b.hit_policy
    &&& a.inputs@ == b.inputs@
    &&& a.outputs@.len() == b.outputs@.len()
    &&& forall|i: int| 0 <= i < a.outputs@.len() ==> output_same(#[trigger] a.outputs@[i], b.outputs@[i])
    &&& a.rules@.len() == b.rules@.len()
    &&& forall|i: int| 0 <= i < a.rules@.len() ==> rule_same(#[trigger] a.rules@[i], b.rules@[i])
}

/// Two requirement lists with the same references.
pub open spec fn requirements_same(a: Requirements, b: Requirements) -> bool {
    &&& a.required_inputs@ == b.required_inputs@
    &&& a.required_decisions@ == b.required_decisions@
    &&& a.required_authorities@ == b.required_authorities@
}

/// Two decisions with the same fields.
pub open spec fn decision_same(a: Decision, b: Decision) -> bool {
    &&& a.id == b.id
    &&& requirements_same(a.requirements, b.requirements)
    &&& match (a.decision_table, b.decision_table) {
        (Some(x), Some(y)) => table_same(x, y),
        (None, None) => true,
        _ => false,
    }
}

impl Clone for Output {
    fn clone(&self) -> (r: Self)
        ensures
            output_same(r, *self),
    {
        let allowed_values = self.allowed_values.clone();
        assert(allowed_values@ =~= self.allowed_values@);
        Output {
            id: self.id.clone(),
            name: self.name.clone(),
            type_ref: self.type_ref.clone(),
            allowed_values,
        }
    }
}

impl Clone for RuleInputEntry {
    fn clone(&self) -> (r: Self)
        ensures
            r == *self,
    {
        RuleInputEntry { id: self.id.clone(), text: self.text.clone() }
    }
}

impl Clone for RuleOutputEntry {
    fn clone(&self) -> (r: Self)
        ensures
            r == *self,
    {
        RuleOutputEntry { id: self.id.clone(), text: self.text.clone() }
    }
}

impl Clone for Rule {
    fn clone(&self) -> (r: Self)
        ensures
            rule_same(r, *self),
    {
        let input_entries = self.input_entries.clone();
        let output_entries = self.output_entries.clone();
        assert(input_entries@ =~= self.input_entries@);
        assert(output_entries@ =~= self.output_entries@);
        Rule {
            id: self.id.clone(),
            description: self.description.clone(),
            input_entries,
            output_entries,
        }
    }
}

impl Clone for DecisionTable {
    fn clone(&self) -> (r: Self)
        ensures
            table_same(r, *self),
    {
        let inputs = self.inputs.clone();
        let outputs = self.outputs.clone();
        let rules = self.rules.clone();
        assert(inputs@ =~= self.inputs@);
        assert forall|i: int| 0 <= i < outputs@.len() implies output_same(
            #[trigger] outputs@[i],
            self.outputs@[i],
        ) by {
            assert(cloned::<Output>(self.outputs@[i], outputs@[i]));
        }
        assert forall|i: int| 0 <= i < rules@.len() implies rule_same(
            #[trigger] rules@[i],
            self.rules@[i],
        ) by {
            assert(cloned::<Rule>(self.rules@[i], rules@[i]));
        }
        DecisionTable {
            id: self.id.clone(),
            hit_policy: self.hit_policy.clone(),
            inputs,
            outputs,
            rules,
        }
    }
}

impl Clone for Requirements {
    fn clone(&self) -> (r: Self)
        ensures
            requirements_same(r, *self),
    {
        let required_inputs = self.required_inputs.clone();
        let required_decisions = self.required_decisions.clone();
        let required_authorities = self.required_authorities.clone();
        assert(required_inputs@ =~= self.required_inputs@);
        assert(required_decisions@ =~= self.required_decisions@);
        assert(required_authorities@ =~= self.required_authorities@);
        Requirements { required_inputs, required_decisions, required_authorities }
    }
}

impl Clone for Decision {
    fn clone(&self) -> (r: Self)
        ensures
            decision_same(r, *self),
    {
        let decision_table = match &self.decision_table {
            Some(t) => Some(t.clone()),
            None => None,
        };
        Decision {
            id: self.id.clone(),
            decision_table,
            requirements: self.requirements.clone(),
        }
    }
}

/// The index of the first decision whose id, after a `#`, is `key`.
pub open spec fn first_decision(ds: Seq<Decision>, key: Seq<char>) -> Option<int>
    decreases ds.len(),
{
    if ds.len() == 0 {
        None
    } else {
        match first_decision(ds.drop_last(), key) {
            Some(i) => Some(i),
            None => if "#"@ + ds.last().id@ == key {
                Some(ds.len() - 1)
            } else {
                None
            },
        }
    }
}

proof fn lemma_first_decision(ds: Seq<Decision>, key: Seq<char>)
    ensures
        match first_decision(ds, key) {
            Some(i) => 0 <= i < ds.len() && "#"@ + ds[i].id@ == key && forall|j: int|
                0 <= j < i ==> "#"@ + (#[trigger] ds[j]).id@ != key,
            None => forall|j: int| 0 <= j < ds.len() ==> "#"@ + (#[trigger] ds[j]).id@ != key,
        },
    decreases ds.len(),
{
    if ds.len() > 0 {
        let w = ds.drop_last();
        lemma_first_decision(w, key);
        assert forall|j: int| 0 <= j < w.len() implies w[j] == ds[j] by {}
        match first_decision(w, key) {
            Some(i) => {
                assert(w[i] == ds[i]);
                assert forall|j: int| 0 <= j < i implies "#"@ + (#[trigger] ds[j]).id@ != key by {
                    assert(w[j] == ds[j]);
                }
            },
            None => {
                assert forall|j: int| 0 <= j < ds.len() - 1 implies "#"@ + (#[trigger] ds[j]).id@
                    != key by {
                    assert(w[j] == ds[j]);
                }
            },
        }
    }
}

fn is_ref_to(id: &str, key: &str) -> (r: bool)
    ensures
        r == ("#"@ + id@ == key@),
{
    let mut s = String::new();
    push_str(&mut s, "#");
    push_str(&mut s, id);
    crate::text::str_eq(s.as_str(), key)
}

impl Diagram {
    /// The first decision referred to by `decision_id`, written `#` and the
    /// decision's id.
    pub fn find_decision(&self, decision_id: String) -> (r: Result<Decision, DmnError>)
        ensures
            match first_decision(self.decisions@, decision_id@) {
                Some(i) => r matches Ok(d) && decision_same(d, self.decisions@[i]),
                None => r matches Err(DmnError::NoElement(m)) && m@ == "decision[@id="@
                    + decision_id@ + "]"@,
            },
    {
        let mut i: usize = 0;
        while i < self.decisions.len()
            invariant
                0 <= i <= self.decisions.len(),
                first_decision(self.decisions@.take(i as int), decision_id@) is None,
            decreases self.decisions.len() - i,
        {
            proof {
                let t = self.decisions@.take(i + 1);
                assert(t.drop_last() =~= self.decisions@.take(i as int));
                lemma_first_decision(self.decisions@, decision_id@);
                lemma_first_decision(self.decisions@.take(i as int), decision_id@);
                lemma_first_decision(t, decision_id@);
            }
            if is_ref_to(self.decisions[i].id.as_str(), decision_id.as_str()) {
                proof {
                    lemma_first_decision(self.decisions@, decision_id@);
                    let tk = self.decisions@.take(i as int);
                    if let Some(k) = first_decision(self.decisions@, decision_id@) {
                        if k < i {
                            assert(tk[k] == self.decisions@[k]);
                        }
                        if k > i {
                            assert("#"@ + self.decisions@[i as int].id@ != decision_id@);
                        }
                    }
                }
                return Ok(self.decisions[i].clone());
            }
            i = i + 1;
        }
        proof {
            assert(self.decisions@.take(i as int) =~= self.decisions@);
        }
        let mut m = String::new();
        push_str(&mut m, "decision[@id=");
        push_str(&mut m, decision_id.as_str());
        push_str(&mut m, "]");
        Err(DmnError::NoElement(m))
    }
}

/// The name a table shows for an input: its label, else its expression's
/// text, else its id.
pub open spec fn input_name_spec(input: Input) -> Seq<char> {
    if input.label@.len() > 0 {
        input.label@
    } else if input.expression.text@.len() > 0 {
        input.expression.text@
    } else {
        input.id@
    }
}

pub fn input_name(input: &Input) -> (r: &str)
    ensures
        r@ == input_name_spec(*input),
{
    if !input.label.as_str().is_empty() {
        input.label.as_str()
    } else if !input.expression.text.as_str().is_empty() {
        input.expression.text.as_str()
    } else {
        input.id.as_str()
    }
}

/// The name a table shows for an output: its name, else its id.
pub fn output_name(output: &Output) -> (r: &str)
    ensures
        r@ == if output.name@.len() == 0 {
            output.id@
        } else {
            output.name@
        },
{
    if output.name.as_str().is_empty() {
        output.id.as_str()
    } else {
        output.name.as_str()
    }
}

/// The hit policies the evaluator supports.
pub open spec fn supported_hit_policy(p: Seq<char>) -> bool {
    p == "FIRST"@ || p == "UNIQUE"@ || p == "COLLECT"@ || p == "ANY"@ || p == "PRIORITY"@
}

/// Accepts the hit policies `FIRST`, `UNIQUE`, `COLLECT`, `ANY` and
/// `PRIORITY`; any other is an error reported at `location`.
pub fn validate_hit_policy(hit_policy: &str, location: &str) -> (r: Result<(), DmnError>)
    ensures
        supported_hit_policy(hit_policy@) ==> r is Ok,
        !supported_hit_policy(hit_policy@) ==> (r matches Err(DmnError::HitPolicy(m)) && m@
            == location@ + " error=unsupported hit policy "@ + debug_text(hit_policy@)),
{
    if crate::text::str_eq(hit_policy, "FIRST") || crate::text::str_eq(hit_policy, "UNIQUE")
        || crate::text::str_eq(hit_policy, "COLLECT") || crate::text::str_eq(hit_policy, "ANY")
        || crate::text::str_eq(hit_policy, "PRIORITY") {
        Ok(())
    } else {
        let mut m = String::new();
        push_str(&mut m, location);
        push_str(&mut m, " error=unsupported hit policy ");
        push_str(&mut m, debug_str(hit_policy).as_str());
        Err(DmnError::HitPolicy(m))
    }
}

} // verus!
