//! Reading a DMN diagram out of an XML tree: what each element of a DMN
//! document must hold, where the reader looks for it, and the errors it
//! gives, with their locations, when something is missing or inconsistent.
use crate::dmn::{
    supported_hit_policy, validate_hit_policy, BusinessKnowledgeModel, Decision, DecisionTable,
    Diagram, DmnError, Input, InputData, InputExpression, KnowledgeSource, Output, Requirements,
    Rule, RuleInputEntry, RuleOutputEntry, XmlError,
};
use crate::helpers::views;
use crate::text::{debug_text, nat_text, push_str, push_usize, str_eq};
use crate::xml::{read_document, trim_text, trimmed, xml_parse_error, XmlNode};
use vstd::prelude::*;

verus! {

/// The namespace of DMN elements.
pub open spec fn dmn_ns() -> Seq<char> {
    "https://www.omg.org/spec/DMN/20191111/MODEL/"@
}

/// `x` is an element with local name `local`, in any namespace.
pub open spec fn named(x: XmlNode, local: Seq<char>) -> bool {
    x matches XmlNode::Element { name, .. } && name@ == local
}

/// `x` is an element of the DMN namespace with local name `local`.
pub open spec fn ns_named(x: XmlNode, local: Seq<char>) -> bool {
    x matches XmlNode::Element { ns: Some(u), name, .. } && u@ == dmn_ns() && name@ == local
}

/// The children of `x` (none for a text).
pub open spec fn kids(x: XmlNode) -> Seq<XmlNode> {
    match x {
        XmlNode::Element { children, .. } => children@,
        XmlNode::Text(_) => Seq::empty(),
    }
}

/// The attributes of `x` (none for a text).
pub open spec fn attrs_of(x: XmlNode) -> Seq<(String, String)> {
    match x {
        XmlNode::Element { attrs, .. } => attrs@,
        XmlNode::Text(_) => Seq::empty(),
    }
}

/// The value of the first attribute named `key`.
pub open spec fn attr_in(attrs: Seq<(String, String)>, key: Seq<char>) -> Option<Seq<char>>
    decreases attrs.len(),
{
    if attrs.len() == 0 {
        None
    } else if attrs[0].0@ == key {
        Some(attrs[0].1@)
    } else {
        attr_in(attrs.drop_first(), key)
    }
}

/// The value of the attribute `key` of `x`.
pub open spec fn attr(x: XmlNode, key: Seq<char>) -> Option<Seq<char>> {
    attr_in(attrs_of(x), key)
}

/// The value of the attribute `key` of `x`, or `default` where it has none.
pub open spec fn attr_or(x: XmlNode, key: Seq<char>, default: Seq<char>) -> Seq<char> {
    match attr(x, key) {
        Some(v) => v,
        None => default,
    }
}

/// The text of a node: its own text, or that of all the texts below it in
/// document order.
pub open spec fn string_value(x: XmlNode) -> Seq<char>
    decreases x,
{
    match x {
        XmlNode::Text(s) => s@,
        XmlNode::Element { children, .. } => texts(children@),
    }
}

/// The texts of a list of nodes, one after the other.
pub open spec fn texts(cs: Seq<XmlNode>) -> Seq<char>
    decreases cs,
{
    if cs.len() == 0 {
        Seq::empty()
    } else {
        texts(cs.subrange(0, cs.len() - 1)) + string_value(cs[cs.len() - 1])
    }
}

/// The texts of the DMN elements named `local` among `cs`, one after the
/// other.
pub open spec fn ns_texts(cs: Seq<XmlNode>, local: Seq<char>) -> Seq<char>
    decreases cs.len(),
{
    if cs.len() == 0 {
        Seq::empty()
    } else {
        ns_texts(cs.drop_last(), local) + if ns_named(cs.last(), local) {
            string_value(cs.last())
        } else {
            Seq::empty()
        }
    }
}

/// The text of the DMN children named `local` of `x`, trimmed.
pub open spec fn ns_text(x: XmlNode, local: Seq<char>) -> Seq<char> {
    trimmed(ns_texts(kids(x), local))
}

/// `k` is the position of the first DMN element named `local` in `cs`.
pub open spec fn first_at(cs: Seq<XmlNode>, local: Seq<char>, k: int) -> bool {
    &&& 0 <= k < cs.len()
    &&& ns_named(cs[k], local)
    &&& forall|j: int| 0 <= j < k ==> !ns_named(#[trigger] cs[j], local)
}

/// The position of the first DMN element named `local` in `cs`, if any.
pub open spec fn first_ns(cs: Seq<XmlNode>, local: Seq<char>) -> Option<int> {
    if exists|k: int| first_at(cs, local, k) {
        Some(choose|k: int| first_at(cs, local, k))
    } else {
        None
    }
}

/// Where a reading error is and what it is.
pub enum ReadErr {
    /// An attribute that must be there is missing.
    Attr(Seq<char>),
    /// A child element that must be there is missing.
    Elem(Seq<char>),
    /// An element is inconsistent.
    Invalid(Seq<char>),
    /// A decision table names a hit policy that is not supported.
    Policy(Seq<char>),
    /// An error within the element at a location.
    Context(Seq<char>, Box<ReadErr>),
}

/// `e` is the error that `s` describes.
pub open spec fn err_is(e: DmnError, s: ReadErr) -> bool
    decreases s,
{
    match s {
        ReadErr::Attr(a) => e matches DmnError::XML(XmlError::NoAttribute(m)) && m@ == a,
        ReadErr::Elem(a) => e matches DmnError::XML(XmlError::NoElement(m)) && m@ == a,
        ReadErr::Invalid(a) => e matches DmnError::InvalidElement(m) && m@ == a,
        ReadErr::Policy(a) => e matches DmnError::HitPolicy(m) && m@ == a,
        ReadErr::Context(l, inner) => e matches DmnError::Context(m, b) && m@ == l && err_is(
            *b,
            *inner,
        ),
    }
}


/// What a decision table input holds: its id and label, and the id, type
/// and text of its input expression.
pub struct SInput {
    pub id: Seq<char>,
    pub label: Seq<char>,
    pub expr_id: Seq<char>,
    pub type_ref: Seq<char>,
    pub text: Seq<char>,
}

/// What a decision table output holds.
pub struct SOutput {
    pub id: Seq<char>,
    pub name: Seq<char>,
    pub type_ref: Seq<char>,
    pub allowed_values: Seq<Seq<char>>,
}

/// What an input or output entry of a rule holds.
pub struct SEntry {
    pub id: Seq<char>,
    pub text: Seq<char>,
}

/// What a rule holds.
pub struct SRule {
    pub id: Seq<char>,
    pub description: Seq<char>,
    pub inputs: Seq<SEntry>,
    pub outputs: Seq<SEntry>,
}

/// What a decision table holds.
pub struct STable {
    pub id: Seq<char>,
    pub hit_policy: Seq<char>,
    pub inputs: Seq<SInput>,
    pub outputs: Seq<SOutput>,
    pub rules: Seq<SRule>,
}

/// The references of an element's requirements.
pub struct SReq {
    pub inputs: Seq<Seq<char>>,
    pub decisions: Seq<Seq<char>>,
    pub authorities: Seq<Seq<char>>,
}

/// What a decision holds.
pub struct SDecision {
    pub id: Seq<char>,
    pub table: Option<STable>,
    pub req: SReq,
}

/// What an input data, a business knowledge model or a knowledge source
/// holds.
pub struct SNamed {
    pub id: Seq<char>,
    pub name: Seq<char>,
    pub req: SReq,
}

/// What a diagram holds.
pub struct SDiagram {
    pub id: Seq<char>,
    pub decisions: Seq<SDecision>,
    pub input_datas: Seq<SNamed>,
    pub models: Seq<SNamed>,
    pub sources: Seq<SNamed>,
}

pub open spec fn input_view(i: Input) -> SInput {
    SInput {
        id: i.id@,
        label: i.label@,
        expr_id: i.expression.id@,
        type_ref: i.expression.type_ref@,
        text: i.expression.text@,
    }
}

pub open spec fn output_view(o: Output) -> SOutput {
    SOutput {
        id: o.id@,
        name: o.name@,
        type_ref: o.type_ref@,
        allowed_values: views(o.allowed_values@),
    }
}

pub open spec fn in_entry_view(e: RuleInputEntry) -> SEntry {
    SEntry { id: e.id@, text: e.text@ }
}

pub open spec fn out_entry_view(e: RuleOutputEntry) -> SEntry {
    SEntry { id: e.id@, text: e.text@ }
}

pub open spec fn in_entries_view(v: Seq<RuleInputEntry>) -> Seq<SEntry> {
    v.map_values(|e: RuleInputEntry| in_entry_view(e))
}

pub open spec fn out_entries_view(v: Seq<RuleOutputEntry>) -> Seq<SEntry> {
    v.map_values(|e: RuleOutputEntry| out_entry_view(e))
}

pub open spec fn rule_view(r: Rule) -> SRule {
    SRule {
        id: r.id@,
        description: r.description@,
        inputs: in_entries_view(r.input_entries@),
        outputs: out_entries_view(r.output_entries@),
    }
}

pub open spec fn inputs_view(v: Seq<Input>) -> Seq<SInput> {
    v.map_values(|i: Input| input_view(i))
}

pub open spec fn outputs_view(v: Seq<Output>) -> Seq<SOutput> {
    v.map_values(|o: Output| output_view(o))
}

pub open spec fn rules_view(v: Seq<Rule>) -> Seq<SRule> {
    v.map_values(|r: Rule| rule_view(r))
}

pub open spec fn table_view(t: DecisionTable) -> STable {
    STable {
        id: t.id@,
        hit_policy: t.hit_policy@,
        inputs: inputs_view(t.inputs@),
        outputs: outputs_view(t.outputs@),
        rules: rules_view(t.rules@),
    }
}

pub open spec fn req_view(q: Requirements) -> SReq {
    SReq {
        inputs: views(q.required_inputs@),
        decisions: views(q.required_decisions@),
        authorities: views(q.required_authorities@),
    }
}

pub open spec fn decision_view(d: Decision) -> SDecision {
    SDecision {
        id: d.id@,
        table: match d.decision_table {
            Some(t) => Some(table_view(t)),
            None => None,
        },
        req: req_view(d.requirements),
    }
}

pub open spec fn decisions_view(v: Seq<Decision>) -> Seq<SDecision> {
    v.map_values(|d: Decision| decision_view(d))
}

pub open spec fn input_datas_view(v: Seq<InputData>) -> Seq<SNamed> {
    v.map_values(|d: InputData| SNamed { id: d.id@, name: d.name@, req: req_view(d.requirements) })
}

pub open spec fn models_view(v: Seq<BusinessKnowledgeModel>) -> Seq<SNamed> {
    v.map_values(
        |d: BusinessKnowledgeModel| SNamed { id: d.id@, name: d.name@, req: req_view(d.requirements) },
    )
}

pub open spec fn sources_view(v: Seq<KnowledgeSource>) -> Seq<SNamed> {
    v.map_values(
        |d: KnowledgeSource| SNamed { id: d.id@, name: d.name@, req: req_view(d.requirements) },
    )
}

pub open spec fn diagram_view(d: Diagram) -> SDiagram {
    SDiagram {
        id: d.id@,
        decisions: decisions_view(d.decisions@),
        input_datas: input_datas_view(d.input_datas@),
        models: models_view(d.business_knowledge_models@),
        sources: sources_view(d.knowledge_sources@),
    }
}

/// `r` is what `s` describes: the same value, by `view`, or the same error.
pub open spec fn read_as<T, V>(
    r: Result<T, DmnError>,
    s: Result<V, ReadErr>,
    view: spec_fn(T) -> V,
) -> bool {
    match s {
        Ok(v) => r matches Ok(t) && view(t) == v,
        Err(e) => r matches Err(f) && err_is(f, e),
    }
}

/// Reads, in document order, each of `cs` that `pick` selects; the first
/// error stops the reading.
pub open spec fn collect<T>(
    cs: Seq<XmlNode>,
    pick: spec_fn(XmlNode) -> bool,
    read: spec_fn(XmlNode) -> Result<T, ReadErr>,
) -> Result<Seq<T>, ReadErr>
    decreases cs.len(),
{
    if cs.len() == 0 {
        Ok(Seq::empty())
    } else {
        match collect(cs.drop_last(), pick, read) {
            Err(e) => Err(e),
            Ok(p) => if pick(cs.last()) {
                match read(cs.last()) {
                    Ok(v) => Ok(p.push(v)),
                    Err(e) => Err(e),
                }
            } else {
                Ok(p)
            },
        }
    }
}

/// An error in reading a prefix of `cs` is the error of reading all of it.
pub proof fn lemma_collect_prefix_err<T>(
    cs: Seq<XmlNode>,
    n: int,
    pick: spec_fn(XmlNode) -> bool,
    read: spec_fn(XmlNode) -> Result<T, ReadErr>,
)
    requires
        0 <= n <= cs.len(),
        collect(cs.take(n), pick, read) is Err,
    ensures
        collect(cs, pick, read) == collect(cs.take(n), pick, read),
    decreases cs.len(),
{
    if n < cs.len() {
        assert(cs.drop_last().take(n) =~= cs.take(n));
        lemma_collect_prefix_err(cs.drop_last(), n, pick, read);
    } else {
        assert(cs.take(n) =~= cs);
    }
}

/// The references of a list of lists, one list after the other.
pub open spec fn concat_all(s: Seq<Seq<Seq<char>>>) -> Seq<Seq<char>>
    decreases s.len(),
{
    if s.len() == 0 {
        Seq::empty()
    } else {
        concat_all(s.drop_last()) + s.last()
    }
}

pub open spec fn pick_ns(local: Seq<char>) -> spec_fn(XmlNode) -> bool {
    |c: XmlNode| ns_named(c, local)
}

pub open spec fn pick_named(local: Seq<char>) -> spec_fn(XmlNode) -> bool {
    |c: XmlNode| named(c, local)
}

/// The `href` of a requirement element.
pub open spec fn href_read() -> spec_fn(XmlNode) -> Result<Seq<char>, ReadErr> {
    |c: XmlNode|
        match attr(c, "href"@) {
            Some(h) => Ok(h),
            None => Err(ReadErr::Attr("href"@)),
        }
}

/// The `href`s of the DMN children named `inner` of a requirement group.
pub open spec fn group_read(inner: Seq<char>) -> spec_fn(XmlNode) -> Result<
    Seq<Seq<char>>,
    ReadErr,
> {
    |c: XmlNode| collect(kids(c), pick_ns(inner), href_read())
}

/// The references named `outer`/`inner` below `x`, in document order.
pub open spec fn refs(x: XmlNode, outer: Seq<char>, inner: Seq<char>) -> Result<
    Seq<Seq<char>>,
    ReadErr,
> {
    match collect(kids(x), pick_ns(outer), group_read(inner)) {
        Ok(groups) => Ok(concat_all(groups)),
        Err(e) => Err(e),
    }
}

/// The requirements of `x`: required decisions, inputs and authorities.
pub open spec fn req_spec(x: XmlNode) -> Result<SReq, ReadErr> {
    match refs(x, "informationRequirement"@, "requiredDecision"@) {
        Err(e) => Err(e),
        Ok(d) => match refs(x, "informationRequirement"@, "requiredInput"@) {
            Err(e) => Err(e),
            Ok(i) => match refs(x, "authorityRequirement"@, "requiredAuthority"@) {
                Err(e) => Err(e),
                Ok(a) => Ok(SReq { inputs: i, decisions: d, authorities: a }),
            },
        },
    }
}

/// A rule entry: its id and the text of its `text` child.
pub open spec fn entry_read() -> spec_fn(XmlNode) -> Result<SEntry, ReadErr> {
    |c: XmlNode|
        match attr(c, "id"@) {
            Some(id) => Ok(SEntry { id, text: ns_text(c, "text"@) }),
            None => Err(ReadErr::Attr("id"@)),
        }
}

/// A rule: its id, description and input and output entries.
pub open spec fn rule_spec(x: XmlNode) -> Result<SRule, ReadErr> {
    match attr(x, "id"@) {
        None => Err(ReadErr::Attr("id"@)),
        Some(id) => match collect(kids(x), pick_named("inputEntry"@), entry_read()) {
            Err(e) => Err(e),
            Ok(ins) => match collect(kids(x), pick_named("outputEntry"@), entry_read()) {
                Err(e) => Err(e),
                Ok(outs) => Ok(
                    SRule { id, description: ns_text(x, "description"@), inputs: ins, outputs: outs },
                ),
            },
        },
    }
}

/// A decision table input: its id and label and its input expression.
pub open spec fn input_spec(x: XmlNode) -> Result<SInput, ReadErr> {
    match attr(x, "id"@) {
        None => Err(ReadErr::Attr("id"@)),
        Some(id) => match first_ns(kids(x), "inputExpression"@) {
            None => Err(ReadErr::Elem("ns:inputExpression"@)),
            Some(k) => {
                let ex = kids(x)[k];
                match attr(ex, "id"@) {
                    None => Err(ReadErr::Attr("id"@)),
                    Some(eid) => Ok(
                        SInput {
                            id,
                            label: attr_or(x, "label"@, Seq::empty()),
                            expr_id: eid,
                            type_ref: attr_or(ex, "typeRef"@, Seq::empty()),
                            text: ns_text(ex, "text"@),
                        },
                    ),
                }
            },
        },
    }
}

/// An input of the table at `tloc`, with its location on error.
pub open spec fn input_read(tloc: Seq<char>) -> spec_fn(XmlNode) -> Result<SInput, ReadErr> {
    |c: XmlNode|
        match input_spec(c) {
            Ok(i) => Ok(i),
            Err(e) => Err(
                ReadErr::Context(
                    tloc + " input="@ + attr_or(c, "id"@, "<unknown>"@),
                    Box::new(e),
                ),
            ),
        }
}

/// An output of the table at `tloc`.  Its allowed values are not read.
pub open spec fn output_read(tloc: Seq<char>) -> spec_fn(XmlNode) -> Result<SOutput, ReadErr> {
    |c: XmlNode|
        match attr(c, "id"@) {
            None => Err(
                ReadErr::Context(tloc + " output=<unknown>"@, Box::new(ReadErr::Attr("id"@))),
            ),
            Some(id) => Ok(
                SOutput {
                    id,
                    name: attr_or(c, "name"@, Seq::empty()),
                    type_ref: attr_or(c, "typeRef"@, Seq::empty()),
                    allowed_values: Seq::empty(),
                },
            ),
        }
}

/// Where a rule of the table at `tloc` is.
pub open spec fn rule_loc(tloc: Seq<char>, c: XmlNode) -> Seq<char> {
    tloc + " rule="@ + attr_or(c, "id"@, "<unknown>"@)
}

/// A rule of the table at `tloc` with `ni` inputs and `no` outputs: it must
/// have as many entries of each.
pub open spec fn rule_read(tloc: Seq<char>, ni: nat, no: nat) -> spec_fn(XmlNode) -> Result<
    SRule,
    ReadErr,
> {
    |c: XmlNode|
        match rule_spec(c) {
            Err(e) => Err(ReadErr::Context(rule_loc(tloc, c), Box::new(e))),
            Ok(r) => if r.inputs.len() != ni {
                Err(
                    ReadErr::Invalid(
                        rule_loc(tloc, c) + " error=input entry count "@ + nat_text(r.inputs.len())
                            + " does not match input column count "@ + nat_text(ni),
                    ),
                )
            } else if r.outputs.len() != no {
                Err(
                    ReadErr::Invalid(
                        rule_loc(tloc, c) + " error=output entry count "@ + nat_text(
                            r.outputs.len(),
                        ) + " does not match output column count "@ + nat_text(no),
                    ),
                )
            } else {
                Ok(r)
            },
        }
}

/// Where the table `id` of decision `did` is.
pub open spec fn table_loc(did: Seq<char>, id: Seq<char>) -> Seq<char> {
    "decision="@ + did + " table="@ + id
}

/// A decision table of decision `did`: hit policy `FIRST` where none is
/// given; inputs, outputs and rules in document order; each rule with as
/// many entries as there are columns.
pub open spec fn table_spec(x: XmlNode, did: Seq<char>) -> Result<STable, ReadErr> {
    match attr(x, "id"@) {
        None => Err(
            ReadErr::Context(
                "decision="@ + did + " table=<unknown>"@,
                Box::new(ReadErr::Attr("id"@)),
            ),
        ),
        Some(id) => {
            let tloc = table_loc(did, id);
            let hp = attr_or(x, "hitPolicy"@, "FIRST"@);
            if !supported_hit_policy(hp) {
                Err(ReadErr::Policy(tloc + " error=unsupported hit policy "@ + debug_text(hp)))
            } else {
                match collect(kids(x), pick_named("input"@), input_read(tloc)) {
                    Err(e) => Err(e),
                    Ok(ins) => match collect(kids(x), pick_named("output"@), output_read(tloc)) {
                        Err(e) => Err(e),
                        Ok(outs) => match collect(
                            kids(x),
                            pick_named("rule"@),
                            rule_read(tloc, ins.len(), outs.len()),
                        ) {
                            Err(e) => Err(e),
                            Ok(rs) => Ok(
                                STable { id, hit_policy: hp, inputs: ins, outputs: outs, rules: rs },
                            ),
                        },
                    },
                }
            }
        },
    }
}

/// A decision: its id, its first decision table if it has one, and its
/// requirements.
pub open spec fn decision_spec(x: XmlNode) -> Result<SDecision, ReadErr> {
    match attr(x, "id"@) {
        None => Err(ReadErr::Attr("id"@)),
        Some(id) => {
            let t = match first_ns(kids(x), "decisionTable"@) {
                None => Ok(None),
                Some(k) => match table_spec(kids(x)[k], id) {
                    Ok(t) => Ok(Some(t)),
                    Err(e) => Err(e),
                },
            };
            match t {
                Err(e) => Err(e),
                Ok(t) => match req_spec(x) {
                    Err(e) => Err(e),
                    Ok(q) => Ok(SDecision { id, table: t, req: q }),
                },
            }
        },
    }
}

pub open spec fn decision_read() -> spec_fn(XmlNode) -> Result<SDecision, ReadErr> {
    |c: XmlNode| decision_spec(c)
}

/// An input data, business knowledge model or knowledge source: its id,
/// name and requirements.
pub open spec fn named_spec(x: XmlNode) -> Result<SNamed, ReadErr> {
    match attr(x, "id"@) {
        None => Err(ReadErr::Attr("id"@)),
        Some(id) => match attr(x, "name"@) {
            None => Err(ReadErr::Attr("name"@)),
            Some(name) => match req_spec(x) {
                Err(e) => Err(e),
                Ok(q) => Ok(SNamed { id, name, req: q }),
            },
        },
    }
}

pub open spec fn named_read() -> spec_fn(XmlNode) -> Result<SNamed, ReadErr> {
    |c: XmlNode| named_spec(c)
}

/// A diagram: its id, and its decisions, input datas, business knowledge
/// models and knowledge sources, each in document order.
pub open spec fn diagram_spec(x: XmlNode) -> Result<SDiagram, ReadErr> {
    match attr(x, "id"@) {
        None => Err(ReadErr::Attr("id"@)),
        Some(id) => match collect(kids(x), pick_named("decision"@), decision_read()) {
            Err(e) => Err(e),
            Ok(ds) => match collect(kids(x), pick_named("inputData"@), named_read()) {
                Err(e) => Err(e),
                Ok(ids) => match collect(
                    kids(x),
                    pick_named("businessKnowledgeModel"@),
                    named_read(),
                ) {
                    Err(e) => Err(e),
                    Ok(ms) => match collect(kids(x), pick_named("knowledgeSource"@), named_read()) {
                        Err(e) => Err(e),
                        Ok(ss) => Ok(
                            SDiagram { id, decisions: ds, input_datas: ids, models: ms, sources: ss },
                        ),
                    },
                },
            },
        },
    }
}

/// A document: the diagram of its first DMN `definitions` element.
pub open spec fn document_spec(roots: Seq<XmlNode>) -> Result<SDiagram, ReadErr> {
    match first_ns(roots, "definitions"@) {
        None => Err(ReadErr::Elem("ns:definitions"@)),
        Some(k) => diagram_spec(roots[k]),
    }
}

/// Returns the value of the attribute `key` of `x`, if it has one.
#[verifier::loop_isolation(false)]
pub fn get_attr(x: &XmlNode, key: &str) -> (r: Option<String>)
    ensures
        match attr(*x, key@) {
            Some(v) => r matches Some(s) && s@ == v,
            None => r is None,
        },
{
    match x {
        XmlNode::Text(_) => None,
        XmlNode::Element { attrs, .. } => {
            let mut i: usize = 0;
            assert(attrs@.skip(0) =~= attrs@);
            while i < attrs.len()
                invariant
                    i <= attrs@.len(),
                    attr_in(attrs@, key@) == attr_in(attrs@.skip(i as int), key@),
                decreases attrs.len() - i,
            {
                assert(attrs@.skip(i as int)[0] == attrs@[i as int]);
                if str_eq(attrs[i].0.as_str(), key) {
                    let v = attrs[i].1.clone();
                    assert(attrs_of(*x) == attrs@);
                    return Some(v);
                }
                assert(attrs@.skip(i as int).drop_first() =~= attrs@.skip(i + 1));
                i = i + 1;
            }
            None
        },
    }
}

/// Returns the value of the attribute `key` of `x`, or `default`.
pub fn get_attr_or(x: &XmlNode, key: &str, default: &str) -> (r: String)
    ensures
        r@ == attr_or(*x, key@, default@),
{
    match get_attr(x, key) {
        Some(v) => v,
        None => default.to_string(),
    }
}

/// The children of an element.
fn children_of(x: &XmlNode) -> (r: &Vec<XmlNode>)
    requires
        x is Element,
    ensures
        r@ == kids(*x),
{
    match x {
        XmlNode::Element { children, .. } => children,
        XmlNode::Text(_) => vstd::pervasive::unreached(),
    }
}

/// Returns the text of a node.
#[verifier::loop_isolation(false)]
pub fn string_value_of(x: &XmlNode) -> (r: String)
    ensures
        r@ == string_value(*x),
    decreases x,
{
    match x {
        XmlNode::Text(s) => s.clone(),
        XmlNode::Element { children, .. } => {
            let mut r = String::new();
            let mut i: usize = 0;
            while i < children.len()
                invariant
                    i <= children@.len(),
                    r@ == texts(children@.subrange(0, i as int)),
                decreases children.len() - i,
            {
                proof {
                    broadcast use vstd::std_specs::vec::axiom_vec_index_decreases;

                    assert(decreases_to!(children => children[i as int]));
                    assert(decreases_to!(*x => children[i as int]));
                }
                let t = string_value_of(&children[i]);
                push_str(&mut r, t.as_str());
                assert(children@.subrange(0, i + 1).subrange(0, i as int) =~= children@.subrange(
                    0,
                    i as int,
                ));
                i = i + 1;
            }
            assert(children@.subrange(0, children@.len() as int) =~= children@);
            r
        },
    }
}

/// Returns the trimmed text of the DMN children named `local` of `x`.
#[verifier::loop_isolation(false)]
pub fn ns_text_of(x: &XmlNode, local: &str) -> (r: String)
    ensures
        r@ == ns_text(*x, local@),
{
    let mut t = String::new();
    match x {
        XmlNode::Text(_) => {},
        XmlNode::Element { children, .. } => {
            let mut i: usize = 0;
            while i < children.len()
                invariant
                    i <= children@.len(),
                    t@ == ns_texts(children@.subrange(0, i as int), local@),
                decreases children.len() - i,
            {
                if is_ns_named(&children[i], local) {
                    let v = string_value_of(&children[i]);
                    push_str(&mut t, v.as_str());
                }
                assert(children@.subrange(0, i + 1).drop_last() =~= children@.subrange(0, i as int));
                i = i + 1;
            }
            assert(children@.subrange(0, children@.len() as int) =~= children@);
        },
    }
    trim_text(t.as_str())
}

/// Whether `x` is an element with local name `local`.
pub fn is_named(x: &XmlNode, local: &str) -> (r: bool)
    ensures
        r == named(*x, local@),
{
    match x {
        XmlNode::Element { name, .. } => str_eq(name.as_str(), local),
        XmlNode::Text(_) => false,
    }
}

/// Whether `x` is a DMN element with local name `local`.
pub fn is_ns_named(x: &XmlNode, local: &str) -> (r: bool)
    ensures
        r == ns_named(*x, local@),
{
    match x {
        XmlNode::Element { ns: Some(u), name, .. } => str_eq(
            u.as_str(),
            "https://www.omg.org/spec/DMN/20191111/MODEL/",
        ) && str_eq(name.as_str(), local),
        _ => false,
    }
}

/// The position among the children of `x` of its first DMN child named
/// `local`, if any.
#[verifier::loop_isolation(false)]
pub fn first_ns_child(x: &XmlNode, local: &str) -> (r: Option<usize>)
    ensures
        match first_ns(kids(*x), local@) {
            Some(k) => r matches Some(i) && i == k,
            None => r is None,
        },
{
    match x {
        XmlNode::Text(_) => None,
        XmlNode::Element { children, .. } => {
            let ghost cs = children@;
            let mut i: usize = 0;
            while i < children.len()
                invariant
                    cs == children@,
                    cs == kids(*x),
                    i <= cs.len(),
                    forall|j: int| 0 <= j < i ==> !ns_named(#[trigger] cs[j], local@),
                decreases children.len() - i,
            {
                if is_ns_named(&children[i], local) {
                    assert(first_at(cs, local@, i as int));
                    assert forall|k: int| first_at(cs, local@, k) implies k == i by {
                        if k < i {
                            assert(!ns_named(cs[k], local@));
                        } else if k > i {
                            assert(!ns_named(cs[i as int], local@));
                        }
                    }
                    return Some(i);
                }
                i = i + 1;
            }
            assert(!exists|k: int| first_at(cs, local@, k));
            None
        },
    }
}


/// The error of a missing attribute.
fn no_attribute(name: &str) -> (r: DmnError)
    ensures
        err_is(r, ReadErr::Attr(name@)),
{
    DmnError::XML(XmlError::NoAttribute(name.to_string()))
}

/// Appends the `href`s of the DMN children named `inner` of `g` to `acc`;
/// `false` where one of them has none.
fn read_group(g: &XmlNode, inner: &str, acc: &mut Vec<String>) -> (ok: bool)
    requires
        g is Element,
    ensures
        ok ==> (group_read(inner@)(*g) matches Ok(hs) && views(final(acc)@) == views(old(acc)@)
            + hs),
        !ok ==> group_read(inner@)(*g) == Err::<Seq<Seq<char>>, ReadErr>(ReadErr::Attr("href"@)),
{
    let cs = children_of(g);
    let ghost start = views(acc@);
    let ghost mut hs: Seq<Seq<char>> = Seq::empty();
    let mut i: usize = 0;
    assert(cs@.take(0) =~= Seq::<XmlNode>::empty());
    while i < cs.len()
        invariant
            i <= cs@.len(),
            cs@ == kids(*g),
            collect(cs@.take(i as int), pick_ns(inner@), href_read()) == Ok::<
                Seq<Seq<char>>,
                ReadErr,
            >(hs),
            views(acc@) == start + hs,
        decreases cs.len() - i,
    {
        assert(cs@.take(i + 1).drop_last() =~= cs@.take(i as int));
        if is_ns_named(&cs[i], inner) {
            match get_attr(&cs[i], "href") {
                Some(h) => {
                    let ghost before = views(acc@);
                    proof {
                        hs = hs.push(h@);
                    }
                    acc.push(h);
                    assert(views(acc@) =~= before.push(h@));
                    assert(views(acc@) =~= start + hs);
                },
                None => {
                    proof {
                        lemma_collect_prefix_err(cs@, i + 1, pick_ns(inner@), href_read());
                    }
                    return false;
                },
            }
        }
        i = i + 1;
    }
    assert(cs@.take(cs@.len() as int) =~= cs@);
    true
}

/// The references named `outer`/`inner` below `x`, in document order.
fn read_refs(x: &XmlNode, outer: &str, inner: &str) -> (r: Result<Vec<String>, DmnError>)
    requires
        x is Element,
    ensures
        read_as(r, refs(*x, outer@, inner@), |v: Vec<String>| views(v@)),
{
    let cs = children_of(x);
    let mut acc: Vec<String> = Vec::new();
    let ghost mut groups: Seq<Seq<Seq<char>>> = Seq::empty();
    let mut i: usize = 0;
    assert(cs@.take(0) =~= Seq::<XmlNode>::empty());
    assert(views(acc@) =~= concat_all(groups));
    while i < cs.len()
        invariant
            i <= cs@.len(),
            cs@ == kids(*x),
            collect(cs@.take(i as int), pick_ns(outer@), group_read(inner@)) == Ok::<
                Seq<Seq<Seq<char>>>,
                ReadErr,
            >(groups),
            views(acc@) == concat_all(groups),
        decreases cs.len() - i,
    {
        assert(cs@.take(i + 1).drop_last() =~= cs@.take(i as int));
        if is_ns_named(&cs[i], outer) {
            let ghost before = views(acc@);
            if read_group(&cs[i], inner, &mut acc) {
                proof {
                    let hs = group_read(inner@)(cs@[i as int])->Ok_0;
                    assert(groups.push(hs).drop_last() =~= groups);
                    groups = groups.push(hs);
                }
            } else {
                proof {
                    lemma_collect_prefix_err(cs@, i + 1, pick_ns(outer@), group_read(inner@));
                }
                return Err(no_attribute("href"));
            }
        }
        i = i + 1;
    }
    assert(cs@.take(cs@.len() as int) =~= cs@);
    Ok(acc)
}

/// The requirements of `x`.
fn read_requirements(x: &XmlNode) -> (r: Result<Requirements, DmnError>)
    requires
        x is Element,
    ensures
        read_as(r, req_spec(*x), |q: Requirements| req_view(q)),
{
    let required_decisions = match read_refs(x, "informationRequirement", "requiredDecision") {
        Ok(v) => v,
        Err(e) => {
            return Err(e);
        },
    };
    let required_inputs = match read_refs(x, "informationRequirement", "requiredInput") {
        Ok(v) => v,
        Err(e) => {
            return Err(e);
        },
    };
    let required_authorities = match read_refs(x, "authorityRequirement", "requiredAuthority") {
        Ok(v) => v,
        Err(e) => {
            return Err(e);
        },
    };
    Ok(Requirements { required_inputs, required_decisions, required_authorities })
}


/// The RuleInputEntry entries of a rule: its children named `inputEntry`.
fn read_input_entries(x: &XmlNode) -> (r: Result<Vec<RuleInputEntry>, DmnError>)
    requires
        x is Element,
    ensures
        read_as(r, collect(kids(*x), pick_named("inputEntry"@), entry_read()), |v: Vec<RuleInputEntry>| in_entries_view(v@)),
{
    let cs = children_of(x);
    let mut acc: Vec<RuleInputEntry> = Vec::new();
    let mut i: usize = 0;
    assert(cs@.take(0) =~= Seq::<XmlNode>::empty());
    assert(in_entries_view(acc@) =~= Seq::<SEntry>::empty());
    while i < cs.len()
        invariant
            i <= cs@.len(),
            cs@ == kids(*x),
            collect(cs@.take(i as int), pick_named("inputEntry"@), entry_read()) == Ok::<
                Seq<SEntry>,
                ReadErr,
            >(in_entries_view(acc@)),
        decreases cs.len() - i,
    {
        assert(cs@.take(i + 1).drop_last() =~= cs@.take(i as int));
        if is_named(&cs[i], "inputEntry") {
            match get_attr(&cs[i], "id") {
                Some(id) => {
                    let text = ns_text_of(&cs[i], "text");
                    let ghost before = in_entries_view(acc@);
                    acc.push(RuleInputEntry { id, text });
                    assert(in_entries_view(acc@) =~= before.push(in_entry_view(acc@.last())));
                },
                None => {
                    proof {
                        lemma_collect_prefix_err(cs@, i + 1, pick_named("inputEntry"@), entry_read());
                    }
                    return Err(no_attribute("id"));
                },
            }
        }
        i = i + 1;
    }
    assert(cs@.take(cs@.len() as int) =~= cs@);
    Ok(acc)
}

/// The RuleOutputEntry entries of a rule: its children named `outputEntry`.
fn read_output_entries(x: &XmlNode) -> (r: Result<Vec<RuleOutputEntry>, DmnError>)
    requires
        x is Element,
    ensures
        read_as(r, collect(kids(*x), pick_named("outputEntry"@), entry_read()), |v: Vec<RuleOutputEntry>| out_entries_view(v@)),
{
    let cs = children_of(x);
    let mut acc: Vec<RuleOutputEntry> = Vec::new();
    let mut i: usize = 0;
    assert(cs@.take(0) =~= Seq::<XmlNode>::empty());
    assert(out_entries_view(acc@) =~= Seq::<SEntry>::empty());
    while i < cs.len()
        invariant
            i <= cs@.len(),
            cs@ == kids(*x),
            collect(cs@.take(i as int), pick_named("outputEntry"@), entry_read()) == Ok::<
                Seq<SEntry>,
                ReadErr,
            >(out_entries_view(acc@)),
        decreases cs.len() - i,
    {
        assert(cs@.take(i + 1).drop_last() =~= cs@.take(i as int));
        if is_named(&cs[i], "outputEntry") {
            match get_attr(&cs[i], "id") {
                Some(id) => {
                    let text = ns_text_of(&cs[i], "text");
                    let ghost before = out_entries_view(acc@);
                    acc.push(RuleOutputEntry { id, text });
                    assert(out_entries_view(acc@) =~= before.push(out_entry_view(acc@.last())));
                },
                None => {
                    proof {
                        lemma_collect_prefix_err(cs@, i + 1, pick_named("outputEntry"@), entry_read());
                    }
                    return Err(no_attribute("id"));
                },
            }
        }
        i = i + 1;
    }
    assert(cs@.take(cs@.len() as int) =~= cs@);
    Ok(acc)
}

/// A rule: its id, description and entries.
fn read_rule(x: &XmlNode) -> (r: Result<Rule, DmnError>)
    ensures
        read_as(r, rule_spec(*x), |q: Rule| rule_view(q)),
{
    let id = match get_attr(x, "id") {
        Some(id) => id,
        None => {
            return Err(no_attribute("id"));
        },
    };
    let description = ns_text_of(x, "description");
    let input_entries = match read_input_entries(x) {
        Ok(v) => v,
        Err(e) => {
            return Err(e);
        },
    };
    let output_entries = match read_output_entries(x) {
        Ok(v) => v,
        Err(e) => {
            return Err(e);
        },
    };
    Ok(Rule { id, description, input_entries, output_entries })
}

/// An input of a decision table.
fn read_input(x: &XmlNode) -> (r: Result<Input, DmnError>)
    ensures
        read_as(r, input_spec(*x), |i: Input| input_view(i)),
{
    let id = match get_attr(x, "id") {
        Some(id) => id,
        None => {
            return Err(no_attribute("id"));
        },
    };
    proof {
        reveal_strlit("");
    }
    let label = get_attr_or(x, "label", "");
    let k = match first_ns_child(x, "inputExpression") {
        Some(k) => k,
        None => {
            return Err(DmnError::XML(XmlError::NoElement("ns:inputExpression".to_string())));
        },
    };
    let cs = children_of(x);
    let ex = &cs[k];
    let expr_id = match get_attr(ex, "id") {
        Some(v) => v,
        None => {
            return Err(no_attribute("id"));
        },
    };
    let type_ref = get_attr_or(ex, "typeRef", "");
    let text = ns_text_of(ex, "text");
    assert(attr(*x, "id"@) == Some(id@));
    assert(first_ns(kids(*x), "inputExpression"@) == Some(k as int));
    assert(kids(*x)[k as int] == *ex);
    assert(attr(*ex, "id"@) == Some(expr_id@));
    assert(label@ == attr_or(*x, "label"@, Seq::empty()));
    assert(type_ref@ == attr_or(*ex, "typeRef"@, Seq::empty()));
    Ok(Input { id, label, expression: InputExpression { id: expr_id, type_ref, text } })
}


/// An output of the decision table at `tloc`.  Its allowed values are not
/// read (they are left empty).
fn read_output(x: &XmlNode, tloc: &str) -> (r: Result<Output, DmnError>)
    ensures
        read_as(r, output_read(tloc@)(*x), |o: Output| output_view(o)),
{
    let id = match get_attr(x, "id") {
        Some(id) => id,
        None => {
            let mut loc = String::new();
            push_str(&mut loc, tloc);
            push_str(&mut loc, " output=<unknown>");
            return Err(DmnError::Context(loc, Box::new(no_attribute("id"))));
        },
    };
    proof {
        reveal_strlit("");
    }
    let name = get_attr_or(x, "name", "");
    let type_ref = get_attr_or(x, "typeRef", "");
    let allowed_values: Vec<String> = Vec::new();
    assert(views(allowed_values@) =~= Seq::<Seq<char>>::empty());
    assert(name@ == attr_or(*x, "name"@, Seq::empty()));
    assert(type_ref@ == attr_or(*x, "typeRef"@, Seq::empty()));
    Ok(Output { id, name, type_ref, allowed_values })
}

/// `s` followed by ` key=` and the `id` of `x`, or `<unknown>`.
fn located(s: &str, key: &str, x: &XmlNode) -> (r: String)
    ensures
        r@ == s@ + key@ + attr_or(*x, "id"@, "<unknown>"@),
{
    let mut loc = String::new();
    push_str(&mut loc, s);
    push_str(&mut loc, key);
    let id = get_attr_or(x, "id", "<unknown>");
    push_str(&mut loc, id.as_str());
    loc
}

/// The inputs of the decision table `x` at `tloc`.
fn read_inputs(x: &XmlNode, tloc: &str) -> (r: Result<Vec<Input>, DmnError>)
    requires
        x is Element,
    ensures
        read_as(r, collect(kids(*x), pick_named("input"@), input_read(tloc@)), |v: Vec<Input>| inputs_view(v@)),
{
    let cs = children_of(x);
    let mut acc: Vec<Input> = Vec::new();
    let mut i: usize = 0;
    assert(cs@.take(0) =~= Seq::<XmlNode>::empty());
    assert(inputs_view(acc@) =~= Seq::<SInput>::empty());
    while i < cs.len()
        invariant
            i <= cs@.len(),
            cs@ == kids(*x),
            collect(cs@.take(i as int), pick_named("input"@), input_read(tloc@)) == Ok::<
                Seq<SInput>,
                ReadErr,
            >(inputs_view(acc@)),
        decreases cs.len() - i,
    {
        assert(cs@.take(i + 1).drop_last() =~= cs@.take(i as int));
        if is_named(&cs[i], "input") {
            match read_input(&cs[i]) {
                Ok(v) => {
                    let ghost before = inputs_view(acc@);
                    acc.push(v);
                    assert(inputs_view(acc@) =~= before.push(input_view(acc@.last())));
                },
                Err(e) => {
                    let loc = located(tloc, " input=", &cs[i]);
                    proof {
                        lemma_collect_prefix_err(cs@, i + 1, pick_named("input"@), input_read(tloc@));
                    }
                    return Err(DmnError::Context(loc, Box::new(e)));
                },
            }
        }
        i = i + 1;
    }
    assert(cs@.take(cs@.len() as int) =~= cs@);
    Ok(acc)
}

/// The outputs of the decision table `x` at `tloc`.
fn read_outputs(x: &XmlNode, tloc: &str) -> (r: Result<Vec<Output>, DmnError>)
    requires
        x is Element,
    ensures
        read_as(r, collect(kids(*x), pick_named("output"@), output_read(tloc@)), |v: Vec<Output>| outputs_view(v@)),
{
    let cs = children_of(x);
    let mut acc: Vec<Output> = Vec::new();
    let mut i: usize = 0;
    assert(cs@.take(0) =~= Seq::<XmlNode>::empty());
    assert(outputs_view(acc@) =~= Seq::<SOutput>::empty());
    while i < cs.len()
        invariant
            i <= cs@.len(),
            cs@ == kids(*x),
            collect(cs@.take(i as int), pick_named("output"@), output_read(tloc@)) == Ok::<
                Seq<SOutput>,
                ReadErr,
            >(outputs_view(acc@)),
        decreases cs.len() - i,
    {
        assert(cs@.take(i + 1).drop_last() =~= cs@.take(i as int));
        if is_named(&cs[i], "output") {
            match read_output(&cs[i], tloc) {
                Ok(v) => {
                    let ghost before = outputs_view(acc@);
                    acc.push(v);
                    assert(outputs_view(acc@) =~= before.push(output_view(acc@.last())));
                },
                Err(e) => {
                    proof {
                        lemma_collect_prefix_err(cs@, i + 1, pick_named("output"@), output_read(tloc@));
                    }
                    return Err(e);
                },
            }
        }
        i = i + 1;
    }
    assert(cs@.take(cs@.len() as int) =~= cs@);
    Ok(acc)
}

/// The message of a rule whose entries do not match the columns.
fn count_mismatch(loc: &str, what: &str, found: usize, expected: usize) -> (r: String)
    ensures
        r@ == loc@ + " error="@ + what@ + " entry count "@ + nat_text(found as nat)
            + " does not match "@ + what@ + " column count "@ + nat_text(expected as nat),
{
    let mut m = String::new();
    push_str(&mut m, loc);
    push_str(&mut m, " error=");
    push_str(&mut m, what);
    push_str(&mut m, " entry count ");
    push_usize(&mut m, found);
    push_str(&mut m, " does not match ");
    push_str(&mut m, what);
    push_str(&mut m, " column count ");
    push_usize(&mut m, expected);
    m
}

/// The rules of the decision table `x` at `tloc`, with `ni` inputs and `no`
/// outputs.
fn read_rules(x: &XmlNode, tloc: &str, ni: usize, no: usize) -> (r: Result<Vec<Rule>, DmnError>)
    requires
        x is Element,
    ensures
        read_as(
            r,
            collect(kids(*x), pick_named("rule"@), rule_read(tloc@, ni as nat, no as nat)),
            |v: Vec<Rule>| rules_view(v@),
        ),
{
    let cs = children_of(x);
    let mut acc: Vec<Rule> = Vec::new();
    let mut i: usize = 0;
    assert(cs@.take(0) =~= Seq::<XmlNode>::empty());
    assert(rules_view(acc@) =~= Seq::<SRule>::empty());
    while i < cs.len()
        invariant
            i <= cs@.len(),
            cs@ == kids(*x),
            collect(cs@.take(i as int), pick_named("rule"@), rule_read(tloc@, ni as nat, no as nat))
                == Ok::<Seq<SRule>, ReadErr>(rules_view(acc@)),
        decreases cs.len() - i,
    {
        assert(cs@.take(i + 1).drop_last() =~= cs@.take(i as int));
        if is_named(&cs[i], "rule") {
            let loc = located(tloc, " rule=", &cs[i]);
            assert(loc@ == rule_loc(tloc@, cs@[i as int]));
            let res = read_rule(&cs[i]);
            let ghost rr = rule_read(tloc@, ni as nat, no as nat);
            match res {
                Ok(v) => {
                    if v.input_entries.len() != ni {
                        let m = count_mismatch(loc.as_str(), "input", v.input_entries.len(), ni);
                        proof {
                            reveal_strlit("input");
                            reveal_strlit(" error=");
                            reveal_strlit(" entry count ");
                            reveal_strlit(" does not match ");
                            reveal_strlit(" column count ");
                            reveal_strlit(" error=input entry count ");
                            reveal_strlit(" does not match input column count ");
                            assert(m@ =~= rule_loc(tloc@, cs@[i as int]) + " error=input entry count "@
                                + nat_text(rule_view(v).inputs.len()) + " does not match input column count "@
                                + nat_text(ni as nat));
                            lemma_collect_prefix_err(cs@, i + 1, pick_named("rule"@), rr);
                        }
                        return Err(DmnError::InvalidElement(m));
                    }
                    if v.output_entries.len() != no {
                        let m = count_mismatch(loc.as_str(), "output", v.output_entries.len(), no);
                        proof {
                            reveal_strlit("output");
                            reveal_strlit(" error=");
                            reveal_strlit(" entry count ");
                            reveal_strlit(" does not match ");
                            reveal_strlit(" column count ");
                            reveal_strlit(" error=output entry count ");
                            reveal_strlit(" does not match output column count ");
                            assert(m@ =~= rule_loc(tloc@, cs@[i as int]) + " error=output entry count "@
                                + nat_text(rule_view(v).outputs.len()) + " does not match output column count "@
                                + nat_text(no as nat));
                            lemma_collect_prefix_err(cs@, i + 1, pick_named("rule"@), rr);
                        }
                        return Err(DmnError::InvalidElement(m));
                    }
                    let ghost before = rules_view(acc@);
                    acc.push(v);
                    assert(rules_view(acc@) =~= before.push(rule_view(acc@.last())));
                },
                Err(e) => {
                    proof {
                        lemma_collect_prefix_err(cs@, i + 1, pick_named("rule"@), rr);
                    }
                    return Err(DmnError::Context(loc, Box::new(e)));
                },
            }
        }
        i = i + 1;
    }
    assert(cs@.take(cs@.len() as int) =~= cs@);
    Ok(acc)
}


/// A decision table of the decision `did`.
fn read_table(x: &XmlNode, did: &str) -> (r: Result<DecisionTable, DmnError>)
    ensures
        read_as(r, table_spec(*x, did@), |t: DecisionTable| table_view(t)),
{
    let id = match get_attr(x, "id") {
        Some(id) => id,
        None => {
            let mut loc = String::new();
            push_str(&mut loc, "decision=");
            push_str(&mut loc, did);
            push_str(&mut loc, " table=<unknown>");
            return Err(DmnError::Context(loc, Box::new(no_attribute("id"))));
        },
    };
    let mut tloc = String::new();
    push_str(&mut tloc, "decision=");
    push_str(&mut tloc, did);
    push_str(&mut tloc, " table=");
    push_str(&mut tloc, id.as_str());
    assert(tloc@ == table_loc(did@, id@));
    let hit_policy = get_attr_or(x, "hitPolicy", "FIRST");
    match validate_hit_policy(hit_policy.as_str(), tloc.as_str()) {
        Ok(()) => {},
        Err(e) => {
            return Err(e);
        },
    }
    let inputs = match read_inputs(x, tloc.as_str()) {
        Ok(v) => v,
        Err(e) => {
            return Err(e);
        },
    };
    let outputs = match read_outputs(x, tloc.as_str()) {
        Ok(v) => v,
        Err(e) => {
            return Err(e);
        },
    };
    assert(inputs_view(inputs@).len() == inputs@.len());
    assert(outputs_view(outputs@).len() == outputs@.len());
    let rules = match read_rules(x, tloc.as_str(), inputs.len(), outputs.len()) {
        Ok(v) => v,
        Err(e) => {
            return Err(e);
        },
    };
    Ok(DecisionTable { id, hit_policy, inputs, outputs, rules })
}

/// A decision.
fn read_decision(x: &XmlNode) -> (r: Result<Decision, DmnError>)
    ensures
        read_as(r, decision_spec(*x), |d: Decision| decision_view(d)),
{
    let id = match get_attr(x, "id") {
        Some(id) => id,
        None => {
            return Err(no_attribute("id"));
        },
    };
    let decision_table = match first_ns_child(x, "decisionTable") {
        None => None,
        Some(k) => {
            let cs = children_of(x);
            match read_table(&cs[k], id.as_str()) {
                Ok(t) => Some(t),
                Err(e) => {
                    return Err(e);
                },
            }
        },
    };
    let requirements = match read_requirements(x) {
        Ok(q) => q,
        Err(e) => {
            return Err(e);
        },
    };
    Ok(Decision { id, decision_table, requirements })
}

/// The id, name and requirements of an input data, business knowledge
/// model or knowledge source.
fn read_named(x: &XmlNode) -> (r: Result<(String, String, Requirements), DmnError>)
    ensures
        read_as(
            r,
            named_spec(*x),
            |t: (String, String, Requirements)| SNamed { id: t.0@, name: t.1@, req: req_view(t.2) },
        ),
{
    let id = match get_attr(x, "id") {
        Some(id) => id,
        None => {
            return Err(no_attribute("id"));
        },
    };
    let name = match get_attr(x, "name") {
        Some(v) => v,
        None => {
            return Err(no_attribute("name"));
        },
    };
    let requirements = match read_requirements(x) {
        Ok(q) => q,
        Err(e) => {
            return Err(e);
        },
    };
    Ok((id, name, requirements))
}

/// The decisions of the diagram `x`.
fn read_decisions(x: &XmlNode) -> (r: Result<Vec<Decision>, DmnError>)
    requires
        x is Element,
    ensures
        read_as(r, collect(kids(*x), pick_named("decision"@), decision_read()), |v: Vec<Decision>| decisions_view(v@)),
{
    let cs = children_of(x);
    let mut acc: Vec<Decision> = Vec::new();
    let mut i: usize = 0;
    assert(cs@.take(0) =~= Seq::<XmlNode>::empty());
    assert(decisions_view(acc@) =~= Seq::<SDecision>::empty());
    while i < cs.len()
        invariant
            i <= cs@.len(),
            cs@ == kids(*x),
            collect(cs@.take(i as int), pick_named("decision"@), decision_read()) == Ok::<
                Seq<SDecision>,
                ReadErr,
            >(decisions_view(acc@)),
        decreases cs.len() - i,
    {
        assert(cs@.take(i + 1).drop_last() =~= cs@.take(i as int));
        if is_named(&cs[i], "decision") {
            match read_decision(&cs[i]) {
                Ok(v) => {
                    let ghost before = decisions_view(acc@);
                    acc.push(v);
                    assert(decisions_view(acc@) =~= before.push(decision_view(acc@.last())));
                },
                Err(e) => {
                    proof {
                        lemma_collect_prefix_err(cs@, i + 1, pick_named("decision"@), decision_read());
                    }
                    return Err(e);
                },
            }
        }
        i = i + 1;
    }
    assert(cs@.take(cs@.len() as int) =~= cs@);
    Ok(acc)
}

/// The InputData elements of the diagram `x`: its children named `inputData`.
fn read_input_datas(x: &XmlNode) -> (r: Result<Vec<InputData>, DmnError>)
    requires
        x is Element,
    ensures
        read_as(r, collect(kids(*x), pick_named("inputData"@), named_read()), |v: Vec<InputData>| input_datas_view(v@)),
{
    let cs = children_of(x);
    let mut acc: Vec<InputData> = Vec::new();
    let mut i: usize = 0;
    assert(cs@.take(0) =~= Seq::<XmlNode>::empty());
    assert(input_datas_view(acc@) =~= Seq::<SNamed>::empty());
    while i < cs.len()
        invariant
            i <= cs@.len(),
            cs@ == kids(*x),
            collect(cs@.take(i as int), pick_named("inputData"@), named_read()) == Ok::<
                Seq<SNamed>,
                ReadErr,
            >(input_datas_view(acc@)),
        decreases cs.len() - i,
    {
        assert(cs@.take(i + 1).drop_last() =~= cs@.take(i as int));
        if is_named(&cs[i], "inputData") {
            match read_named(&cs[i]) {
                Ok((id, name, requirements)) => {
                    let ghost before = input_datas_view(acc@);
                    acc.push(InputData { id, name, requirements });
                    assert(input_datas_view(acc@) =~= before.push(
                        SNamed { id: acc@.last().id@, name: acc@.last().name@, req: req_view(acc@.last().requirements) },
                    ));
                },
                Err(e) => {
                    proof {
                        lemma_collect_prefix_err(cs@, i + 1, pick_named("inputData"@), named_read());
                    }
                    return Err(e);
                },
            }
        }
        i = i + 1;
    }
    assert(cs@.take(cs@.len() as int) =~= cs@);
    Ok(acc)
}

/// The BusinessKnowledgeModel elements of the diagram `x`: its children named `businessKnowledgeModel`.
fn read_models(x: &XmlNode) -> (r: Result<Vec<BusinessKnowledgeModel>, DmnError>)
    requires
        x is Element,
    ensures
        read_as(r, collect(kids(*x), pick_named("businessKnowledgeModel"@), named_read()), |v: Vec<BusinessKnowledgeModel>| models_view(v@)),
{
    let cs = children_of(x);
    let mut acc: Vec<BusinessKnowledgeModel> = Vec::new();
    let mut i: usize = 0;
    assert(cs@.take(0) =~= Seq::<XmlNode>::empty());
    assert(models_view(acc@) =~= Seq::<SNamed>::empty());
    while i < cs.len()
        invariant
            i <= cs@.len(),
            cs@ == kids(*x),
            collect(cs@.take(i as int), pick_named("businessKnowledgeModel"@), named_read()) == Ok::<
                Seq<SNamed>,
                ReadErr,
            >(models_view(acc@)),
        decreases cs.len() - i,
    {
        assert(cs@.take(i + 1).drop_last() =~= cs@.take(i as int));
        if is_named(&cs[i], "businessKnowledgeModel") {
            match read_named(&cs[i]) {
                Ok((id, name, requirements)) => {
                    let ghost before = models_view(acc@);
                    acc.push(BusinessKnowledgeModel { id, name, requirements });
                    assert(models_view(acc@) =~= before.push(
                        SNamed { id: acc@.last().id@, name: acc@.last().name@, req: req_view(acc@.last().requirements) },
                    ));
                },
                Err(e) => {
                    proof {
                        lemma_collect_prefix_err(cs@, i + 1, pick_named("businessKnowledgeModel"@), named_read());
                    }
                    return Err(e);
                },
            }
        }
        i = i + 1;
    }
    assert(cs@.take(cs@.len() as int) =~= cs@);
    Ok(acc)
}

/// The KnowledgeSource elements of the diagram `x`: its children named `knowledgeSource`.
fn read_sources(x: &XmlNode) -> (r: Result<Vec<KnowledgeSource>, DmnError>)
    requires
        x is Element,
    ensures
        read_as(r, collect(kids(*x), pick_named("knowledgeSource"@), named_read()), |v: Vec<KnowledgeSource>| sources_view(v@)),
{
    let cs = children_of(x);
    let mut acc: Vec<KnowledgeSource> = Vec::new();
    let mut i: usize = 0;
    assert(cs@.take(0) =~= Seq::<XmlNode>::empty());
    assert(sources_view(acc@) =~= Seq::<SNamed>::empty());
    while i < cs.len()
        invariant
            i <= cs@.len(),
            cs@ == kids(*x),
            collect(cs@.take(i as int), pick_named("knowledgeSource"@), named_read()) == Ok::<
                Seq<SNamed>,
                ReadErr,
            >(sources_view(acc@)),
        decreases cs.len() - i,
    {
        assert(cs@.take(i + 1).drop_last() =~= cs@.take(i as int));
        if is_named(&cs[i], "knowledgeSource") {
            match read_named(&cs[i]) {
                Ok((id, name, requirements)) => {
                    let ghost before = sources_view(acc@);
                    acc.push(KnowledgeSource { id, name, requirements });
                    assert(sources_view(acc@) =~= before.push(
                        SNamed { id: acc@.last().id@, name: acc@.last().name@, req: req_view(acc@.last().requirements) },
                    ));
                },
                Err(e) => {
                    proof {
                        lemma_collect_prefix_err(cs@, i + 1, pick_named("knowledgeSource"@), named_read());
                    }
                    return Err(e);
                },
            }
        }
        i = i + 1;
    }
    assert(cs@.take(cs@.len() as int) =~= cs@);
    Ok(acc)
}

/// Reads a DMN diagram out of its `definitions` element: the diagram's id,
/// then its decisions (each with its first decision table and its
/// requirements), input datas, business knowledge models and knowledge
/// sources, each list in document order.  A decision table has hit policy
/// `FIRST` where it names none, and is refused where it names one that is
/// not supported; every rule must have as many input and output entries as
/// the table has columns.  A missing attribute or element is an error, with
/// the location of the table, input, output or rule it belongs to.  The
/// FEEL texts of inputs and entries are kept as they are, unchecked, and the
/// allowed values of an output are not read.
pub fn diagram_from_xml(root: &XmlNode) -> (r: Result<Diagram, DmnError>)
    ensures
        read_as(r, diagram_spec(*root), |d: Diagram| diagram_view(d)),
{
    let id = match get_attr(root, "id") {
        Some(id) => id,
        None => {
            return Err(no_attribute("id"));
        },
    };
    let decisions = match read_decisions(root) {
        Ok(v) => v,
        Err(e) => {
            return Err(e);
        },
    };
    let input_datas = match read_input_datas(root) {
        Ok(v) => v,
        Err(e) => {
            return Err(e);
        },
    };
    let business_knowledge_models = match read_models(root) {
        Ok(v) => v,
        Err(e) => {
            return Err(e);
        },
    };
    let knowledge_sources = match read_sources(root) {
        Ok(v) => v,
        Err(e) => {
            return Err(e);
        },
    };
    Ok(Diagram { id, decisions, input_datas, business_knowledge_models, knowledge_sources })
}

/// Reads the diagram of a document given as its top-level elements: that
/// of its first DMN `definitions` element, or `NoElement` where it has none.
pub fn diagram_from_document(roots: &Vec<XmlNode>) -> (r: Result<Diagram, DmnError>)
    ensures
        read_as(r, document_spec(roots@), |d: Diagram| diagram_view(d)),
{
    let ghost cs = roots@;
    let mut i: usize = 0;
    while i < roots.len()
        invariant
            cs == roots@,
            i <= cs.len(),
            forall|j: int| 0 <= j < i ==> !ns_named(#[trigger] cs[j], "definitions"@),
        decreases roots.len() - i,
    {
        if is_ns_named(&roots[i], "definitions") {
            assert(first_at(cs, "definitions"@, i as int));
            assert forall|k: int| first_at(cs, "definitions"@, k) implies k == i by {
                if k < i {
                    assert(!ns_named(cs[k], "definitions"@));
                } else if k > i {
                    assert(!ns_named(cs[i as int], "definitions"@));
                }
            }
            return diagram_from_xml(&roots[i]);
        }
        i = i + 1;
    }
    assert(!exists|k: int| first_at(cs, "definitions"@, k));
    Err(DmnError::XML(XmlError::NoElement("ns:definitions".to_string())))
}

/// Reads a DMN document held in memory.  Where `sxd_document` refuses the
/// text the error is `XML(ParseError(..))` with its message, as
/// `xml_parse_error` names it; otherwise the result is that of
/// `diagram_from_document` on the document's top-level elements.  Which
/// elements the text gives is not stated (see `read_document`).
pub fn parse_string(xml: &str) -> (r: Result<Diagram, DmnError>)
    ensures
        xml_parse_error(xml@) matches Some(m) ==> (r matches Err(DmnError::XML(XmlError::ParseError(e)))
            && e@ == m),
        xml_parse_error(xml@) is None ==> (r matches Err(DmnError::XML(XmlError::ParseError(_)))
            || exists|roots: Seq<XmlNode>| read_as(r, document_spec(roots), |d: Diagram| diagram_view(d))),
{
    match read_document(xml) {
        Ok(roots) => {
            let r = diagram_from_document(&roots);
            assert(read_as(r, document_spec(roots@), |d: Diagram| diagram_view(d)));
            r
        },
        Err(m) => Err(DmnError::XML(XmlError::ParseError(m))),
    }
}


/// Each rule that `rule_read` accepts has `ni` input and `no` output entries.
proof fn lemma_rules_fit(cs: Seq<XmlNode>, tloc: Seq<char>, ni: nat, no: nat)
    ensures
        collect(cs, pick_named("rule"@), rule_read(tloc, ni, no)) matches Ok(rs) ==> forall|i: int|
            0 <= i < rs.len() ==> (#[trigger] rs[i]).inputs.len() == ni && rs[i].outputs.len() == no,
    decreases cs.len(),
{
    if cs.len() > 0 {
        lemma_rules_fit(cs.drop_last(), tloc, ni, no);
    }
}

/// Every rule of a decision table that reads has one input entry for each
/// input column and one output entry for each output column.
pub proof fn law_rules_fit_columns(x: XmlNode, did: Seq<char>)
    ensures
        table_spec(x, did) matches Ok(t) ==> forall|i: int|
            0 <= i < t.rules.len() ==> (#[trigger] t.rules[i]).inputs.len() == t.inputs.len()
                && t.rules[i].outputs.len() == t.outputs.len(),
{
    if let Some(id) = attr(x, "id"@) {
        let tloc = table_loc(did, id);
        if let Ok(ins) = collect(kids(x), pick_named("input"@), input_read(tloc)) {
            if let Ok(outs) = collect(kids(x), pick_named("output"@), output_read(tloc)) {
                lemma_rules_fit(kids(x), tloc, ins.len(), outs.len());
            }
        }
    }
}

/// A decision table that names no hit policy reads with hit policy
/// `FIRST`.
pub proof fn law_default_hit_policy(x: XmlNode, did: Seq<char>)
    requires
        attr(x, "hitPolicy"@) is None,
    ensures
        table_spec(x, did) matches Ok(t) ==> t.hit_policy == "FIRST"@,
{
}

/// A reader of DMN documents.
pub struct Parser {}

impl Parser {
    pub fn new() -> Parser {
        Parser {  }
    }

    /// Reads a diagram out of its `definitions` element; see
    /// `diagram_from_xml`.
    pub fn parse_diagram(&self, node: &XmlNode) -> (r: Result<Diagram, DmnError>)
        ensures
            read_as(r, diagram_spec(*node), |d: Diagram| diagram_view(d)),
    {
        diagram_from_xml(node)
    }

    /// Reads a DMN document held in memory; see `parse_string`.
    pub fn parse_string(&self, xml: &str) -> (r: Result<Diagram, DmnError>)
        ensures
            xml_parse_error(xml@) matches Some(m) ==> (r matches Err(
                DmnError::XML(XmlError::ParseError(e)),
            ) && e@ == m),
            xml_parse_error(xml@) is None ==> (r matches Err(DmnError::XML(XmlError::ParseError(_)))
                || exists|roots: Seq<XmlNode>|
                read_as(r, document_spec(roots), |d: Diagram| diagram_view(d))),
    {
        parse_string(xml)
    }
}

} // verus!
