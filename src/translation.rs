//! HTTP translation: a synthesized operation becomes a concrete HTTP call,
//! using the operation model and the results of earlier calls in the same
//! sequence.
use vstd::prelude::*;
use crate::amos::{
    find_operation_spec, InvokeResult, InvokeResultV, Operation, OperationMetaData, Parameter,
    ParameterMetaData, ParameterV, ResultMetaData,
};
use crate::generation::{GeneratedOperation, GeneratedParameter, GeneratedParameterV, Octets, ParameterValue, ValueV};
use crate::http::{protocol_prefix, HTTPCall, HTTPConfiguration, HTTPMethod, HTTPParameterTarget, HTTPParameters, HTTPResult};
use crate::relations::{RelationInfoV, RelationV};
use crate::text::{decimal, decimal_text, push_char, replace, replace_spec, str_eq};

verus! {

/// A JSON document as far as response references read it: an array whose
/// items are kept when they are strings, or some other value.
#[derive(Debug, Clone, PartialEq)]
pub enum JsonTop {
    Array(Vec<Option<String>>),
    Other,
}

pub enum JsonTopV {
    Array(Seq<Option<Seq<char>>>),
    Other,
}

pub open spec fn json_top_view(j: Option<JsonTop>) -> Option<JsonTopV> {
    match j {
        Some(JsonTop::Array(items)) => Some(JsonTopV::Array(items@.map_values(|i: Option<String>| match i {
            Some(s) => Some(s@),
            None => None,
        }))),
        Some(JsonTop::Other) => Some(JsonTopV::Other),
        None => None,
    }
}

/// What `serde_json` reads from a text: `None` when it is no JSON document.
pub uninterp spec fn json_reading(s: Seq<char>) -> Option<JsonTopV>;

/// Relies on `serde_json::from_str::<serde_json::Value>`: the document's top
/// value, an array (each item a string or not) or another value; `None` when
/// the text does not parse.
#[verifier::external_body]
fn read_json(s: &str) -> (r: Option<JsonTop>)
    ensures
        json_top_view(r) == json_reading(s@),
{
    match serde_json::from_str::<serde_json::Value>(s) {
        Ok(serde_json::Value::Array(items)) => Some(JsonTop::Array(items.into_iter().map(|v| match v {
            serde_json::Value::String(t) => Some(t),
            _ => None,
        }).collect())),
        Ok(_) => Some(JsonTop::Other),
        Err(_) => None,
    }
}

/// Why a call could not be translated. Each is an invariant violation: the
/// exploration must stop.
#[derive(Debug, Clone, Copy, PartialEq, Eq, Structural)]
pub enum TranslationError {
    /// No operation of the model has the generated operation's name.
    UnknownOperation,
    /// No parameter of the operation has the generated parameter's name.
    UnknownParameter,
    /// The operation or parameter carries no HTTP metadata.
    MissingMetaData,
    /// A parameter reference reached translation unresolved.
    UnresolvedReference,
    /// A response reference points past the results received so far.
    MissingResult,
    /// A referenced response is not JSON, or not an array of strings.
    InvalidResponse,
    /// The value cannot travel where its parameter goes.
    UnsupportedValue,
}

/// A response reference looked up in an earlier result.
pub enum LookupV {
    Found(ValueV),
    Unresolved,
    Invalid,
}

/// Reads a referenced response from the document its payload parses to:
/// an unsuccessful call or an empty array is unresolved; an array whose
/// first item is a string gives that string for a `String` parameter, the
/// fallback for another; anything else (no JSON, not an array, a first item
/// that is no string) is invalid.
pub open spec fn lookup_document_spec(param: ParameterV, success: bool, doc: Option<JsonTopV>, fallback: ValueV) -> LookupV {
    if !success {
        LookupV::Unresolved
    } else {
        match doc {
            Some(JsonTopV::Array(items)) => if items.len() == 0 {
                LookupV::Unresolved
            } else {
                match items[0] {
                    Some(s) => if param.schema is String {
                        LookupV::Found(ValueV::StringValue { value: s, seed: 0, active: false })
                    } else {
                        LookupV::Found(fallback)
                    },
                    None => LookupV::Invalid,
                }
            },
            _ => LookupV::Invalid,
        }
    }
}

/// The lookup of a response reference in an earlier result.
pub open spec fn lookup_spec(param: ParameterV, result: InvokeResultV, fallback: ValueV) -> LookupV {
    lookup_document_spec(param, result.success, json_reading(result.result), fallback)
}

/// What a response reference stands for.
#[derive(Debug, PartialEq)]
pub enum Lookup {
    Found(ParameterValue),
    Unresolved,
    Invalid,
}

pub open spec fn lookup_view(l: Lookup) -> LookupV {
    match l {
        Lookup::Found(v) => LookupV::Found(v@),
        Lookup::Unresolved => LookupV::Unresolved,
        Lookup::Invalid => LookupV::Invalid,
    }
}

/// Looks up what a response reference stands for in the document an earlier
/// call's payload parsed to.
pub fn lookup_in_document(param: &Parameter, success: bool, doc: Option<JsonTop>, fallback: &ParameterValue) -> (r: Lookup)
    ensures
        lookup_view(r) == lookup_document_spec(param@, success, json_top_view(doc), fallback@),
{
    if !success {
        return Lookup::Unresolved;
    }
    match doc {
        Some(JsonTop::Array(items)) => {
            if items.len() == 0 {
                return Lookup::Unresolved;
            }
            proof {
                let iv = json_top_view(Some(JsonTop::Array(items)));
                assert(iv matches Some(JsonTopV::Array(v)) && v.len() == items@.len());
            }
            match &items[0] {
                Some(s) => {
                    if matches!(param.schema, crate::amos::Schema::String) {
                        Lookup::Found(ParameterValue::StringValue { value: s.clone(), seed: 0, active: false })
                    } else {
                        Lookup::Found(fallback.deep_copy())
                    }
                },
                None => Lookup::Invalid,
            }
        },
        _ => Lookup::Invalid,
    }
}

/// Looks up the value a response reference stands for in an earlier result.
pub fn lookup_response(param: &Parameter, result: &InvokeResult, fallback: &ParameterValue) -> (r: Lookup)
    ensures
        lookup_view(r) == lookup_spec(param@, result@, fallback@),
{
    let doc = if result.success { read_json(result.result.as_str()) } else { None };
    proof {
        if result.success {
            assert(json_top_view(doc) == json_reading(result@.result));
        }
    }
    lookup_in_document(param, result.success, doc, fallback)
}

/// The pieces joined with `sep` between them.
pub open spec fn join_spec(v: Seq<Seq<char>>, sep: char) -> Seq<char>
    decreases v.len(),
{
    if v.len() == 0 {
        Seq::empty()
    } else if v.len() == 1 {
        v[0]
    } else {
        join_spec(v.drop_last(), sep).push(sep) + v.last()
    }
}

fn join(v: &Vec<String>, sep: char) -> (r: String)
    ensures
        r@ == join_spec(v@.map_values(|s: String| s@), sep),
{
    let mut out = String::new();
    let mut i: usize = 0;
    while i < v.len()
        invariant
            i <= v@.len(),
            out@ == join_spec(v@.subrange(0, i as int).map_values(|s: String| s@), sep),
        decreases v@.len() - i,
    {
        let ghost before = out@;
        if i > 0 {
            push_char(&mut out, sep);
        }
        out.append(v[i].as_str());
        proof {
            let t = v@.subrange(0, i + 1).map_values(|s: String| s@);
            assert(t.drop_last() =~= v@.subrange(0, i as int).map_values(|s: String| s@));
            assert(t.last() == v@[i as int]@);
            if i == 0 {
                assert(out@ =~= t[0]);
            } else {
                assert(out@ =~= before.push(sep) + t.last());
            }
        }
        i = i + 1;
    }
    proof {
        assert(v@.subrange(0, v@.len() as int) =~= v@);
    }
    out
}

pub open spec fn octets_text(o: Octets) -> Seq<char> {
    decimal_text(o.0 as int) + seq!['.'] + decimal_text(o.1 as int) + seq!['.'] + decimal_text(o.2 as int)
        + seq!['.'] + decimal_text(o.3 as int)
}

/// The text a value takes in a URL path; `None` for values that have none.
pub open spec fn path_text(v: ValueV) -> Option<Seq<char>> {
    match v {
        ValueV::StringValue { value, .. } => Some(value),
        ValueV::BoolValue { value, .. } => Some(if value { "true"@ } else { "false"@ }),
        ValueV::DoubleValue { value, .. } => Some(value),
        ValueV::ArrayOfString { value, .. } => Some(join_spec(value, ',')),
        ValueV::IntValue { value, .. } => Some(decimal_text(value as int)),
        ValueV::IPV4Value { value, .. } => Some(octets_text(value)),
        _ => None,
    }
}

/// The text a value takes in a query string or a form; `None` for values
/// that have none.
pub open spec fn scalar_text(v: ValueV) -> Option<Seq<char>> {
    match v {
        ValueV::StringValue { value, .. } => Some(value),
        ValueV::IntValue { value, .. } => Some(decimal_text(value as int)),
        _ => None,
    }
}

fn path_text_exec(v: &ParameterValue) -> (r: Option<String>)
    ensures
        match r {
            Some(t) => path_text(v@) == Some(t@),
            None => path_text(v@) is None,
        },
{
    match v {
        ParameterValue::StringValue { value, .. } => Some(value.clone()),
        ParameterValue::BoolValue { value, .. } => {
            let t = if *value { "true".to_string() } else { "false".to_string() };
            proof {
                reveal_strlit("true");
                reveal_strlit("false");
            }
            Some(t)
        },
        ParameterValue::DoubleValue { value, .. } => Some(value.clone()),
        ParameterValue::ArrayOfString { value, .. } => Some(join(value, ',')),
        ParameterValue::IntValue { value, .. } => Some(decimal(*value)),
        ParameterValue::IPV4Value { value, .. } => {
            let mut t = decimal(value.0 as i64);
            push_char(&mut t, '.');
            t.append(decimal(value.1 as i64).as_str());
            push_char(&mut t, '.');
            t.append(decimal(value.2 as i64).as_str());
            push_char(&mut t, '.');
            t.append(decimal(value.3 as i64).as_str());
            proof {
                assert(t@ =~= octets_text(*value));
            }
            Some(t)
        },
        _ => None,
    }
}

fn scalar_text_exec(v: &ParameterValue) -> (r: Option<String>)
    ensures
        match r {
            Some(t) => scalar_text(v@) == Some(t@),
            None => scalar_text(v@) is None,
        },
{
    match v {
        ParameterValue::StringValue { value, .. } => Some(value.clone()),
        ParameterValue::IntValue { value, .. } => Some(decimal(*value)),
        _ => None,
    }
}

/// `{name}`, the placeholder of a path parameter.
pub open spec fn placeholder(name: Seq<char>) -> Seq<char> {
    seq!['{'] + name + seq!['}']
}

/// The translation of the parameters read so far.
pub struct StateV {
    pub url: Seq<char>,
    pub form: Seq<GeneratedParameterV>,
    pub query: Seq<Seq<char>>,
    pub body: Seq<GeneratedParameterV>,
    pub file: Seq<GeneratedParameterV>,
}

pub enum StepV {
    Continue(StateV),
    Abandon,
    Fail(TranslationError),
}

/// The first parameter of the model with the given name.
pub open spec fn is_first_param(ps: Seq<ParameterV>, name: Seq<char>, i: int) -> bool {
    0 <= i < ps.len() && ps[i].name == name && forall|j: int| 0 <= j < i ==> (#[trigger] ps[j]).name != name
}

pub open spec fn find_param(ps: Seq<ParameterV>, name: Seq<char>) -> Option<ParameterV> {
    if exists|i: int| is_first_param(ps, name, i) {
        Some(ps[choose|i: int| is_first_param(ps, name, i)])
    } else {
        None
    }
}

/// The value a response reference resolves to for a non-path target: the
/// looked-up value, or the fallback when the reference is unresolved.
pub open spec fn resolve_for_value(ap: ParameterV, results: Seq<InvokeResultV>, info: RelationInfoV, fallback: ValueV) -> Result<ValueV, TranslationError> {
    if info.op_idx >= results.len() {
        Err(TranslationError::MissingResult)
    } else {
        match lookup_spec(ap, results[info.op_idx as int], fallback) {
            LookupV::Found(v) => Ok(v),
            LookupV::Unresolved => Ok(fallback),
            LookupV::Invalid => Err(TranslationError::InvalidResponse),
        }
    }
}

/// `st` with the path placeholder of `name` replaced by the text of `v`;
/// abandoned for `Empty`, for an empty string, or for a value with no path text.
pub open spec fn path_step(st: StateV, name: Seq<char>, v: ValueV) -> StepV {
    match v {
        ValueV::Empty => StepV::Abandon,
        ValueV::StringValue { value, .. } => if value.len() == 0 {
            StepV::Abandon
        } else {
            StepV::Continue(StateV { url: replace_spec(st.url, placeholder(name), value), ..st })
        },
        _ => match path_text(v) {
            Some(t) => StepV::Continue(StateV { url: replace_spec(st.url, placeholder(name), t), ..st }),
            None => StepV::Fail(TranslationError::UnsupportedValue),
        },
    }
}

pub open spec fn query_step(st: StateV, name: Seq<char>, v: ValueV) -> StepV {
    match scalar_text(v) {
        Some(t) => StepV::Continue(StateV { query: st.query.push(name + seq!['='] + t), ..st }),
        None => StepV::Fail(TranslationError::UnsupportedValue),
    }
}

/// One parameter's effect on the translation.
pub open spec fn translate_step(amos_params: Seq<ParameterV>, results: Seq<InvokeResultV>, st: StateV, p: GeneratedParameterV) -> StepV {
    match find_param(amos_params, p.name) {
        None => StepV::Fail(TranslationError::UnknownParameter),
        Some(ap) => match ap.meta_data {
            None => StepV::Fail(TranslationError::MissingMetaData),
            Some(ParameterMetaData::HTTP { target }) => match p.value {
                ValueV::Reference { relation: RelationV::Parameter(_), .. } => if target == HTTPParameterTarget::Unsupported {
                    StepV::Continue(st)
                } else {
                    StepV::Fail(TranslationError::UnresolvedReference)
                },
                ValueV::Reference { relation: RelationV::Response(info), fallback, .. } => match target {
                    HTTPParameterTarget::Path => if info.op_idx >= results.len() {
                        StepV::Fail(TranslationError::MissingResult)
                    } else {
                        match lookup_spec(ap, results[info.op_idx as int], *fallback) {
                            LookupV::Found(v) => match v {
                                ValueV::StringValue { .. } => path_step(st, p.name, v),
                                ValueV::IntValue { .. } => path_step(st, p.name, v),
                                _ => StepV::Fail(TranslationError::UnsupportedValue),
                            },
                            LookupV::Unresolved => StepV::Abandon,
                            LookupV::Invalid => StepV::Fail(TranslationError::InvalidResponse),
                        }
                    },
                    HTTPParameterTarget::Unsupported => StepV::Continue(st),
                    _ => match resolve_for_value(ap, results, info, *fallback) {
                        Err(e) => StepV::Fail(e),
                        Ok(v) => {
                            let g = GeneratedParameterV { name: p.name, value: v, ref_path: p.ref_path };
                            match target {
                                HTTPParameterTarget::Body => StepV::Continue(StateV { body: st.body.push(g), ..st }),
                                HTTPParameterTarget::FormData => StepV::Continue(StateV { form: st.form.push(g), ..st }),
                                _ => query_step(st, p.name, v),
                            }
                        },
                    },
                },
                _ => match target {
                    HTTPParameterTarget::Body => StepV::Continue(StateV { body: st.body.push(p), ..st }),
                    HTTPParameterTarget::Path => path_step(st, p.name, p.value),
                    HTTPParameterTarget::FormData => if p.value is File {
                        StepV::Continue(StateV { file: st.file.push(p), ..st })
                    } else {
                        StepV::Continue(StateV { form: st.form.push(p), ..st })
                    },
                    HTTPParameterTarget::Query => query_step(st, p.name, p.value),
                    HTTPParameterTarget::Unsupported => StepV::Continue(st),
                },
            },
        },
    }
}

/// The translation after the parameters `ps`, in order, from the URL template.
pub open spec fn translate_fold(amos_params: Seq<ParameterV>, results: Seq<InvokeResultV>, url: Seq<char>, ps: Seq<GeneratedParameterV>) -> StepV
    decreases ps.len(),
{
    if ps.len() == 0 {
        StepV::Continue(StateV { url, form: Seq::empty(), query: Seq::empty(), body: Seq::empty(), file: Seq::empty() })
    } else {
        match translate_fold(amos_params, results, url, ps.drop_last()) {
            StepV::Continue(st) => translate_step(amos_params, results, st, ps.last()),
            other => other,
        }
    }
}

pub open spec fn param_views(ps: Seq<Parameter>) -> Seq<ParameterV> {
    ps.map_values(|p: Parameter| p@)
}

pub open spec fn gen_param_views(ps: Seq<GeneratedParameter>) -> Seq<GeneratedParameterV> {
    ps.map_values(|p: GeneratedParameter| p@)
}

pub open spec fn result_views(rs: Seq<InvokeResult>) -> Seq<InvokeResultV> {
    rs.map_values(|r: InvokeResult| r@)
}

proof fn lemma_first_param_unique(ps: Seq<ParameterV>, name: Seq<char>, i: int, j: int)
    requires
        is_first_param(ps, name, i),
        is_first_param(ps, name, j),
    ensures
        i == j,
{
    if i < j {
        assert(ps[i].name != name);
    } else if j < i {
        assert(ps[j].name != name);
    }
}

fn find_param_exec<'a>(ps: &'a [Parameter], name: &String) -> (r: Option<&'a Parameter>)
    ensures
        match r {
            Some(p) => find_param(param_views(ps@), name@) == Some(p@),
            None => find_param(param_views(ps@), name@) is None,
        },
{
    let ghost pv = param_views(ps@);
    let mut i: usize = 0;
    while i < ps.len()
        invariant
            pv == param_views(ps@),
            i <= ps@.len(),
            forall|j: int| 0 <= j < i ==> (#[trigger] pv[j]).name != name@,
        decreases ps@.len() - i,
    {
        if str_eq(ps[i].name.as_str(), name.as_str()) {
            proof {
                assert(pv[i as int] == ps@[i as int]@);
                assert(is_first_param(pv, name@, i as int));
                let k = choose|k: int| is_first_param(pv, name@, k);
                lemma_first_param_unique(pv, name@, i as int, k);
            }
            return Some(&ps[i]);
        }
        proof {
            assert(pv[i as int] == ps@[i as int]@);
        }
        i = i + 1;
    }
    proof {
        if exists|k: int| is_first_param(pv, name@, k) {
            let k = choose|k: int| is_first_param(pv, name@, k);
            assert(pv[k].name != name@);
        }
    }
    None
}

/// The state of a translation in progress.
pub struct TranslationState {
    pub url: String,
    pub form: Vec<GeneratedParameter>,
    pub query: Vec<String>,
    pub body: Vec<GeneratedParameter>,
    pub file: Vec<GeneratedParameter>,
}

impl View for TranslationState {
    type V = StateV;

    open spec fn view(&self) -> StateV {
        StateV {
            url: self.url@,
            form: gen_param_views(self.form@),
            query: self.query@.map_values(|q: String| q@),
            body: gen_param_views(self.body@),
            file: gen_param_views(self.file@),
        }
    }
}

pub enum Step {
    Continue(TranslationState),
    Abandon,
    Fail(TranslationError),
}

pub open spec fn step_view(s: Step) -> StepV {
    match s {
        Step::Continue(st) => StepV::Continue(st@),
        Step::Abandon => StepV::Abandon,
        Step::Fail(e) => StepV::Fail(e),
    }
}

fn placeholder_of(name: &String) -> (r: String)
    ensures
        r@ == placeholder(name@),
{
    let mut t = String::new();
    push_char(&mut t, '{');
    t.append(name.as_str());
    push_char(&mut t, '}');
    proof {
        assert(t@ =~= placeholder(name@));
    }
    t
}

fn path_step_exec(st: TranslationState, name: &String, v: &ParameterValue) -> (r: Step)
    ensures
        step_view(r) == path_step(st@, name@, v@),
{
    let mut st = st;
    match v {
        ParameterValue::Empty => Step::Abandon,
        ParameterValue::StringValue { value, .. } => {
            if value.unicode_len() == 0 {
                Step::Abandon
            } else {
                let ph = placeholder_of(name);
                let ghost old_st = st@;
                st.url = replace(st.url.as_str(), ph.as_str(), value.as_str());
                proof {
                    assert(st@ == (StateV { url: replace_spec(old_st.url, placeholder(name@), value@), ..old_st }));
                }
                Step::Continue(st)
            }
        },
        _ => match path_text_exec(v) {
            Some(t) => {
                let ph = placeholder_of(name);
                let ghost old_st = st@;
                st.url = replace(st.url.as_str(), ph.as_str(), t.as_str());
                proof {
                    assert(st@ == (StateV { url: replace_spec(old_st.url, placeholder(name@), t@), ..old_st }));
                }
                Step::Continue(st)
            },
            None => Step::Fail(TranslationError::UnsupportedValue),
        },
    }
}

fn query_step_exec(st: TranslationState, name: &String, v: &ParameterValue) -> (r: Step)
    ensures
        step_view(r) == query_step(st@, name@, v@),
{
    let mut st = st;
    match scalar_text_exec(v) {
        Some(t) => {
            let mut q = name.clone();
            push_char(&mut q, '=');
            q.append(t.as_str());
            proof {
                assert(q@ =~= name@ + seq!['='] + t@);
            }
            let ghost old_st = st@;
            st.query.push(q);
            proof {
                assert(st@.query =~= old_st.query.push(name@ + seq!['='] + t@));
                assert(st@ == (StateV { query: old_st.query.push(name@ + seq!['='] + t@), ..old_st }));
            }
            Step::Continue(st)
        },
        None => Step::Fail(TranslationError::UnsupportedValue),
    }
}

proof fn lemma_push_view(v: Seq<GeneratedParameter>, g: GeneratedParameter)
    ensures
        gen_param_views(v.push(g)) == gen_param_views(v).push(g@),
{
    assert(gen_param_views(v.push(g)) =~= gen_param_views(v).push(g@));
}

/// The effect of one generated parameter on the translation.
fn translate_one(amos_params: &[Parameter], results: &[InvokeResult], st: TranslationState, p: &GeneratedParameter) -> (r: Step)
    ensures
        step_view(r) == translate_step(param_views(amos_params@), result_views(results@), st@, p@),
{
    let mut st = st;
    let ghost old_st = st@;
    let ap = match find_param_exec(amos_params, &p.name) {
        None => {
            return Step::Fail(TranslationError::UnknownParameter);
        },
        Some(ap) => ap,
    };
    let target = match ap.meta_data {
        None => {
            return Step::Fail(TranslationError::MissingMetaData);
        },
        Some(ParameterMetaData::HTTP { target }) => target,
    };
    match &p.value {
        ParameterValue::Reference { relation: crate::relations::Relation::Parameter(_), .. } => {
            if target == HTTPParameterTarget::Unsupported {
                Step::Continue(st)
            } else {
                Step::Fail(TranslationError::UnresolvedReference)
            }
        },
        ParameterValue::Reference { relation: crate::relations::Relation::Response(info), fallback, .. } => {
            if target == HTTPParameterTarget::Unsupported {
                return Step::Continue(st);
            }
            if info.op_idx >= results.len() {
                return Step::Fail(TranslationError::MissingResult);
            }
            proof {
                assert(result_views(results@)[info.op_idx as int] == results@[info.op_idx as int]@);
            }
            let found = lookup_response(ap, &results[info.op_idx], &**fallback);
            if target == HTTPParameterTarget::Path {
                match found {
                    Lookup::Found(v) => match v {
                        ParameterValue::StringValue { .. } => path_step_exec(st, &p.name, &v),
                        ParameterValue::IntValue { .. } => path_step_exec(st, &p.name, &v),
                        _ => Step::Fail(TranslationError::UnsupportedValue),
                    },
                    Lookup::Unresolved => Step::Abandon,
                    Lookup::Invalid => Step::Fail(TranslationError::InvalidResponse),
                }
            } else {
                let v = match found {
                    Lookup::Found(v) => v,
                    Lookup::Unresolved => (**fallback).deep_copy(),
                    Lookup::Invalid => {
                        return Step::Fail(TranslationError::InvalidResponse);
                    },
                };
                if target == HTTPParameterTarget::Query {
                    query_step_exec(st, &p.name, &v)
                } else {
                    let g = GeneratedParameter { name: p.name.clone(), value: v, ref_path: match &p.ref_path {
                        Some(t) => Some(t.clone()),
                        None => None,
                    } };
                    proof {
                        lemma_push_view(st.body@, g);
                        lemma_push_view(st.form@, g);
                    }
                    if target == HTTPParameterTarget::Body {
                        st.body.push(g);
                    } else {
                        st.form.push(g);
                    }
                    Step::Continue(st)
                }
            }
        },
        _ => {
            match target {
                HTTPParameterTarget::Body => {
                    proof {
                        lemma_push_view(st.body@, *p);
                    }
                    st.body.push(p.deep_copy());
                    proof {
                        assert(gen_param_views(st.body@) == old_st.body.push(p@)) by {
                            assert(gen_param_views(st.body@) =~= old_st.body.push(p@));
                        }
                    }
                    Step::Continue(st)
                },
                HTTPParameterTarget::Path => path_step_exec(st, &p.name, &p.value),
                HTTPParameterTarget::FormData => {
                    if matches!(p.value, ParameterValue::File { .. }) {
                        st.file.push(p.deep_copy());
                        proof {
                            assert(gen_param_views(st.file@) =~= old_st.file.push(p@));
                        }
                    } else {
                        st.form.push(p.deep_copy());
                        proof {
                            assert(gen_param_views(st.form@) =~= old_st.form.push(p@));
                        }
                    }
                    Step::Continue(st)
                },
                HTTPParameterTarget::Query => query_step_exec(st, &p.name, &p.value),
                HTTPParameterTarget::Unsupported => Step::Continue(st),
            }
        },
    }
}

/// The text a value takes in a form or body map; `None` for values that have none.
pub open spec fn form_text(v: ValueV) -> Option<Seq<char>> {
    match v {
        ValueV::StringValue { value, .. } => Some(value),
        ValueV::IntValue { value, .. } => Some(decimal_text(value as int)),
        ValueV::File { value, .. } => Some(decimal_text(value as int)),
        _ => None,
    }
}

pub open spec fn is_first_key(m: Seq<(Seq<char>, Seq<char>)>, k: Seq<char>, i: int) -> bool {
    0 <= i < m.len() && m[i].0 == k && forall|j: int| 0 <= j < i ==> (#[trigger] m[j]).0 != k
}

/// `m` with `k` mapped to `v`: an existing key keeps its place.
pub open spec fn map_insert(m: Seq<(Seq<char>, Seq<char>)>, k: Seq<char>, v: Seq<char>) -> Seq<(Seq<char>, Seq<char>)> {
    if exists|i: int| is_first_key(m, k, i) {
        m.update(choose|i: int| is_first_key(m, k, i), (k, v))
    } else {
        m.push((k, v))
    }
}

/// The key/value map of a list of parameters, later values overwriting
/// earlier ones of the same name.
pub open spec fn form_map(ps: Seq<GeneratedParameterV>) -> Result<Seq<(Seq<char>, Seq<char>)>, TranslationError>
    decreases ps.len(),
{
    if ps.len() == 0 {
        Ok(Seq::empty())
    } else {
        match form_map(ps.drop_last()) {
            Err(e) => Err(e),
            Ok(m) => match form_text(ps.last().value) {
                Some(t) => Ok(map_insert(m, ps.last().name, t)),
                None => Err(TranslationError::UnsupportedValue),
            },
        }
    }
}

pub open spec fn pairs_view(m: Seq<(String, String)>) -> Seq<(Seq<char>, Seq<char>)> {
    m.map_values(|p: (String, String)| (p.0@, p.1@))
}

proof fn lemma_first_key_unique(m: Seq<(Seq<char>, Seq<char>)>, k: Seq<char>, i: int, j: int)
    requires
        is_first_key(m, k, i),
        is_first_key(m, k, j),
    ensures
        i == j,
{
    if i < j {
        assert(m[i].0 != k);
    } else if j < i {
        assert(m[j].0 != k);
    }
}

fn insert_pair(m: &mut Vec<(String, String)>, k: String, v: String)
    ensures
        pairs_view(final(m)@) == map_insert(pairs_view(old(m)@), k@, v@),
{
    let ghost mv = pairs_view(m@);
    let mut i: usize = 0;
    while i < m.len()
        invariant
            mv == pairs_view(m@),
            mv == pairs_view(old(m)@),
            i <= m@.len(),
            forall|j: int| 0 <= j < i ==> (#[trigger] mv[j]).0 != k@,
        decreases m@.len() - i,
    {
        proof {
            assert(mv[i as int] == (m@[i as int].0@, m@[i as int].1@));
        }
        if str_eq(m[i].0.as_str(), k.as_str()) {
            proof {
                assert(is_first_key(mv, k@, i as int));
                let c = choose|c: int| is_first_key(mv, k@, c);
                lemma_first_key_unique(mv, k@, i as int, c);
                assert(map_insert(mv, k@, v@) == mv.update(i as int, (k@, v@)));
            }
            let ghost kv = (k@, v@);
            m.set(i, (k, v));
            proof {
                assert(pairs_view(m@) =~= mv.update(i as int, kv));
                assert(mv == pairs_view(old(m)@));
                assert(kv == (k@, v@));
            }
            return;
        }
        i = i + 1;
    }
    proof {
        if exists|c: int| is_first_key(mv, k@, c) {
            let c = choose|c: int| is_first_key(mv, k@, c);
            assert(mv[c].0 != k@);
        }
    }
    m.push((k, v));
    proof {
        assert(pairs_view(m@) =~= mv.push((k@, v@)));
    }
}

proof fn lemma_form_map_err_stays(ps: Seq<GeneratedParameterV>, n: int)
    requires
        0 < n <= ps.len(),
        form_map(ps.subrange(0, n)) is Err,
    ensures
        form_map(ps) == form_map(ps.subrange(0, n)),
    decreases ps.len() - n,
{
    if n < ps.len() {
        let next = ps.subrange(0, n + 1);
        assert(next.drop_last() =~= ps.subrange(0, n));
        lemma_form_map_err_stays(ps, n + 1);
    } else {
        assert(ps.subrange(0, n) =~= ps);
    }
}

/// The key/value map of form-data (or body, or file) parameters.
pub fn parameters_to_form_data(params: &[GeneratedParameter]) -> (r: Result<Vec<(String, String)>, TranslationError>)
    ensures
        match r {
            Ok(m) => form_map(gen_param_views(params@)) == Ok::<Seq<(Seq<char>, Seq<char>)>, TranslationError>(pairs_view(m@)),
            Err(e) => form_map(gen_param_views(params@)) == Err::<Seq<(Seq<char>, Seq<char>)>, TranslationError>(e),
        },
{
    let mut m: Vec<(String, String)> = Vec::new();
    let mut i: usize = 0;
    proof {
        assert(gen_param_views(params@.subrange(0, 0)) =~= Seq::<GeneratedParameterV>::empty());
        assert(pairs_view(m@) =~= Seq::<(Seq<char>, Seq<char>)>::empty());
    }
    while i < params.len()
        invariant
            i <= params@.len(),
            form_map(gen_param_views(params@.subrange(0, i as int))) == Ok::<Seq<(Seq<char>, Seq<char>)>, TranslationError>(pairs_view(m@)),
        decreases params@.len() - i,
    {
        let p = &params[i];
        proof {
            let t = gen_param_views(params@.subrange(0, i + 1));
            assert(t.drop_last() =~= gen_param_views(params@.subrange(0, i as int)));
            assert(t.last() == p@);
        }
        let text = match &p.value {
            ParameterValue::StringValue { value, .. } => value.clone(),
            ParameterValue::IntValue { value, .. } => decimal(*value),
            ParameterValue::File { value, .. } => decimal(*value as i64),
            _ => {
                proof {
                    lemma_form_map_err_stays(gen_param_views(params@), i as int + 1);
                    assert(gen_param_views(params@).subrange(0, i + 1) =~= gen_param_views(params@.subrange(0, i + 1)));
                }
                return Err(TranslationError::UnsupportedValue);
            },
        };
        insert_pair(&mut m, p.name.clone(), text);
        i = i + 1;
    }
    proof {
        assert(params@.subrange(0, params@.len() as int) =~= params@);
    }
    Ok(m)
}

/// The HTTP parameters as mathematical values.
pub struct HTTPParametersV {
    pub url: Seq<char>,
    pub form_data: Option<Seq<(Seq<char>, Seq<char>)>>,
    pub file_data: Option<Seq<(Seq<char>, Seq<char>)>>,
    pub body: Option<Seq<(Seq<char>, Seq<char>)>>,
}

pub open spec fn opt_pairs_view(o: Option<Vec<(String, String)>>) -> Option<Seq<(Seq<char>, Seq<char>)>> {
    match o {
        Some(m) => Some(pairs_view(m@)),
        None => None,
    }
}

pub open spec fn http_parameters_view(h: HTTPParameters) -> HTTPParametersV {
    HTTPParametersV {
        url: h.url@,
        form_data: opt_pairs_view(h.form_data),
        file_data: opt_pairs_view(h.file_data),
        body: opt_pairs_view(h.body),
    }
}

/// The map of a non-empty list, or nothing for an empty one.
pub open spec fn optional_map(ps: Seq<GeneratedParameterV>) -> Result<Option<Seq<(Seq<char>, Seq<char>)>>, TranslationError> {
    if ps.len() == 0 {
        Ok(None)
    } else {
        match form_map(ps) {
            Ok(m) => Ok(Some(m)),
            Err(e) => Err(e),
        }
    }
}

/// The URL with the query parameters appended after `?`, joined by `&`.
pub open spec fn url_with_query(url: Seq<char>, query: Seq<Seq<char>>) -> Seq<char> {
    if query.len() == 0 {
        url
    } else {
        url.push('?') + join_spec(query, '&')
    }
}

/// The parameters of the call once every generated parameter was read.
pub open spec fn finish_spec(st: StateV) -> Result<HTTPParametersV, TranslationError> {
    match (optional_map(st.form), optional_map(st.body), optional_map(st.file)) {
        (Err(e), _, _) => Err(e),
        (Ok(_), Err(e), _) => Err(e),
        (Ok(_), Ok(_), Err(e)) => Err(e),
        (Ok(form), Ok(body), Ok(file)) => Ok(HTTPParametersV {
            url: url_with_query(st.url, st.query),
            form_data: form,
            file_data: file,
            body,
        }),
    }
}

/// The translation of a list of generated parameters against the URL template.
pub open spec fn translate_parameters_spec(
    amos_params: Seq<ParameterV>,
    results: Seq<InvokeResultV>,
    url: Seq<char>,
    ps: Seq<GeneratedParameterV>,
) -> Result<Option<HTTPParametersV>, TranslationError> {
    match translate_fold(amos_params, results, url, ps) {
        StepV::Fail(e) => Err(e),
        StepV::Abandon => Ok(None),
        StepV::Continue(st) => match finish_spec(st) {
            Ok(h) => Ok(Some(h)),
            Err(e) => Err(e),
        },
    }
}

pub open spec fn translated_view(r: Result<Option<HTTPParameters>, TranslationError>) -> Result<Option<HTTPParametersV>, TranslationError> {
    match r {
        Ok(Some(h)) => Ok(Some(http_parameters_view(h))),
        Ok(None) => Ok(None),
        Err(e) => Err(e),
    }
}

fn optional_map_exec(ps: &Vec<GeneratedParameter>) -> (r: Result<Option<Vec<(String, String)>>, TranslationError>)
    ensures
        match r {
            Ok(o) => optional_map(gen_param_views(ps@)) == Ok::<Option<Seq<(Seq<char>, Seq<char>)>>, TranslationError>(opt_pairs_view(o)),
            Err(e) => optional_map(gen_param_views(ps@)) == Err::<Option<Seq<(Seq<char>, Seq<char>)>>, TranslationError>(e),
        },
{
    if ps.len() == 0 {
        Ok(None)
    } else {
        match parameters_to_form_data(ps.as_slice()) {
            Ok(m) => Ok(Some(m)),
            Err(e) => Err(e),
        }
    }
}

/// Materialises the parameters of one call: path placeholders replaced,
/// query parameters appended in order, form, file and body values gathered.
/// `Ok(None)` when the call must be abandoned (a path parameter that is
/// `Empty`, an empty string, or an unresolvable response reference).
pub fn translate_parameters(
    params: &[GeneratedParameter],
    amos_params: &[Parameter],
    results: &[InvokeResult],
    url: &str,
) -> (r: Result<Option<HTTPParameters>, TranslationError>)
    ensures
        translated_view(r) == translate_parameters_spec(
            param_views(amos_params@),
            result_views(results@),
            url@,
            gen_param_views(params@),
        ),
{
    let ghost aps = param_views(amos_params@);
    let ghost rs = result_views(results@);
    let mut st = TranslationState {
        url: url.to_string(),
        form: Vec::new(),
        query: Vec::new(),
        body: Vec::new(),
        file: Vec::new(),
    };
    proof {
        assert(st@.form =~= Seq::<GeneratedParameterV>::empty());
        assert(st@.body =~= Seq::<GeneratedParameterV>::empty());
        assert(st@.file =~= Seq::<GeneratedParameterV>::empty());
        assert(st@.query =~= Seq::<Seq<char>>::empty());
        assert(gen_param_views(params@.subrange(0, 0)) =~= Seq::<GeneratedParameterV>::empty());
    }
    let mut i: usize = 0;
    while i < params.len()
        invariant
            aps == param_views(amos_params@),
            rs == result_views(results@),
            i <= params@.len(),
            translate_fold(aps, rs, url@, gen_param_views(params@.subrange(0, i as int))) == StepV::Continue(st@),
        decreases params@.len() - i,
    {
        proof {
            let t = gen_param_views(params@.subrange(0, i + 1));
            assert(t.drop_last() =~= gen_param_views(params@.subrange(0, i as int)));
            assert(t.last() == params@[i as int]@);
        }
        match translate_one(amos_params, results, st, &params[i]) {
            Step::Continue(next) => {
                st = next;
            },
            Step::Abandon => {
                proof {
                    lemma_fold_stops(aps, rs, url@, gen_param_views(params@), i as int + 1);
                    assert(gen_param_views(params@).subrange(0, i + 1) =~= gen_param_views(params@.subrange(0, i + 1)));
                }
                return Ok(None);
            },
            Step::Fail(e) => {
                proof {
                    lemma_fold_stops(aps, rs, url@, gen_param_views(params@), i as int + 1);
                    assert(gen_param_views(params@).subrange(0, i + 1) =~= gen_param_views(params@.subrange(0, i + 1)));
                }
                return Err(e);
            },
        }
        i = i + 1;
    }
    proof {
        assert(params@.subrange(0, params@.len() as int) =~= params@);
    }
    let form = match optional_map_exec(&st.form) {
        Ok(m) => m,
        Err(e) => {
            return Err(e);
        },
    };
    let body = match optional_map_exec(&st.body) {
        Ok(m) => m,
        Err(e) => {
            return Err(e);
        },
    };
    let file = match optional_map_exec(&st.file) {
        Ok(m) => m,
        Err(e) => {
            return Err(e);
        },
    };
    let mut full = st.url;
    if st.query.len() > 0 {
        push_char(&mut full, '?');
        let q = join(&st.query, '&');
        full.append(q.as_str());
    }
    proof {
        if st.query@.len() > 0 {
            assert(full@ =~= url_with_query(st@.url, st@.query));
        }
    }
    Ok(Some(HTTPParameters { url: full, form_data: form, file_data: file, body }))
}

/// Once the fold stops (abandons or fails) on a prefix, it stays stopped.
proof fn lemma_fold_stops(aps: Seq<ParameterV>, rs: Seq<InvokeResultV>, url: Seq<char>, ps: Seq<GeneratedParameterV>, n: int)
    requires
        0 < n <= ps.len(),
        !(translate_fold(aps, rs, url, ps.subrange(0, n)) is Continue),
    ensures
        translate_fold(aps, rs, url, ps) == translate_fold(aps, rs, url, ps.subrange(0, n)),
    decreases ps.len() - n,
{
    if n < ps.len() {
        let next = ps.subrange(0, n + 1);
        assert(next.drop_last() =~= ps.subrange(0, n));
        lemma_fold_stops(aps, rs, url, ps, n + 1);
    } else {
        assert(ps.subrange(0, n) =~= ps);
    }
}

/// Whether a generated parameter is a path parameter of the model whose
/// value is `Empty` or an empty string.
pub open spec fn empty_path_value(aps: Seq<ParameterV>, p: GeneratedParameterV) -> bool {
    match find_param(aps, p.name) {
        Some(ap) => ap.meta_data == Some(ParameterMetaData::HTTP { target: HTTPParameterTarget::Path }) && (
        p.value is Empty || (p.value matches ValueV::StringValue { value, .. } && value.len() == 0)),
        None => false,
    }
}

/// Translation never yields a call when some path parameter is `Empty` or
/// the empty string: it abandons the call (`Ok(None)`), unless an earlier
/// parameter already made it fail.
pub proof fn lemma_empty_path_abandons(
    aps: Seq<ParameterV>,
    rs: Seq<InvokeResultV>,
    url: Seq<char>,
    ps: Seq<GeneratedParameterV>,
    k: int,
)
    requires
        0 <= k < ps.len(),
        empty_path_value(aps, ps[k]),
    ensures
        !(translate_parameters_spec(aps, rs, url, ps) matches Ok(Some(_))),
{
    let pre = ps.subrange(0, k + 1);
    assert(pre.drop_last() =~= ps.subrange(0, k));
    assert(pre.last() == ps[k]);
    assert(!(translate_fold(aps, rs, url, pre) is Continue));
    lemma_fold_stops(aps, rs, url, ps, k + 1);
}

/// The full URL of a call: protocol, host, `:`, port, then the path.
pub open spec fn full_url(config: HTTPConfiguration, path: Seq<char>) -> Seq<char> {
    protocol_prefix(config.protocol) + config.base_url@ + seq![':'] + decimal_text(config.port as int) + path
}

pub struct HTTPCallV {
    pub url: Seq<char>,
    pub method: HTTPMethod,
    pub parameters: HTTPParametersV,
}

pub open spec fn http_call_view(c: HTTPCall) -> HTTPCallV {
    HTTPCallV { url: c.url@, method: c.method, parameters: http_parameters_view(c.parameters) }
}

/// The call for a generated operation, given the operation's metadata.
pub open spec fn translate_operation_spec(
    config: HTTPConfiguration,
    gen_op: GeneratedOperation,
    op_meta: Option<OperationMetaData>,
    amos_op: Operation,
    results: Seq<InvokeResultV>,
) -> Result<Option<HTTPCallV>, TranslationError> {
    match op_meta {
        None => Err(TranslationError::MissingMetaData),
        Some(OperationMetaData::HTTP { url, method }) => match translate_parameters_spec(
            param_views(amos_op.parameters@),
            results,
            url@,
            gen_param_views(gen_op.parameters@),
        ) {
            Err(e) => Err(e),
            Ok(None) => Ok(None),
            Ok(Some(h)) => Ok(Some(HTTPCallV { url: full_url(config, h.url), method, parameters: h })),
        },
    }
}

pub open spec fn call_view(r: Result<Option<HTTPCall>, TranslationError>) -> Result<Option<HTTPCallV>, TranslationError> {
    match r {
        Ok(Some(c)) => Ok(Some(http_call_view(c))),
        Ok(None) => Ok(None),
        Err(e) => Err(e),
    }
}

/// Materialises a generated operation as an HTTP call.
pub fn translate_operation(
    config: &HTTPConfiguration,
    gen_op: &GeneratedOperation,
    op_meta: &Option<OperationMetaData>,
    amos_op: &Operation,
    results: &[InvokeResult],
) -> (r: Result<Option<HTTPCall>, TranslationError>)
    ensures
        call_view(r) == translate_operation_spec(*config, *gen_op, *op_meta, *amos_op, result_views(results@)),
{
    match op_meta {
        None => Err(TranslationError::MissingMetaData),
        Some(OperationMetaData::HTTP { url, method }) => {
            match translate_parameters(gen_op.parameters.as_slice(), amos_op.parameters.as_slice(), results, url.as_str()) {
                Err(e) => Err(e),
                Ok(None) => Ok(None),
                Ok(Some(call)) => {
                    let mut full = config.protocol.prefix();
                    full.append(config.base_url.as_str());
                    push_char(&mut full, ':');
                    let port = decimal(config.port as i64);
                    full.append(port.as_str());
                    full.append(call.url.as_str());
                    proof {
                        assert(full@ =~= full_url(*config, call.url@));
                    }
                    Ok(Some(HTTPCall { url: full, method: *method, parameters: call }))
                },
            }
        },
    }
}

/// Finds the model operation of a generated operation and translates it,
/// returning the call and its URL.
pub fn translate_generated_operation_to_http_call(
    config: &HTTPConfiguration,
    ops: &Vec<Operation>,
    gen_op: &GeneratedOperation,
    results: &[InvokeResult],
) -> (r: Result<Option<(HTTPCall, String)>, TranslationError>)
    ensures
        match find_operation_spec(ops@, gen_op.name@) {
            None => r == Err::<Option<(HTTPCall, String)>, TranslationError>(TranslationError::UnknownOperation),
            Some(op) => match r {
                Ok(Some((c, u))) => call_view(Ok(Some(c))) == translate_operation_spec(*config, *gen_op, op.meta_data, op, result_views(results@))
                    && u@ == c.url@,
                Ok(None) => translate_operation_spec(*config, *gen_op, op.meta_data, op, result_views(results@)) == Ok::<Option<HTTPCallV>, TranslationError>(None),
                Err(e) => translate_operation_spec(*config, *gen_op, op.meta_data, op, result_views(results@)) == Err::<Option<HTTPCallV>, TranslationError>(e),
            },
        },
{
    match crate::amos::find_operation_in(ops, gen_op.name.as_str()) {
        None => Err(TranslationError::UnknownOperation),
        Some(amos_op) => match translate_operation(config, gen_op, &amos_op.meta_data, amos_op, results) {
            Err(e) => Err(e),
            Ok(None) => Ok(None),
            Ok(Some(call)) => {
                let url = call.url.clone();
                Ok(Some((call, url)))
            },
        },
    }
}

/// The result of one call, as the meta-properties compare it.
pub fn translate_http_result(result: HTTPResult, gen_op: &GeneratedOperation, url: String) -> (r: InvokeResult)
    ensures
        r@.operation == gen_op@,
        r@.result == result.payload@,
        r@.success == result.success,
        r@.meta_data == Some((url@, result.status)),
{
    InvokeResult {
        operation: gen_op.deep_copy(),
        result: result.payload,
        success: result.success,
        meta_data: Some(ResultMetaData::HTTP { url, status: result.status }),
    }
}

/// A hexadecimal digit, lower case.
pub open spec fn hex_digit(d: int) -> char {
    if d < 10 {
        (d + 48) as char
    } else {
        (d + 87) as char
    }
}

/// One character inside a JSON string: quote and backslash escaped by a
/// backslash, other control characters as `\u00XX`.
pub open spec fn escape_char(c: char) -> Seq<char> {
    if c == '"' || c == '\\' {
        seq!['\\', c]
    } else if (c as int) < 32 {
        seq!['\\', 'u', '0', '0', hex_digit((c as int) / 16), hex_digit((c as int) % 16)]
    } else {
        seq![c]
    }
}

/// The contents of a JSON string holding `s`.
pub open spec fn escape_spec(s: Seq<char>) -> Seq<char>
    decreases s.len(),
{
    if s.len() == 0 {
        Seq::empty()
    } else {
        escape_spec(s.drop_last()) + escape_char(s.last())
    }
}

fn hex_char(d: u32) -> (r: char)
    requires
        d < 16,
    ensures
        r == hex_digit(d as int),
{
    if d < 10 {
        ((d + 48) as u8) as char
    } else {
        ((d + 87) as u8) as char
    }
}

/// Appends `s` escaped for a JSON string.
fn push_escaped(out: &mut String, s: &str)
    ensures
        final(out)@ == old(out)@ + escape_spec(s@),
{
    let n = s.unicode_len();
    let mut i: usize = 0;
    proof {
        assert(s@.subrange(0, 0) =~= Seq::<char>::empty());
        assert(out@ =~= old(out)@ + escape_spec(s@.subrange(0, 0)));
    }
    while i < n
        invariant
            n == s@.len(),
            i <= n,
            out@ == old(out)@ + escape_spec(s@.subrange(0, i as int)),
        decreases n - i,
    {
        let c = s.get_char(i);
        let ghost before = out@;
        if c == '"' || c == '\\' {
            push_char(out, '\\');
            push_char(out, c);
        } else if (c as u32) < 32 {
            push_char(out, '\\');
            push_char(out, 'u');
            push_char(out, '0');
            push_char(out, '0');
            push_char(out, hex_char((c as u32) / 16));
            push_char(out, hex_char((c as u32) % 16));
        } else {
            push_char(out, c);
        }
        proof {
            let t = s@.subrange(0, i + 1);
            assert(t.drop_last() =~= s@.subrange(0, i as int));
            assert(t.last() == c);
            assert(out@ =~= before + escape_char(c));
        }
        i = i + 1;
    }
    proof {
        assert(s@.subrange(0, n as int) =~= s@);
    }
}

/// One `"name":value` member of the JSON text of a body; `None` for values
/// other than strings and integers.
pub open spec fn json_member(p: GeneratedParameterV) -> Option<Seq<char>> {
    match p.value {
        ValueV::StringValue { value, .. } => Some(seq!['"'] + escape_spec(p.name) + seq!['"', ':', '"'] + escape_spec(value) + seq!['"']),
        ValueV::IntValue { value, .. } => Some(seq!['"'] + escape_spec(p.name) + seq!['"', ':'] + decimal_text(value as int)),
        _ => None,
    }
}

/// The members of the parameters, separated by commas.
pub open spec fn json_members(ps: Seq<GeneratedParameterV>) -> Option<Seq<char>>
    decreases ps.len(),
{
    if ps.len() == 0 {
        Some(Seq::empty())
    } else {
        match (json_members(ps.drop_last()), json_member(ps.last())) {
            (Some(a), Some(b)) => if ps.len() == 1 {
                Some(b)
            } else {
                Some(a.push(',') + b)
            },
            _ => None,
        }
    }
}

proof fn lemma_json_members_none_stays(ps: Seq<GeneratedParameterV>, n: int)
    requires
        0 < n <= ps.len(),
        json_members(ps.subrange(0, n)) is None,
    ensures
        json_members(ps) is None,
    decreases ps.len() - n,
{
    if n < ps.len() {
        let next = ps.subrange(0, n + 1);
        assert(next.drop_last() =~= ps.subrange(0, n));
        lemma_json_members_none_stays(ps, n + 1);
    } else {
        assert(ps.subrange(0, n) =~= ps);
    }
}

/// The JSON text of a body: `{`, the members separated by commas, `}`.
pub fn parameters_to_json_str(params: &[GeneratedParameter]) -> (r: Option<String>)
    ensures
        match r {
            Some(t) => json_members(gen_param_views(params@)) matches Some(m) && t@ == seq!['{'] + m + seq!['}'],
            None => json_members(gen_param_views(params@)) is None,
        },
{
    let mut out = String::new();
    push_char(&mut out, '{');
    let mut i: usize = 0;
    proof {
        assert(gen_param_views(params@.subrange(0, 0)) =~= Seq::<GeneratedParameterV>::empty());
        assert(out@ =~= seq!['{'] + Seq::<char>::empty());
    }
    while i < params.len()
        invariant
            i <= params@.len(),
            json_members(gen_param_views(params@.subrange(0, i as int))) matches Some(m) && out@ == seq!['{'] + m,
        decreases params@.len() - i,
    {
        let p = &params[i];
        proof {
            let t = gen_param_views(params@.subrange(0, i + 1));
            assert(t.drop_last() =~= gen_param_views(params@.subrange(0, i as int)));
            assert(t.last() == p@);
        }
        let ghost sep_before = out@;
        if i > 0 {
            push_char(&mut out, ',');
        }
        let ghost before = out@;
        push_char(&mut out, '"');
        push_escaped(&mut out, p.name.as_str());
        push_char(&mut out, '"');
        push_char(&mut out, ':');
        match &p.value {
            ParameterValue::StringValue { value, .. } => {
                push_char(&mut out, '"');
                push_escaped(&mut out, value.as_str());
                push_char(&mut out, '"');
                proof {
                    assert(out@ =~= before + json_member(p@)->0);
                }
            },
            ParameterValue::IntValue { value, .. } => {
                out.append(decimal(*value).as_str());
                proof {
                    assert(out@ =~= before + json_member(p@)->0);
                }
            },
            _ => {
                proof {
                    assert(json_member(p@) is None);
                    lemma_json_members_none_stays(gen_param_views(params@), i as int + 1);
                    assert(gen_param_views(params@).subrange(0, i + 1) =~= gen_param_views(params@.subrange(0, i + 1)));
                }
                return None;
            },
        }
        proof {
            let m = json_members(gen_param_views(params@.subrange(0, i as int)))->0;
            if i == 0 {
                assert(out@ =~= seq!['{'] + json_member(p@)->0);
            } else {
                assert(out@ =~= seq!['{'] + (m.push(',') + json_member(p@)->0));
            }
        }
        i = i + 1;
    }
    proof {
        assert(params@.subrange(0, params@.len() as int) =~= params@);
    }
    push_char(&mut out, '}');
    proof {
        let m = json_members(gen_param_views(params@))->0;
        assert(out@ =~= seq!['{'] + m + seq!['}']);
    }
    Some(out)
}

/// No generated parameter is a response reference.
pub open spec fn no_response_reference(ps: Seq<GeneratedParameterV>) -> bool {
    forall|i: int| 0 <= i < ps.len() ==> !((#[trigger] ps[i]).value matches ValueV::Reference { relation: RelationV::Response(_), .. })
}

proof fn lemma_fold_ignores_results(aps: Seq<ParameterV>, rs1: Seq<InvokeResultV>, rs2: Seq<InvokeResultV>, url: Seq<char>, ps: Seq<GeneratedParameterV>)
    requires
        no_response_reference(ps),
    ensures
        translate_fold(aps, rs1, url, ps) == translate_fold(aps, rs2, url, ps),
    decreases ps.len(),
{
    if ps.len() > 0 {
        let pre = ps.drop_last();
        assert forall|i: int| 0 <= i < pre.len() implies !((#[trigger] pre[i]).value matches ValueV::Reference { relation: RelationV::Response(_), .. }) by {
            assert(pre[i] == ps[i]);
        }
        lemma_fold_ignores_results(aps, rs1, rs2, url, pre);
        assert(ps.last() == ps[ps.len() - 1]);
    }
}

/// A generated operation with no response reference translates to the same
/// call whatever the earlier results are; operations with equal views
/// translate alike.
pub proof fn lemma_translation_ignores_results(
    config: HTTPConfiguration,
    op: Operation,
    g1: GeneratedOperation,
    g2: GeneratedOperation,
    rs1: Seq<InvokeResultV>,
    rs2: Seq<InvokeResultV>,
)
    requires
        g1@ == g2@,
        no_response_reference(g1@.parameters),
    ensures
        translate_operation_spec(config, g1, op.meta_data, op, rs1) == translate_operation_spec(config, g2, op.meta_data, op, rs2),
{
    assert(gen_param_views(g1.parameters@) == g1@.parameters);
    assert(gen_param_views(g2.parameters@) == g2@.parameters);
    if let Some(OperationMetaData::HTTP { url, .. }) = op.meta_data {
        lemma_fold_ignores_results(param_views(op.parameters@), rs1, rs2, url@, g1@.parameters);
    }
}

} // verus!
