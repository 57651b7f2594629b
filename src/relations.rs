//! The relation finder: which earlier parameters or responses a parameter
//! may take its value from.
use vstd::prelude::*;
use crate::amos::{Operation, OperationV, Parameter, ParameterV, PropertyV, Schema, SchemaV};
use crate::generation::ParameterValue;
use crate::text::{is_upper, lower_of, lowercase, push_char, str_eq, upper_of};

verus! {

#[derive(PartialEq, Clone, Debug)]
pub struct RelationInfo {
    pub operation: String,
    pub name: String,
    pub schema: Schema,
    pub strength: u8,
    pub op_idx: usize,
    pub idx: usize,
}

/// A link to a parameter or to a response of an earlier operation.
#[derive(PartialEq, Clone, Debug)]
pub enum Relation {
    Parameter(RelationInfo),
    Response(RelationInfo),
}

pub struct RelationInfoV {
    pub operation: Seq<char>,
    pub name: Seq<char>,
    pub schema: SchemaV,
    pub strength: u8,
    pub op_idx: usize,
    pub idx: usize,
}

pub enum RelationV {
    Parameter(RelationInfoV),
    Response(RelationInfoV),
}

impl View for RelationInfo {
    type V = RelationInfoV;

    open spec fn view(&self) -> RelationInfoV {
        RelationInfoV {
            operation: self.operation@,
            name: self.name@,
            schema: self.schema@,
            strength: self.strength,
            op_idx: self.op_idx,
            idx: self.idx,
        }
    }
}

impl View for Relation {
    type V = RelationV;

    open spec fn view(&self) -> RelationV {
        match self {
            Relation::Parameter(i) => RelationV::Parameter(i@),
            Relation::Response(i) => RelationV::Response(i@),
        }
    }
}

impl RelationInfo {
    pub fn deep_copy(&self) -> (r: RelationInfo)
        ensures
            r@ == self@,
    {
        RelationInfo {
            operation: self.operation.clone(),
            name: self.name.clone(),
            schema: self.schema.deep_copy(),
            strength: self.strength,
            op_idx: self.op_idx,
            idx: self.idx,
        }
    }

    pub fn same_as(&self, o: &RelationInfo) -> (r: bool)
        ensures
            r == (self@ == o@),
    {
        self.operation == o.operation && self.name == o.name && self.schema.same_as(&o.schema)
            && self.strength == o.strength && self.op_idx == o.op_idx && self.idx == o.idx
    }
}

impl Relation {
    pub fn deep_copy(&self) -> (r: Relation)
        ensures
            r@ == self@,
    {
        match self {
            Relation::Parameter(i) => Relation::Parameter(i.deep_copy()),
            Relation::Response(i) => Relation::Response(i.deep_copy()),
        }
    }

    pub fn same_as(&self, o: &Relation) -> (r: bool)
        ensures
            r == (self@ == o@),
    {
        match (self, o) {
            (Relation::Parameter(a), Relation::Parameter(b)) => a.same_as(b),
            (Relation::Response(a), Relation::Response(b)) => a.same_as(b),
            _ => false,
        }
    }

    /// The operation and the slot the relation points at.
    pub fn info(&self) -> (r: &RelationInfo)
        ensures
            match self {
                Relation::Parameter(i) => r == i,
                Relation::Response(i) => r == i,
            },
    {
        match self {
            Relation::Parameter(i) => i,
            Relation::Response(i) => i,
        }
    }
}

/// The words of `s`: a new word starts at every upper-case character, so the
/// first word may be empty.
pub open spec fn camel_split_spec(s: Seq<char>) -> Seq<Seq<char>>
    decreases s.len(),
{
    if s.len() == 0 {
        seq![Seq::empty()]
    } else {
        let prev = camel_split_spec(s.drop_last());
        if upper_of(s.last()) {
            prev.push(seq![s.last()])
        } else {
            prev.update(prev.len() - 1, prev.last().push(s.last()))
        }
    }
}

/// Whether `b` holds the word `w`, ignoring case.
pub open spec fn shares_word(w: Seq<char>, b: Seq<Seq<char>>) -> bool {
    exists|j: int| 0 <= j < b.len() && lower_of(#[trigger] b[j]) == lower_of(w)
}

/// The intersection of two word bags: the words of `a`, in order, that `b`
/// also holds, ignoring case.
pub open spec fn word_matches(a: Seq<Seq<char>>, b: Seq<Seq<char>>) -> Seq<Seq<char>>
    decreases a.len(),
{
    if a.len() == 0 {
        Seq::empty()
    } else if shares_word(a.last(), b) {
        word_matches(a.drop_last(), b).push(a.last())
    } else {
        word_matches(a.drop_last(), b)
    }
}

pub open spec fn views_of(v: Seq<String>) -> Seq<Seq<char>> {
    v.map_values(|s: String| s@)
}

/// Splits a name into its camel-case words.
pub fn camel_split(s: &str) -> (r: Vec<String>)
    ensures
        views_of(r@) == camel_split_spec(s@),
{
    let n = s.unicode_len();
    let mut words: Vec<String> = Vec::new();
    let mut part = String::new();
    let mut i: usize = 0;
    while i < n
        invariant
            n == s@.len(),
            i <= n,
            views_of(words@).push(part@) == camel_split_spec(s@.subrange(0, i as int)),
        decreases n - i,
    {
        let c = s.get_char(i);
        proof {
            let t = s@.subrange(0, i as int + 1);
            assert(t.drop_last() =~= s@.subrange(0, i as int));
            assert(t.last() == c);
        }
        let ghost before = views_of(words@).push(part@);
        if is_upper(c) {
            let done = part;
            words.push(done);
            part = String::new();
            push_char(&mut part, c);
            proof {
                assert(views_of(words@).push(part@) =~= before.push(seq![c]));
            }
        } else {
            push_char(&mut part, c);
            proof {
                assert(views_of(words@).push(part@) =~= before.update(before.len() - 1, before.last().push(c)));
            }
        }
        i = i + 1;
    }
    words.push(part);
    proof {
        assert(s@.subrange(0, n as int) =~= s@);
        assert(views_of(words@) =~= camel_split_spec(s@));
    }
    words
}

/// The words of `a` that `b` also holds, ignoring case.
pub fn word_contains(a: &Vec<String>, b: &Vec<String>) -> (r: Vec<String>)
    ensures
        views_of(r@) == word_matches(views_of(a@), views_of(b@)),
{
    let ghost bv = views_of(b@);
    let mut matches: Vec<String> = Vec::new();
    let mut i: usize = 0;
    while i < a.len()
        invariant
            bv == views_of(b@),
            i <= a@.len(),
            views_of(matches@) == word_matches(views_of(a@.subrange(0, i as int)), bv),
        decreases a@.len() - i,
    {
        let aw = lowercase(a[i].as_str());
        let mut found = false;
        let mut j: usize = 0;
        while j < b.len()
            invariant
                bv == views_of(b@),
                i < a@.len(),
                aw@ == lower_of(a@[i as int]@),
                j <= b@.len(),
                found == exists|k: int| 0 <= k < j && lower_of(#[trigger] bv[k]) == lower_of(a@[i as int]@),
            decreases b@.len() - j,
        {
            let bw = lowercase(b[j].as_str());
            proof {
                assert(bv[j as int] == b@[j as int]@);
            }
            if str_eq(bw.as_str(), aw.as_str()) {
                found = true;
            }
            j = j + 1;
        }
        let ghost prev = views_of(matches@);
        proof {
            let t = views_of(a@.subrange(0, i + 1));
            assert(t.drop_last() =~= views_of(a@.subrange(0, i as int)));
            assert(t.last() == a@[i as int]@);
            assert(found == shares_word(a@[i as int]@, bv));
        }
        if found {
            matches.push(a[i].clone());
            proof {
                assert(views_of(matches@) =~= prev.push(a@[i as int]@));
            }
        }
        i = i + 1;
    }
    proof {
        assert(a@.subrange(0, a@.len() as int) =~= a@);
    }
    matches
}

/// A word count as a relation strength, saturating at `u8::MAX`.
pub open spec fn strength_of(n: int) -> u8 {
    if n > 255 {
        255
    } else {
        n as u8
    }
}

fn strength(n: usize) -> (r: u8)
    ensures
        r == strength_of(n as int),
{
    if n > 255 {
        255
    } else {
        n as u8
    }
}

/// The parameter candidates that the first `ps.len()` parameters of `o`
/// (at position `op_idx` of the sequence) offer to `param`: same schema, and
/// the same name or a camel-case word in common.
pub open spec fn parameter_candidates(o: OperationV, op_idx: int, param: ParameterV, ps: Seq<ParameterV>) -> Seq<RelationV>
    decreases ps.len(),
{
    if ps.len() == 0 {
        Seq::empty()
    } else {
        let prev = parameter_candidates(o, op_idx, param, ps.drop_last());
        let p = ps.last();
        let info = |strength: u8|
            RelationInfoV {
                operation: o.name,
                name: p.name,
                schema: p.schema,
                strength,
                op_idx: op_idx as usize,
                idx: (ps.len() - 1) as usize,
            };
        if p.schema != param.schema {
            prev
        } else if p.name == param.name {
            prev.push(RelationV::Parameter(info(strength_of(camel_split_spec(param.name).len() as int))))
        } else {
            let m = word_matches(camel_split_spec(param.name), camel_split_spec(p.name));
            if m.len() > 0 {
                prev.push(RelationV::Parameter(info(strength_of(m.len() as int))))
            } else {
                prev
            }
        }
    }
}

/// The response candidates that the first `rs.len()` responses of `o` offer
/// to `param`: the operation's name shares a camel-case word with the
/// parameter's, and the response is an array of strings for a string
/// parameter.
pub open spec fn response_candidates(o: OperationV, op_idx: int, param: ParameterV, rs: Seq<PropertyV>) -> Seq<RelationV>
    decreases rs.len(),
{
    if rs.len() == 0 {
        Seq::empty()
    } else {
        let prev = response_candidates(o, op_idx, param, rs.drop_last());
        let r = rs.last();
        let m = word_matches(camel_split_spec(param.name), camel_split_spec(o.name));
        if m.len() > 0 && r.schema is ArrayOfString && param.schema is String {
            prev.push(RelationV::Response(RelationInfoV {
                operation: o.name,
                name: r.name,
                schema: r.schema,
                strength: strength_of(m.len() as int),
                op_idx: op_idx as usize,
                idx: (rs.len() - 1) as usize,
            }))
        } else {
            prev
        }
    }
}

/// All candidates for `param` among `ops`, operation by operation: its
/// parameter candidates, then its response candidates.
pub open spec fn related_spec(ops: Seq<OperationV>, param: ParameterV) -> Seq<RelationV>
    decreases ops.len(),
{
    if ops.len() == 0 {
        Seq::empty()
    } else {
        let o = ops.last();
        let i = ops.len() - 1;
        related_spec(ops.drop_last(), param) + parameter_candidates(o, i, param, o.parameters)
            + response_candidates(o, i, param, o.responses)
    }
}

pub open spec fn operations_of(ops: Seq<(Operation, Vec<ParameterValue>)>) -> Seq<OperationV> {
    ops.map_values(|x: (Operation, Vec<ParameterValue>)| x.0@)
}

pub open spec fn relation_views(v: Seq<Relation>) -> Seq<RelationV> {
    v.map_values(|r: Relation| r@)
}

/// The relation candidates for `param` among the already placed operations.
pub fn related_parameters(operations: &[(Operation, Vec<ParameterValue>)], param: &Parameter) -> (r: Vec<Relation>)
    requires
        operations@.len() < usize::MAX,
    ensures
        relation_views(r@) == related_spec(operations_of(operations@), param@),
{
    let mut out: Vec<Relation> = Vec::new();
    let camel_param = camel_split(param.name.as_str());
    let mut op_idx: usize = 0;
    while op_idx < operations.len()
        invariant
            operations@.len() < usize::MAX,
            op_idx <= operations@.len(),
            views_of(camel_param@) == camel_split_spec(param.name@),
            relation_views(out@) == related_spec(operations_of(operations@.subrange(0, op_idx as int)), param@),
        decreases operations@.len() - op_idx,
    {
        let o = &operations[op_idx].0;
        let ghost ov = o@;
        let ghost base = relation_views(out@);
        let camel_operation = camel_split(o.info.name.as_str());
        let mut k: usize = 0;
        while k < o.parameters.len()
            invariant
                ov == o@,
                op_idx < operations@.len(),
                views_of(camel_param@) == camel_split_spec(param.name@),
                k <= o.parameters@.len(),
                relation_views(out@) == base + parameter_candidates(ov, op_idx as int, param@, ov.parameters.subrange(0, k as int)),
            decreases o.parameters@.len() - k,
        {
            let p = &o.parameters[k];
            let ghost prev = relation_views(out@);
            proof {
                let t = ov.parameters.subrange(0, k + 1);
                assert(t.drop_last() =~= ov.parameters.subrange(0, k as int));
                assert(t.last() == p@);
            }
            if p.schema.same_as(&param.schema) {
                if p.name == param.name {
                    out.push(Relation::Parameter(RelationInfo {
                        operation: o.info.name.clone(),
                        name: p.name.clone(),
                        schema: p.schema.deep_copy(),
                        strength: strength(camel_param.len()),
                        op_idx,
                        idx: k,
                    }));
                    proof {
                        assert(relation_views(out@) =~= prev.push(out@.last()@));
                    }
                } else {
                    let camel_op_param = camel_split(p.name.as_str());
                    let matches = word_contains(&camel_param, &camel_op_param);
                    proof {
                        assert(views_of(matches@).len() == matches@.len());
                    }
                    if matches.len() > 0 {
                        out.push(Relation::Parameter(RelationInfo {
                            operation: o.info.name.clone(),
                            name: p.name.clone(),
                            schema: p.schema.deep_copy(),
                            strength: strength(matches.len()),
                            op_idx,
                            idx: k,
                        }));
                        proof {
                            assert(relation_views(out@) =~= prev.push(out@.last()@));
                        }
                    }
                }
            }
            k = k + 1;
        }
        proof {
            assert(ov.parameters.subrange(0, ov.parameters.len() as int) =~= ov.parameters);
        }
        let ghost mid = relation_views(out@);
        let op_matches = word_contains(&camel_param, &camel_operation);
        proof {
            assert(views_of(op_matches@).len() == op_matches@.len());
        }
        let param_is_string = matches!(param.schema, Schema::String);
        let mut k: usize = 0;
        while k < o.responses.len()
            invariant
                ov == o@,
                op_idx < operations@.len(),
                views_of(op_matches@) == word_matches(camel_split_spec(param.name@), camel_split_spec(ov.name)),
                param_is_string == (param@.schema is String),
                k <= o.responses@.len(),
                relation_views(out@) == mid + response_candidates(ov, op_idx as int, param@, ov.responses.subrange(0, k as int)),
            decreases o.responses@.len() - k,
        {
            let r = &o.responses[k];
            let ghost prev = relation_views(out@);
            proof {
                let t = ov.responses.subrange(0, k + 1);
                assert(t.drop_last() =~= ov.responses.subrange(0, k as int));
                assert(t.last() == r@);
            }
            if op_matches.len() > 0 && matches!(r.schema, Schema::ArrayOfString) && param_is_string {
                out.push(Relation::Response(RelationInfo {
                    operation: o.info.name.clone(),
                    name: r.name.clone(),
                    schema: r.schema.deep_copy(),
                    strength: strength(op_matches.len()),
                    op_idx,
                    idx: k,
                }));
                proof {
                    assert(relation_views(out@) =~= prev.push(out@.last()@));
                }
            }
            k = k + 1;
        }
        proof {
            assert(ov.responses.subrange(0, ov.responses.len() as int) =~= ov.responses);
            let t = operations_of(operations@.subrange(0, op_idx + 1));
            assert(t.drop_last() =~= operations_of(operations@.subrange(0, op_idx as int)));
            assert(t.last() == ov);
        }
        op_idx = op_idx + 1;
    }
    proof {
        assert(operations@.subrange(0, operations@.len() as int) =~= operations@);
    }
    out
}

} // verus!
