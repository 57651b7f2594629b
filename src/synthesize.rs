//! Synthesis: a drawn sequence of operations with generated values becomes a
//! list of concrete `GeneratedOperation`s, with parameter references resolved.
use vstd::prelude::*;
use crate::amos::{Operation, OperationV, Parameter, ParameterV};
use crate::generation::{
    seed_spec, GeneratedOperation, GeneratedOperationV, GeneratedParameter,
    GeneratedParameterV, ParameterValue, ValueV,
};
use crate::http::HTTPParameterTarget;
use crate::relations::{Relation, RelationInfo, RelationInfoV, RelationV};
use crate::text::{decimal_text, decimal_usize};

verus! {

/// A drawn operation with one generated value per parameter slot.
pub type GenerationOperationWithParameters = (Operation, Vec<ParameterValue>);

/// The value at a slot of a draw.
pub open spec fn slot(ops: Seq<GenerationOperationWithParameters>, op_idx: int, idx: int) -> ValueV {
    ops[op_idx].1@[idx]@
}

/// A parameter link that points strictly before `bound`, at an existing,
/// non-`Empty` slot.
pub open spec fn link_ok(ops: Seq<GenerationOperationWithParameters>, info: RelationInfoV, bound: int) -> bool {
    info.op_idx < bound && bound <= ops.len() && info.idx < ops[info.op_idx as int].1@.len()
        && !(slot(ops, info.op_idx as int, info.idx as int) is Empty)
}

/// The parameter links of `vals` all satisfy `link_ok` below `bound`.
pub open spec fn links_ok(ops: Seq<GenerationOperationWithParameters>, vals: Seq<ParameterValue>, bound: int) -> bool {
    forall|j: int|
        0 <= j < vals.len() ==> match (#[trigger] vals[j])@ {
            ValueV::Reference { relation: RelationV::Parameter(info), .. } => link_ok(ops, info, bound),
            _ => true,
        }
}

/// Every parameter link of a draw points strictly backward in the sequence,
/// at an existing, non-`Empty` slot.
pub open spec fn draw_well_formed(ops: Seq<GenerationOperationWithParameters>) -> bool {
    forall|i: int| 0 <= i < ops.len() ==> links_ok(ops, #[trigger] ops[i].1@, i)
}

/// Follows parameter links from `info` until a value that is not a parameter
/// link (or a link that does not point backward); returns that value and the
/// link that reached it.
pub open spec fn resolve_chain(ops: Seq<GenerationOperationWithParameters>, info: RelationInfoV) -> (ValueV, RelationInfoV)
    decreases info.op_idx,
{
    let v = slot(ops, info.op_idx as int, info.idx as int);
    match v {
        ValueV::Reference { relation: RelationV::Parameter(next), .. } => {
            if next.op_idx < info.op_idx {
                resolve_chain(ops, next)
            } else {
                (v, info)
            }
        },
        _ => (v, info),
    }
}

pub open spec fn active_ref_text(op: Seq<char>, op_idx: usize, name: Seq<char>) -> Seq<char> {
    "REFERENCE - Active - "@ + op + seq!['['] + decimal_text(op_idx as int) + seq![']', '/'] + name
}

pub open spec fn response_ref_text(op: Seq<char>, op_idx: usize, idx: usize) -> Seq<char> {
    "RSP REFERENCE - Active - "@ + op + seq!['['] + decimal_text(op_idx as int) + seq![']', '/']
        + decimal_text(idx as int)
}

/// Whether a primitive value of `p` is left out of the call: `p` is optional,
/// not a path parameter, and the value's seed is above 5.
pub open spec fn dropped(p: ParameterV, v: ValueV) -> bool {
    !p.required && seed_spec(v) > 5 && p.meta_data != Some(
        crate::amos::ParameterMetaData::HTTP { target: HTTPParameterTarget::Path },
    )
}

/// What synthesis emits for the value `v` of parameter `p`.
pub open spec fn synthesize_parameter(ops: Seq<GenerationOperationWithParameters>, p: ParameterV, v: ValueV) -> Option<GeneratedParameterV> {
    match v {
        ValueV::Empty => None,
        ValueV::Reference { active, fallback, relation, .. } => {
            if !active {
                Some(GeneratedParameterV { name: p.name, value: *fallback, ref_path: None })
            } else {
                match relation {
                    RelationV::Parameter(info) => {
                        let (rv, rinfo) = resolve_chain(ops, info);
                        Some(GeneratedParameterV {
                            name: p.name,
                            value: rv,
                            ref_path: Some(active_ref_text(ops[rinfo.op_idx as int].0@.name, rinfo.op_idx, rinfo.name)),
                        })
                    },
                    RelationV::Response(info) => Some(GeneratedParameterV {
                        name: p.name,
                        value: v,
                        ref_path: Some(response_ref_text(info.operation, info.op_idx, info.idx)),
                    }),
                }
            }
        },
        _ => if dropped(p, v) {
            None
        } else {
            Some(GeneratedParameterV { name: p.name, value: v, ref_path: None })
        },
    }
}

/// The emitted parameters for the first `n` slots, in order.
pub open spec fn synthesize_parameters(ops: Seq<GenerationOperationWithParameters>, params: Seq<ParameterV>, vals: Seq<ValueV>, n: int) -> Seq<GeneratedParameterV>
    decreases n,
{
    if n <= 0 {
        Seq::empty()
    } else {
        let prev = synthesize_parameters(ops, params, vals, n - 1);
        match synthesize_parameter(ops, params[n - 1], vals[n - 1]) {
            Some(g) => prev.push(g),
            None => prev,
        }
    }
}

pub open spec fn min(a: int, b: int) -> int {
    if a < b {
        a
    } else {
        b
    }
}

/// The synthesized form of a drawn operation against the draw `ops`; slots
/// past the operation's parameters are ignored.
pub open spec fn synthesize_spec(ops: Seq<GenerationOperationWithParameters>, op: OperationV, vals: Seq<ValueV>) -> GeneratedOperationV {
    GeneratedOperationV {
        name: op.name,
        parameters: synthesize_parameters(ops, op.parameters, vals, min(op.parameters.len() as int, vals.len() as int)),
    }
}

pub open spec fn synthesize_item(ops: Seq<GenerationOperationWithParameters>, item: GenerationOperationWithParameters) -> GeneratedOperationV {
    synthesize_spec(ops, item.0@, item.1@.map_values(|v: ParameterValue| v@))
}

/// Builds the text of a resolved parameter reference.
fn active_ref_path(op: &String, op_idx: usize, name: &String) -> (r: String)
    ensures
        r@ == active_ref_text(op@, op_idx, name@),
{
    let mut s = "REFERENCE - Active - ".to_string();
    s.append(op.as_str());
    s.append("[");
    let d = decimal_usize(op_idx);
    s.append(d.as_str());
    s.append("]/");
    s.append(name.as_str());
    proof {
        reveal_strlit("[");
        reveal_strlit("]/");
        assert(s@ =~= active_ref_text(op@, op_idx, name@));
    }
    s
}

/// Builds the text of a response reference.
fn response_ref_path(op: &String, op_idx: usize, idx: usize) -> (r: String)
    ensures
        r@ == response_ref_text(op@, op_idx, idx),
{
    let mut s = "RSP REFERENCE - Active - ".to_string();
    s.append(op.as_str());
    s.append("[");
    let d = decimal_usize(op_idx);
    s.append(d.as_str());
    s.append("]/");
    let e = decimal_usize(idx);
    s.append(e.as_str());
    proof {
        reveal_strlit("[");
        reveal_strlit("]/");
        assert(s@ =~= response_ref_text(op@, op_idx, idx));
    }
    s
}

/// Whether every parameter link of a draw points strictly backward, at an
/// existing, non-`Empty` slot.
pub fn check_draw(ops: &[GenerationOperationWithParameters]) -> (r: bool)
    ensures
        r == draw_well_formed(ops@),
{
    let mut i: usize = 0;
    while i < ops.len()
        invariant
            i <= ops@.len(),
            forall|k: int| 0 <= k < i ==> links_ok(ops@, #[trigger] ops@[k].1@, k),
        decreases ops@.len() - i,
    {
        let vals = &ops[i].1;
        let mut j: usize = 0;
        while j < vals.len()
            invariant
                i < ops@.len(),
                *vals == ops@[i as int].1,
                j <= vals@.len(),
                forall|m: int| 0 <= m < j ==> match (#[trigger] vals@[m])@ {
                    ValueV::Reference { relation: RelationV::Parameter(info), .. } => link_ok(ops@, info, i as int),
                    _ => true,
                },
            decreases vals@.len() - j,
        {
            if let ParameterValue::Reference { relation: Relation::Parameter(info), .. } = &vals[j] {
                let ok = info.op_idx < i && info.idx < ops[info.op_idx].1.len()
                    && !matches!(ops[info.op_idx].1[info.idx], ParameterValue::Empty);
                if !ok {
                    proof {
                        assert(!links_ok(ops@, ops@[i as int].1@, i as int));
                    }
                    return false;
                }
            }
            j = j + 1;
        }
        i = i + 1;
    }
    true
}

/// Follows a parameter reference chain to its end.
fn follow_chain(ops: &[GenerationOperationWithParameters], start: &RelationInfo) -> (r: (ParameterValue, RelationInfo))
    requires
        draw_well_formed(ops@),
        link_ok(ops@, start@, ops@.len() as int),
    ensures
        r.0@ == resolve_chain(ops@, start@).0,
        r.1@ == resolve_chain(ops@, start@).1,
        link_ok(ops@, r.1@, ops@.len() as int),
{
    let mut info = start.deep_copy();
    loop
        invariant
            draw_well_formed(ops@),
            link_ok(ops@, info@, ops@.len() as int),
            resolve_chain(ops@, info@) == resolve_chain(ops@, start@),
        decreases info.op_idx,
    {
        let target = &ops[info.op_idx].1[info.idx];
        match target {
            ParameterValue::Reference { relation: Relation::Parameter(next), .. } => {
                if next.op_idx < info.op_idx {
                    proof {
                        let i = info@.op_idx as int;
                        assert(links_ok(ops@, ops@[i].1@, i));
                        assert(match ops@[i].1@[info@.idx as int]@ {
                            ValueV::Reference { relation: RelationV::Parameter(inf), .. } => link_ok(ops@, inf, i),
                            _ => true,
                        });
                    }
                    info = next.deep_copy();
                } else {
                    return (target.deep_copy(), info);
                }
            },
            _ => {
                return (target.deep_copy(), info);
            },
        }
    }
}

/// Turns one drawn operation into the operation to invoke: copies primitive
/// values (dropping optional, non-path ones whose seed is above 5), emits the
/// fallback of an inactive reference, resolves an active parameter reference
/// to the end of its chain, keeps an active response reference for
/// translation, and leaves out `Empty` values.
pub fn synthesize_operation(
    ops: &[GenerationOperationWithParameters],
    generated_op: GenerationOperationWithParameters,
) -> (r: GeneratedOperation)
    requires
        draw_well_formed(ops@),
        links_ok(ops@, generated_op.1@, ops@.len() as int),
    ensures
        r@ == synthesize_item(ops@, generated_op),
{
    let (op, vals) = generated_op;
    let ghost vv = vals@.map_values(|v: ParameterValue| v@);
    let n = if op.parameters.len() < vals.len() { op.parameters.len() } else { vals.len() };
    let mut sparams: Vec<GeneratedParameter> = Vec::new();
    let mut i: usize = 0;
    while i < n
        invariant
            draw_well_formed(ops@),
            links_ok(ops@, vals@, ops@.len() as int),
            vv == vals@.map_values(|v: ParameterValue| v@),
            n == min(op.parameters@.len() as int, vals@.len() as int),
            i <= n,
            sparams@.map_values(|g: GeneratedParameter| g@) == synthesize_parameters(ops@, op@.parameters, vv, i as int),
        decreases n - i,
    {
        let p = &op.parameters[i];
        let v = &vals[i];
        let ghost prev = sparams@;
        let ghost expected = synthesize_parameter(ops@, p@, v@);
        proof {
            assert(op@.parameters[i as int] == p@);
            assert(vv[i as int] == v@);
        }
        match v {
            ParameterValue::Empty => {},
            ParameterValue::Reference { active, fallback, relation, .. } => {
                if !*active {
                    sparams.push(GeneratedParameter { name: p.name.clone(), value: (**fallback).deep_copy(), ref_path: None });
                } else {
                    match relation {
                        Relation::Parameter(info) => {
                            proof {
                                assert(match vals@[i as int]@ {
                                    ValueV::Reference { relation: RelationV::Parameter(inf), .. } => link_ok(ops@, inf, ops@.len() as int),
                                    _ => true,
                                });
                            }
                            let (value, end) = follow_chain(ops, info);
                            let path = active_ref_path(&ops[end.op_idx].0.info.name, end.op_idx, &end.name);
                            sparams.push(GeneratedParameter { name: p.name.clone(), value, ref_path: Some(path) });
                        },
                        Relation::Response(info) => {
                            let path = response_ref_path(&info.operation, info.op_idx, info.idx);
                            sparams.push(GeneratedParameter { name: p.name.clone(), value: v.deep_copy(), ref_path: Some(path) });
                        },
                    }
                }
            },
            _ => {
                let is_path = match p.meta_data {
                    Some(crate::amos::ParameterMetaData::HTTP { target }) => target == HTTPParameterTarget::Path,
                    None => false,
                };
                if !p.required && v.seed() > 5 && !is_path {
                } else {
                    sparams.push(GeneratedParameter { name: p.name.clone(), value: v.deep_copy(), ref_path: None });
                }
            },
        }
        proof {
            assert(sparams@.map_values(|g: GeneratedParameter| g@) =~= match expected {
                Some(g) => prev.map_values(|g: GeneratedParameter| g@).push(g),
                None => prev.map_values(|g: GeneratedParameter| g@),
            });
        }
        i = i + 1;
    }
    GeneratedOperation { name: op.info.name, parameters: sparams }
}

fn copy_item(item: &GenerationOperationWithParameters) -> (r: GenerationOperationWithParameters)
    ensures
        r.0@ == item.0@,
        r.1@.map_values(|v: ParameterValue| v@) == item.1@.map_values(|v: ParameterValue| v@),
        links_ok_views(r.1@) == links_ok_views(item.1@),
{
    let mut vals: Vec<ParameterValue> = Vec::new();
    let mut i: usize = 0;
    while i < item.1.len()
        invariant
            i <= item.1@.len(),
            vals@.len() == i,
            forall|k: int| 0 <= k < i ==> (#[trigger] vals@[k])@ == item.1@[k]@,
        decreases item.1@.len() - i,
    {
        vals.push(item.1[i].deep_copy());
        i = i + 1;
    }
    proof {
        assert(vals@.map_values(|v: ParameterValue| v@) =~= item.1@.map_values(|v: ParameterValue| v@));
    }
    (item.0.deep_copy(), vals)
}

/// The views of a slot array, as the link predicates read them.
pub open spec fn links_ok_views(vals: Seq<ParameterValue>) -> Seq<ValueV> {
    vals.map_values(|v: ParameterValue| v@)
}

proof fn lemma_links_ok_same_views(ops: Seq<GenerationOperationWithParameters>, a: Seq<ParameterValue>, b: Seq<ParameterValue>, bound: int)
    requires
        links_ok_views(a) == links_ok_views(b),
        links_ok(ops, b, bound),
    ensures
        links_ok(ops, a, bound),
{
    assert forall|j: int| 0 <= j < a.len() implies match (#[trigger] a[j])@ {
        ValueV::Reference { relation: RelationV::Parameter(info), .. } => link_ok(ops, info, bound),
        _ => true,
    } by {
        assert(links_ok_views(a).len() == a.len());
        assert(links_ok_views(b).len() == b.len());
        assert(links_ok_views(a)[j] == links_ok_views(b)[j]);
        assert(links_ok_views(a)[j] == a[j]@);
        assert(links_ok_views(b)[j] == b[j]@);
        assert(match (b[j])@ {
            ValueV::Reference { relation: RelationV::Parameter(info), .. } => link_ok(ops, info, bound),
            _ => true,
        });
    }
}

proof fn lemma_item_links(ops: Seq<GenerationOperationWithParameters>, i: int)
    requires
        draw_well_formed(ops),
        0 <= i < ops.len(),
    ensures
        links_ok(ops, ops[i].1@, ops.len() as int),
{
    assert(links_ok(ops, ops[i].1@, i));
}

/// Each drawn operation synthesized against the whole draw, in order.
pub fn synthesize_operations(ops: &[GenerationOperationWithParameters]) -> (r: Vec<GeneratedOperation>)
    requires
        draw_well_formed(ops@),
    ensures
        r@.len() == ops@.len(),
        forall|i: int| 0 <= i < ops@.len() ==> (#[trigger] r@[i])@ == synthesize_item(ops@, ops@[i]),
{
    let mut out: Vec<GeneratedOperation> = Vec::new();
    let mut i: usize = 0;
    while i < ops.len()
        invariant
            draw_well_formed(ops@),
            i <= ops@.len(),
            out@.len() == i,
            forall|k: int| 0 <= k < i ==> (#[trigger] out@[k])@ == synthesize_item(ops@, ops@[k]),
        decreases ops@.len() - i,
    {
        let item = copy_item(&ops[i]);
        proof {
            lemma_item_links(ops@, i as int);
            lemma_links_ok_same_views(ops@, item.1@, ops@[i as int].1@, ops@.len() as int);
        }
        out.push(synthesize_operation(ops, item));
        i = i + 1;
    }
    out
}

/// The sequence for the response-check behaviour: the draw as it stands.
pub fn synthesize_property_operations(_query_precedence: u8, ops: &[GenerationOperationWithParameters]) -> (r: Vec<GeneratedOperation>)
    requires
        draw_well_formed(ops@),
    ensures
        r@.len() == ops@.len(),
        forall|i: int| 0 <= i < ops@.len() ==> (#[trigger] r@[i])@ == synthesize_item(ops@, ops@[i]),
{
    synthesize_operations(ops)
}

/// The sequence for the response-equality behaviour: the first drawn
/// operation, twice.
pub fn synthesize_operations_for_response_equality(_query_precedence: u8, ops: &[GenerationOperationWithParameters]) -> (r: Vec<GeneratedOperation>)
    requires
        draw_well_formed(ops@),
        ops@.len() >= 1,
    ensures
        r@.len() == 2,
        r@[0]@ == synthesize_item(ops@, ops@[0]),
        r@[1]@ == synthesize_item(ops@, ops@[0]),
{
    proof {
        lemma_item_links(ops@, 0);
    }
    let a = copy_item(&ops[0]);
    let b = copy_item(&ops[0]);
    proof {
        lemma_links_ok_same_views(ops@, a.1@, ops@[0].1@, ops@.len() as int);
        lemma_links_ok_same_views(ops@, b.1@, ops@[0].1@, ops@.len() as int);
    }
    let first = synthesize_operation(ops, a);
    let second = synthesize_operation(ops, b);
    vec![first, second]
}

/// The sequence for the response-inequality behaviour: as for equality.
pub fn synthesize_operations_for_response_inequality(query_precedence: u8, ops: &[GenerationOperationWithParameters]) -> (r: Vec<GeneratedOperation>)
    requires
        draw_well_formed(ops@),
        ops@.len() >= 1,
    ensures
        r@.len() == 2,
        r@[0]@ == synthesize_item(ops@, ops@[0]),
        r@[1]@ == synthesize_item(ops@, ops@[0]),
{
    synthesize_operations_for_response_equality(query_precedence, ops)
}

/// The sequence for the state-mutation behaviour: the whole draw, then the
/// query operation (the draw's first item) again.
pub fn synthesize_operations_for_state_mutation(_query_precedence: u8, ops: &[GenerationOperationWithParameters]) -> (r: Vec<GeneratedOperation>)
    requires
        draw_well_formed(ops@),
        ops@.len() >= 1,
    ensures
        r@.len() == ops@.len() + 1,
        forall|i: int| 0 <= i < ops@.len() ==> (#[trigger] r@[i])@ == synthesize_item(ops@, ops@[i]),
        r@[ops@.len() as int]@ == synthesize_item(ops@, ops@[0]),
{
    let mut out = synthesize_operations(ops);
    proof {
        lemma_item_links(ops@, 0);
    }
    let q = copy_item(&ops[0]);
    proof {
        lemma_links_ok_same_views(ops@, q.1@, ops@[0].1@, ops@.len() as int);
    }
    out.push(synthesize_operation(ops, q));
    out
}

/// The shape of a state-identity sequence: the draw up to and including the
/// query position `q`, then each later item followed by the query operation.
pub open spec fn state_identity_spec(ops: Seq<GenerationOperationWithParameters>, q: int) -> Seq<GeneratedOperationV> {
    Seq::new((q + 1) as nat, |k: int| synthesize_item(ops, ops[k])) + Seq::new(
        (2 * (ops.len() - q - 1)) as nat,
        |m: int|
            if m % 2 == 0 {
                synthesize_item(ops, ops[q + 1 + m / 2])
            } else {
                synthesize_item(ops, ops[q])
            },
    )
}

/// The sequence for the state-identity behaviour; empty for an empty draw.
pub fn synthesize_operations_for_state_identity(query_precedence: u8, ops: &[GenerationOperationWithParameters]) -> (r: Vec<GeneratedOperation>)
    requires
        draw_well_formed(ops@),
        ops@.len() == 0 || (query_precedence as int) < ops@.len(),
    ensures
        ops@.len() == 0 ==> r@.len() == 0,
        ops@.len() > 0 ==> r@.map_values(|g: GeneratedOperation| g@) == state_identity_spec(ops@, query_precedence as int),
{
    if ops.len() == 0 {
        return Vec::new();
    }
    let q = query_precedence as usize;
    let mut out: Vec<GeneratedOperation> = Vec::new();
    let mut i: usize = 0;
    while i <= q
        invariant
            draw_well_formed(ops@),
            q < ops@.len(),
            i <= q + 1,
            out@.len() == i,
            forall|k: int| 0 <= k < i ==> (#[trigger] out@[k])@ == synthesize_item(ops@, ops@[k]),
        decreases q + 1 - i,
    {
        let item = copy_item(&ops[i]);
        proof {
            lemma_item_links(ops@, i as int);
            lemma_links_ok_same_views(ops@, item.1@, ops@[i as int].1@, ops@.len() as int);
        }
        out.push(synthesize_operation(ops, item));
        i = i + 1;
    }
    let mut k: usize = q + 1;
    while k < ops.len()
        invariant
            draw_well_formed(ops@),
            q < ops@.len(),
            q + 1 <= k <= ops@.len(),
            out@.len() == q + 1 + 2 * (k - q - 1),
            forall|j: int| 0 <= j <= q ==> (#[trigger] out@[j])@ == synthesize_item(ops@, ops@[j]),
            forall|m: int|
                0 <= m < 2 * (k - q - 1) ==> (#[trigger] out@[q + 1 + m])@ == if m % 2 == 0 {
                    synthesize_item(ops@, ops@[q + 1 + m / 2])
                } else {
                    synthesize_item(ops@, ops@[q as int])
                },
        decreases ops@.len() - k,
    {
        let item = copy_item(&ops[k]);
        let query = copy_item(&ops[q]);
        proof {
            lemma_item_links(ops@, k as int);
            lemma_links_ok_same_views(ops@, item.1@, ops@[k as int].1@, ops@.len() as int);
            lemma_item_links(ops@, q as int);
            lemma_links_ok_same_views(ops@, query.1@, ops@[q as int].1@, ops@.len() as int);
        }
        out.push(synthesize_operation(ops, item));
        out.push(synthesize_operation(ops, query));
        proof {
            let m0 = 2 * (k - q - 1);
            assert(out@[q + 1 + m0]@ == synthesize_item(ops@, ops@[k as int]));
            assert((m0 as int) % 2 == 0 && (m0 as int) / 2 == k - q - 1) by (nonlinear_arith)
                requires m0 == 2 * (k - q - 1);
            assert(((m0 + 1) as int) % 2 == 1) by (nonlinear_arith)
                requires m0 == 2 * (k - q - 1);
        }
        k = k + 1;
    }
    proof {
        let want = state_identity_spec(ops@, q as int);
        let got = out@.map_values(|g: GeneratedOperation| g@);
        assert forall|j: int| 0 <= j < out@.len() implies #[trigger] got[j] == want[j] by {
            if j > q {
                let m = j - q - 1;
                assert(out@[q + 1 + m]@ == want[j]);
            }
        }
        assert(out@.map_values(|g: GeneratedOperation| g@) =~= want);
    }
    out
}

/// An inactive `Reference` synthesizes to its fallback value, under the
/// parameter's name and with no reference path.
pub proof fn lemma_inactive_reference_emits_fallback(
    ops: Seq<GenerationOperationWithParameters>,
    p: ParameterV,
    idx: (usize, usize),
    fallback: ValueV,
    relation: RelationV,
)
    ensures
        synthesize_parameter(
            ops,
            p,
            ValueV::Reference { active: false, idx, fallback: Box::new(fallback), relation },
        ) == Some(GeneratedParameterV { name: p.name, value: fallback, ref_path: None }),
{
}

/// In a well-formed draw, following a parameter link ends, after finitely
/// many steps, at a slot that holds neither `Empty` nor another parameter
/// link, no later in the sequence than where it started.
pub proof fn lemma_chain_resolution_terminates(ops: Seq<GenerationOperationWithParameters>, info: RelationInfoV)
    requires
        draw_well_formed(ops),
        link_ok(ops, info, ops.len() as int),
    ensures
        !(resolve_chain(ops, info).0 is Empty),
        !(resolve_chain(ops, info).0 matches ValueV::Reference { relation: RelationV::Parameter(_), .. }),
        resolve_chain(ops, info).1.op_idx <= info.op_idx,
        link_ok(ops, resolve_chain(ops, info).1, ops.len() as int),
    decreases info.op_idx,
{
    let i = info.op_idx as int;
    let v = slot(ops, i, info.idx as int);
    if let ValueV::Reference { relation: RelationV::Parameter(next), .. } = v {
        assert(links_ok(ops, ops[i].1@, i));
        assert(match ops[i].1@[info.idx as int]@ {
            ValueV::Reference { relation: RelationV::Parameter(inf), .. } => link_ok(ops, inf, i),
            _ => true,
        });
        lemma_chain_resolution_terminates(ops, next);
    }
}

/// No slot holds a reference.
pub open spec fn reference_free(vals: Seq<ValueV>) -> bool {
    forall|i: int| 0 <= i < vals.len() ==> !((#[trigger] vals[i]) is Reference)
}

proof fn lemma_parameters_reference_free(ops: Seq<GenerationOperationWithParameters>, params: Seq<ParameterV>, vals: Seq<ValueV>, n: int)
    requires
        reference_free(vals),
        n <= vals.len(),
    ensures
        forall|i: int| 0 <= i < synthesize_parameters(ops, params, vals, n).len()
            ==> !((#[trigger] synthesize_parameters(ops, params, vals, n)[i]).value is Reference),
    decreases n,
{
    if n > 0 {
        lemma_parameters_reference_free(ops, params, vals, n - 1);
        assert(!(vals[n - 1] is Reference));
    }
}

/// Synthesizing a drawn operation whose slots hold no reference yields
/// parameters that hold no reference either.
pub proof fn lemma_synthesis_of_plain_values(ops: Seq<GenerationOperationWithParameters>, item: GenerationOperationWithParameters)
    requires
        reference_free(item.1@.map_values(|v: ParameterValue| v@)),
    ensures
        forall|i: int| 0 <= i < synthesize_item(ops, item).parameters.len()
            ==> !((#[trigger] synthesize_item(ops, item).parameters[i]).value is Reference),
{
    let vals = item.1@.map_values(|v: ParameterValue| v@);
    lemma_parameters_reference_free(ops, item.0@.parameters, vals, min(item.0@.parameters.len() as int, vals.len() as int));
}

} // verus!
