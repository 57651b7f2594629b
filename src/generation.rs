//! Generated parameter values, the operations they are synthesized into, and
//! the step that links a drawn sequence's values to earlier parameters and
//! responses.
use vstd::prelude::*;
use crate::amos::{Operation, OperationV, Parameter, ParameterV, Schema, SchemaV};
use crate::relations::{operations_of, related_parameters, related_spec, Relation, RelationInfoV, RelationV};

verus! {

/// The four octets of an IPv4 address.
#[derive(Debug, Clone, Copy, PartialEq, Eq, Structural)]
pub struct Octets(pub u8, pub u8, pub u8, pub u8);

/// A generated value with the two generator-controlled fields: `seed` (drawn
/// in `[1, 10)`) and `active`. A `Reference` stands for a value taken from
/// an earlier parameter or response; while inactive it behaves as its
/// `fallback`. A double is carried as its canonical decimal text.
#[derive(Debug, PartialEq)]
pub enum ParameterValue {
    StringValue { value: String, seed: i32, active: bool },
    IntValue { value: i64, seed: i32, active: bool },
    BoolValue { value: bool, seed: i32, active: bool },
    DoubleValue { value: String, seed: i32, active: bool },
    IPV4Value { value: Octets, seed: i32, active: bool },
    Reference { active: bool, idx: [usize; 2], fallback: Box<ParameterValue>, relation: Relation },
    ArrayOfString { value: Vec<String>, seed: i32, active: bool },
    File { value: u8, seed: i32, active: bool },
    Empty,
}

/// A parameter value as a mathematical value.
pub enum ValueV {
    StringValue { value: Seq<char>, seed: i32, active: bool },
    IntValue { value: i64, seed: i32, active: bool },
    BoolValue { value: bool, seed: i32, active: bool },
    DoubleValue { value: Seq<char>, seed: i32, active: bool },
    IPV4Value { value: Octets, seed: i32, active: bool },
    Reference { active: bool, idx: (usize, usize), fallback: Box<ValueV>, relation: RelationV },
    ArrayOfString { value: Seq<Seq<char>>, seed: i32, active: bool },
    File { value: u8, seed: i32, active: bool },
    Empty,
}

pub open spec fn value_view(v: ParameterValue) -> ValueV
    decreases v,
{
    match v {
        ParameterValue::StringValue { value, seed, active } => ValueV::StringValue { value: value@, seed, active },
        ParameterValue::IntValue { value, seed, active } => ValueV::IntValue { value, seed, active },
        ParameterValue::BoolValue { value, seed, active } => ValueV::BoolValue { value, seed, active },
        ParameterValue::DoubleValue { value, seed, active } => ValueV::DoubleValue { value: value@, seed, active },
        ParameterValue::IPV4Value { value, seed, active } => ValueV::IPV4Value { value, seed, active },
        ParameterValue::Reference { active, idx, fallback, relation } => ValueV::Reference {
            active,
            idx: (idx@[0], idx@[1]),
            fallback: Box::new(value_view(*fallback)),
            relation: relation@,
        },
        ParameterValue::ArrayOfString { value, seed, active } => ValueV::ArrayOfString {
            value: value@.map_values(|s: String| s@),
            seed,
            active,
        },
        ParameterValue::File { value, seed, active } => ValueV::File { value, seed, active },
        ParameterValue::Empty => ValueV::Empty,
    }
}

impl Clone for ParameterValue {
    fn clone(&self) -> (r: ParameterValue)
        ensures
            r@ == self@,
    {
        self.deep_copy()
    }
}

impl View for ParameterValue {
    type V = ValueV;

    open spec fn view(&self) -> ValueV {
        value_view(*self)
    }
}

/// Whether a value participates in reference resolution.
pub open spec fn active_spec(v: ValueV) -> bool {
    match v {
        ValueV::StringValue { active, .. } => active,
        ValueV::IntValue { active, .. } => active,
        ValueV::BoolValue { active, .. } => active,
        ValueV::DoubleValue { active, .. } => active,
        ValueV::IPV4Value { active, .. } => active,
        ValueV::Reference { active, .. } => active,
        ValueV::ArrayOfString { active, .. } => active,
        ValueV::File { active, .. } => active,
        ValueV::Empty => false,
    }
}

/// Whether a value carries a seed of its own: every variant but `Reference`
/// and `Empty`.
pub open spec fn has_seed(v: ValueV) -> bool {
    !(v is Reference || v is Empty)
}

pub open spec fn seed_spec(v: ValueV) -> i32 {
    match v {
        ValueV::StringValue { seed, .. } => seed,
        ValueV::IntValue { seed, .. } => seed,
        ValueV::BoolValue { seed, .. } => seed,
        ValueV::DoubleValue { seed, .. } => seed,
        ValueV::IPV4Value { seed, .. } => seed,
        ValueV::ArrayOfString { seed, .. } => seed,
        ValueV::File { seed, .. } => seed,
        _ => 0,
    }
}

fn copy_strings(v: &Vec<String>) -> (r: Vec<String>)
    ensures
        r@.map_values(|s: String| s@) == v@.map_values(|s: String| s@),
{
    let mut out: Vec<String> = Vec::new();
    let mut i: usize = 0;
    while i < v.len()
        invariant
            i <= v@.len(),
            out@.map_values(|s: String| s@) == v@.subrange(0, i as int).map_values(|s: String| s@),
        decreases v@.len() - i,
    {
        let ghost prev = out@;
        out.push(v[i].clone());
        proof {
            assert(out@.map_values(|s: String| s@) =~= prev.map_values(|s: String| s@).push(v@[i as int]@));
            assert(v@.subrange(0, i + 1).map_values(|s: String| s@) =~= v@.subrange(0, i as int).map_values(|s: String| s@).push(v@[i as int]@));
        }
        i = i + 1;
    }
    proof {
        assert(v@.subrange(0, v@.len() as int) =~= v@);
    }
    out
}

fn same_strings(a: &Vec<String>, b: &Vec<String>) -> (r: bool)
    ensures
        r == (a@.map_values(|s: String| s@) == b@.map_values(|s: String| s@)),
{
    if a.len() != b.len() {
        proof {
            assert(a@.map_values(|s: String| s@).len() != b@.map_values(|s: String| s@).len());
        }
        return false;
    }
    let mut i: usize = 0;
    while i < a.len()
        invariant
            a@.len() == b@.len(),
            i <= a@.len(),
            forall|k: int| 0 <= k < i ==> a@[k]@ == b@[k]@,
        decreases a@.len() - i,
    {
        if a[i] != b[i] {
            proof {
                assert(a@.map_values(|s: String| s@)[i as int] != b@.map_values(|s: String| s@)[i as int]);
            }
            return false;
        }
        i = i + 1;
    }
    proof {
        assert(a@.map_values(|s: String| s@) =~= b@.map_values(|s: String| s@));
    }
    true
}

impl ParameterValue {
    /// The text of a `StringValue`.
    pub fn as_string_value(&self) -> (r: String)
        requires
            self is StringValue,
        ensures
            r@ == self->StringValue_value@,
    {
        match self {
            ParameterValue::StringValue { value, .. } => value.clone(),
            _ => String::new(),
        }
    }

    /// The integer of an `IntValue`.
    pub fn as_int_value(&self) -> (r: i64)
        requires
            self is IntValue,
        ensures
            r == self->IntValue_value,
    {
        match self {
            ParameterValue::IntValue { value, .. } => *value,
            _ => 0,
        }
    }

    /// The seed of a value that has one.
    pub fn seed(&self) -> (r: i32)
        requires
            has_seed(self@),
        ensures
            r == seed_spec(self@),
    {
        match self {
            ParameterValue::StringValue { seed, .. } => *seed,
            ParameterValue::IntValue { seed, .. } => *seed,
            ParameterValue::BoolValue { seed, .. } => *seed,
            ParameterValue::DoubleValue { seed, .. } => *seed,
            ParameterValue::IPV4Value { seed, .. } => *seed,
            ParameterValue::ArrayOfString { seed, .. } => *seed,
            ParameterValue::File { seed, .. } => *seed,
            _ => 0,
        }
    }

    /// Whether the value participates in reference resolution; `Empty` never does.
    pub fn active(&self) -> (r: bool)
        ensures
            r == active_spec(self@),
    {
        match self {
            ParameterValue::StringValue { active, .. } => *active,
            ParameterValue::IntValue { active, .. } => *active,
            ParameterValue::BoolValue { active, .. } => *active,
            ParameterValue::DoubleValue { active, .. } => *active,
            ParameterValue::Reference { active, .. } => *active,
            ParameterValue::ArrayOfString { active, .. } => *active,
            ParameterValue::IPV4Value { active, .. } => *active,
            ParameterValue::File { active, .. } => *active,
            ParameterValue::Empty => false,
        }
    }

    /// A copy with the same view.
    pub fn deep_copy(&self) -> (r: ParameterValue)
        ensures
            r@ == self@,
        decreases self,
    {
        match self {
            ParameterValue::StringValue { value, seed, active } => ParameterValue::StringValue { value: value.clone(), seed: *seed, active: *active },
            ParameterValue::IntValue { value, seed, active } => ParameterValue::IntValue { value: *value, seed: *seed, active: *active },
            ParameterValue::BoolValue { value, seed, active } => ParameterValue::BoolValue { value: *value, seed: *seed, active: *active },
            ParameterValue::DoubleValue { value, seed, active } => ParameterValue::DoubleValue { value: value.clone(), seed: *seed, active: *active },
            ParameterValue::IPV4Value { value, seed, active } => ParameterValue::IPV4Value { value: *value, seed: *seed, active: *active },
            ParameterValue::Reference { active, idx, fallback, relation } => {
                let f = (**fallback).deep_copy();
                ParameterValue::Reference {
                    active: *active,
                    idx: [idx[0], idx[1]],
                    fallback: Box::new(f),
                    relation: relation.deep_copy(),
                }
            },
            ParameterValue::ArrayOfString { value, seed, active } => ParameterValue::ArrayOfString { value: copy_strings(value), seed: *seed, active: *active },
            ParameterValue::File { value, seed, active } => ParameterValue::File { value: *value, seed: *seed, active: *active },
            ParameterValue::Empty => ParameterValue::Empty,
        }
    }

    /// Structural equality.
    pub fn same_as(&self, o: &ParameterValue) -> (r: bool)
        ensures
            r == (self@ == o@),
        decreases self,
    {
        match (self, o) {
            (ParameterValue::StringValue { value: a, seed: s, active: x }, ParameterValue::StringValue { value: b, seed: t, active: y }) => *a == *b && *s == *t && *x == *y,
            (ParameterValue::IntValue { value: a, seed: s, active: x }, ParameterValue::IntValue { value: b, seed: t, active: y }) => *a == *b && *s == *t && *x == *y,
            (ParameterValue::BoolValue { value: a, seed: s, active: x }, ParameterValue::BoolValue { value: b, seed: t, active: y }) => *a == *b && *s == *t && *x == *y,
            (ParameterValue::DoubleValue { value: a, seed: s, active: x }, ParameterValue::DoubleValue { value: b, seed: t, active: y }) => *a == *b && *s == *t && *x == *y,
            (ParameterValue::IPV4Value { value: a, seed: s, active: x }, ParameterValue::IPV4Value { value: b, seed: t, active: y }) => *a == *b && *s == *t && *x == *y,
            (ParameterValue::Reference { active: x, idx: i, fallback: f, relation: r }, ParameterValue::Reference { active: y, idx: j, fallback: g, relation: q }) => {
                *x == *y && i[0] == j[0] && i[1] == j[1] && (**f).same_as(&**g) && r.same_as(q)
            },
            (ParameterValue::ArrayOfString { value: a, seed: s, active: x }, ParameterValue::ArrayOfString { value: b, seed: t, active: y }) => same_strings(a, b) && *s == *t && *x == *y,
            (ParameterValue::File { value: a, seed: s, active: x }, ParameterValue::File { value: b, seed: t, active: y }) => *a == *b && *s == *t && *x == *y,
            (ParameterValue::Empty, ParameterValue::Empty) => true,
            _ => false,
        }
    }
}

/// One parameter of a synthesized operation.
#[derive(Debug, PartialEq, Clone)]
pub struct GeneratedParameter {
    pub name: String,
    pub value: ParameterValue,
    pub ref_path: Option<String>,
}

/// An operation ready to be translated and invoked.
#[derive(Debug, PartialEq, Clone)]
pub struct GeneratedOperation {
    pub name: String,
    pub parameters: Vec<GeneratedParameter>,
}

pub struct GeneratedParameterV {
    pub name: Seq<char>,
    pub value: ValueV,
    pub ref_path: Option<Seq<char>>,
}

pub struct GeneratedOperationV {
    pub name: Seq<char>,
    pub parameters: Seq<GeneratedParameterV>,
}

pub open spec fn opt_text(o: Option<String>) -> Option<Seq<char>> {
    match o {
        Some(s) => Some(s@),
        None => None,
    }
}

impl View for GeneratedParameter {
    type V = GeneratedParameterV;

    open spec fn view(&self) -> GeneratedParameterV {
        GeneratedParameterV { name: self.name@, value: self.value@, ref_path: opt_text(self.ref_path) }
    }
}

impl View for GeneratedOperation {
    type V = GeneratedOperationV;

    open spec fn view(&self) -> GeneratedOperationV {
        GeneratedOperationV {
            name: self.name@,
            parameters: self.parameters@.map_values(|p: GeneratedParameter| p@),
        }
    }
}

fn copy_opt_text(o: &Option<String>) -> (r: Option<String>)
    ensures
        opt_text(r) == opt_text(*o),
{
    match o {
        Some(s) => Some(s.clone()),
        None => None,
    }
}

fn same_opt_text(a: &Option<String>, b: &Option<String>) -> (r: bool)
    ensures
        r == (opt_text(*a) == opt_text(*b)),
{
    match (a, b) {
        (Some(x), Some(y)) => *x == *y,
        (None, None) => true,
        _ => false,
    }
}

impl GeneratedParameter {
    pub fn deep_copy(&self) -> (r: GeneratedParameter)
        ensures
            r@ == self@,
    {
        GeneratedParameter {
            name: self.name.clone(),
            value: self.value.deep_copy(),
            ref_path: copy_opt_text(&self.ref_path),
        }
    }

    pub fn same_as(&self, o: &GeneratedParameter) -> (r: bool)
        ensures
            r == (self@ == o@),
    {
        self.name == o.name && self.value.same_as(&o.value) && same_opt_text(&self.ref_path, &o.ref_path)
    }
}

impl GeneratedOperation {
    pub fn deep_copy(&self) -> (r: GeneratedOperation)
        ensures
            r@ == self@,
    {
        let mut ps: Vec<GeneratedParameter> = Vec::new();
        let mut i: usize = 0;
        while i < self.parameters.len()
            invariant
                i <= self.parameters@.len(),
                ps@.map_values(|p: GeneratedParameter| p@) == self.parameters@.subrange(0, i as int).map_values(|p: GeneratedParameter| p@),
            decreases self.parameters@.len() - i,
        {
            let ghost prev = ps@;
            ps.push(self.parameters[i].deep_copy());
            proof {
                assert(ps@.map_values(|p: GeneratedParameter| p@) =~= prev.map_values(|p: GeneratedParameter| p@).push(self.parameters@[i as int]@));
                assert(self.parameters@.subrange(0, i + 1).map_values(|p: GeneratedParameter| p@) =~= self.parameters@.subrange(0, i as int).map_values(|p: GeneratedParameter| p@).push(self.parameters@[i as int]@));
            }
            i = i + 1;
        }
        proof {
            assert(self.parameters@.subrange(0, self.parameters@.len() as int) =~= self.parameters@);
        }
        GeneratedOperation { name: self.name.clone(), parameters: ps }
    }

    pub fn same_as(&self, o: &GeneratedOperation) -> (r: bool)
        ensures
            r == (self@ == o@),
    {
        if self.name != o.name {
            return false;
        }
        if self.parameters.len() != o.parameters.len() {
            proof {
                assert(self@.parameters.len() != o@.parameters.len());
            }
            return false;
        }
        let mut i: usize = 0;
        while i < self.parameters.len()
            invariant
                self.parameters@.len() == o.parameters@.len(),
                i <= self.parameters@.len(),
                forall|k: int| 0 <= k < i ==> self.parameters@[k]@ == o.parameters@[k]@,
            decreases self.parameters@.len() - i,
        {
            if !self.parameters[i].same_as(&o.parameters[i]) {
                proof {
                    assert(self@.parameters[i as int] != o@.parameters[i as int]);
                }
                return false;
            }
            i = i + 1;
        }
        proof {
            assert(self@.parameters =~= o@.parameters);
        }
        true
    }
}

/// Whether values of a schema are left undecided (`Empty`): references,
/// objects, `DateTime`, arrays of references, `Number` and unsupported schemas.
pub open spec fn generates_empty(s: SchemaV) -> bool {
    s is Reference || s is Object || s is DateTime || s is ArrayOfUniqueRefItems || s is ArrayOfRefItems
        || s is Number || s is Unsupported
}

/// Whether the generator gives `Empty` for a schema.
pub fn generates_empty_value(schema: &Schema) -> (r: bool)
    ensures
        r == generates_empty(schema@),
{
    matches!(schema, Schema::Reference(_)) || matches!(schema, Schema::Object { .. }) || matches!(schema, Schema::DateTime)
        || matches!(schema, Schema::ArrayOfUniqueRefItems(_)) || matches!(schema, Schema::ArrayOfRefItems(_))
        || matches!(schema, Schema::Number) || matches!(schema, Schema::Unsupported)
}

/// The pattern strings of a string schema are drawn from: `[a-z]*` for a
/// string, `[a-z]+` for a non-empty one, its own for a regex schema.
pub open spec fn string_pattern_spec(s: SchemaV) -> Option<Seq<char>> {
    match s {
        SchemaV::String => Some("[a-z]*"@),
        SchemaV::StringNonEmpty => Some("[a-z]+"@),
        SchemaV::StringRegex(r) => Some(r),
        _ => None,
    }
}

/// The pattern of a string schema, if it is one.
pub fn string_pattern(schema: &Schema) -> (r: Option<String>)
    ensures
        match r {
            Some(t) => string_pattern_spec(schema@) == Some(t@),
            None => string_pattern_spec(schema@) is None,
        },
{
    proof {
        reveal_strlit("[a-z]*");
        reveal_strlit("[a-z]+");
    }
    match schema {
        Schema::String => Some("[a-z]*".to_string()),
        Schema::StringNonEmpty => Some("[a-z]+".to_string()),
        Schema::StringRegex { regex } => Some(regex.clone()),
        _ => None,
    }
}

/// The views of a slot array.
pub open spec fn values_view(v: Seq<ParameterValue>) -> Seq<ValueV> {
    v.map_values(|x: ParameterValue| x@)
}

pub open spec fn info_of(r: RelationV) -> RelationInfoV {
    match r {
        RelationV::Parameter(i) => i,
        RelationV::Response(i) => i,
    }
}

/// Every value that carries a seed has it in `[1, 10]`.
pub open spec fn seeds_in_range(draw: Seq<(Operation, Vec<ParameterValue>)>) -> bool {
    forall|i: int, j: int|
        0 <= i < draw.len() && 0 <= j < draw[i].1@.len() && has_seed(#[trigger] draw[i].1@[j]@)
            ==> 1 <= seed_spec(draw[i].1@[j]@) <= 10
}

/// The value of a slot after linking: an active value with at least one
/// candidate among the earlier operations becomes an active `Reference` to
/// candidate number `seed mod count`, with the value itself as fallback.
pub open spec fn link_value(prefix: Seq<OperationV>, p: ParameterV, v: ValueV) -> ValueV {
    let c = related_spec(prefix, p);
    if active_spec(v) && has_seed(v) && c.len() > 0 {
        let chosen = c[seed_spec(v) as int % c.len() as int];
        ValueV::Reference {
            active: true,
            idx: (info_of(chosen).op_idx, info_of(chosen).idx),
            fallback: Box::new(v),
            relation: chosen,
        }
    } else {
        v
    }
}

/// The slots of one drawn operation after linking against `prefix`; slots
/// past the operation's parameters stay as they are.
pub open spec fn linked_values(prefix: Seq<OperationV>, params: Seq<ParameterV>, vals: Seq<ValueV>) -> Seq<ValueV> {
    Seq::new(
        vals.len(),
        |j: int|
            if j < params.len() {
                link_value(prefix, params[j], vals[j])
            } else {
                vals[j]
            },
    )
}

/// Whether every value of a draw that carries a seed has it in `[1, 10]`.
pub fn check_seeds(draw: &Vec<(Operation, Vec<ParameterValue>)>) -> (r: bool)
    ensures
        r == seeds_in_range(draw@),
{
    let mut i: usize = 0;
    while i < draw.len()
        invariant
            i <= draw@.len(),
            forall|a: int, b: int| 0 <= a < i && 0 <= b < draw@[a].1@.len() && has_seed(#[trigger] draw@[a].1@[b]@)
                ==> 1 <= seed_spec(draw@[a].1@[b]@) <= 10,
        decreases draw@.len() - i,
    {
        let vals = &draw[i].1;
        let mut j: usize = 0;
        while j < vals.len()
            invariant
                i < draw@.len(),
                *vals == draw@[i as int].1,
                j <= vals@.len(),
                forall|a: int, b: int| 0 <= a < i && 0 <= b < draw@[a].1@.len() && has_seed(#[trigger] draw@[a].1@[b]@)
                    ==> 1 <= seed_spec(draw@[a].1@[b]@) <= 10,
                forall|b: int| 0 <= b < j && has_seed(#[trigger] vals@[b]@) ==> 1 <= seed_spec(vals@[b]@) <= 10,
            decreases vals@.len() - j,
        {
            let v = &vals[j];
            if !matches!(v, ParameterValue::Reference { .. }) && !matches!(v, ParameterValue::Empty) {
                let seed = v.seed();
                if seed < 1 || seed > 10 {
                    return false;
                }
            }
            j = j + 1;
        }
        i = i + 1;
    }
    true
}

/// Whether every value of one drawn operation that carries a seed has it in `[1, 10]`.
pub fn check_item_seeds(vals: &Vec<ParameterValue>) -> (r: bool)
    ensures
        r == item_seeds_in_range(vals@),
{
    let mut j: usize = 0;
    while j < vals.len()
        invariant
            j <= vals@.len(),
            forall|b: int| 0 <= b < j && has_seed(#[trigger] vals@[b]@) ==> 1 <= seed_spec(vals@[b]@) <= 10,
        decreases vals@.len() - j,
    {
        let v = &vals[j];
        if !matches!(v, ParameterValue::Reference { .. }) && !matches!(v, ParameterValue::Empty) {
            let seed = v.seed();
            if seed < 1 || seed > 10 {
                proof {
                    assert(has_seed(vals@[j as int]@));
                }
                return false;
            }
        }
        j = j + 1;
    }
    true
}

/// Whether the query operation and every drawn slot carry seeds in `[1, 10]`.
pub fn check_slot_seeds(query: &(Operation, Vec<ParameterValue>), slots: &Vec<GenOperation>) -> (r: bool)
    ensures
        r == (item_seeds_in_range(query.1@) && slots_seeds_in_range(slots@)),
{
    if !check_item_seeds(&query.1) {
        return false;
    }
    let mut i: usize = 0;
    while i < slots.len()
        invariant
            i <= slots@.len(),
            forall|k: int| 0 <= k < i ==> match #[trigger] slots@[k] {
                GenOperation::Generated(item) => item_seeds_in_range(item.1@),
                GenOperation::Empty => true,
            },
        decreases slots@.len() - i,
    {
        if let GenOperation::Generated(item) = &slots[i] {
            if !check_item_seeds(&item.1) {
                return false;
            }
        }
        i = i + 1;
    }
    true
}

/// Every value of one drawn operation that carries a seed has it in `[1, 10]`.
pub open spec fn item_seeds_in_range(vals: Seq<ParameterValue>) -> bool {
    forall|j: int| 0 <= j < vals.len() && has_seed(#[trigger] vals[j]@) ==> 1 <= seed_spec(vals[j]@) <= 10
}

/// Links the values of one drawn operation against the operations placed
/// before it.
pub fn link_operation(prefix: &[(Operation, Vec<ParameterValue>)], item: &(Operation, Vec<ParameterValue>)) -> (r: (Operation, Vec<ParameterValue>))
    requires
        prefix@.len() < usize::MAX,
        item_seeds_in_range(item.1@),
    ensures
        r.0@ == item.0@,
        values_view(r.1@) == linked_values(operations_of(prefix@), item.0@.parameters, values_view(item.1@)),
{
    let op = &item.0;
    let vals = &item.1;
    let ghost target = linked_values(operations_of(prefix@), op@.parameters, values_view(vals@));
    let mut new_vals: Vec<ParameterValue> = Vec::new();
    let mut j: usize = 0;
    while j < vals.len()
        invariant
            prefix@.len() < usize::MAX,
            item_seeds_in_range(vals@),
            target == linked_values(operations_of(prefix@), op@.parameters, values_view(vals@)),
            j <= vals@.len(),
            new_vals@.len() == j,
            forall|k: int| 0 <= k < j ==> (#[trigger] new_vals@[k])@ == target[k],
        decreases vals@.len() - j,
    {
        let v = &vals[j];
        let ghost spec_v = target[j as int];
        if j < op.parameters.len() && v.active() && !matches!(v, ParameterValue::Reference { .. }) && !matches!(v, ParameterValue::Empty) {
            let candidates = related_parameters(prefix, &op.parameters[j]);
            proof {
                assert(crate::relations::relation_views(candidates@).len() == candidates@.len());
            }
            if candidates.len() > 0 {
                let seed = v.seed();
                proof {
                    assert(has_seed(vals@[j as int]@));
                }
                let choice = (seed as usize) % candidates.len();
                let chosen = &candidates[choice];
                let info = chosen.info();
                proof {
                    assert(crate::relations::relation_views(candidates@)[choice as int] == chosen@);
                }
                let linked = ParameterValue::Reference {
                    active: true,
                    idx: [info.op_idx, info.idx],
                    fallback: Box::new(v.deep_copy()),
                    relation: chosen.deep_copy(),
                };
                proof {
                    assert(linked@ == spec_v);
                }
                new_vals.push(linked);
            } else {
                new_vals.push(v.deep_copy());
            }
        } else {
            new_vals.push(v.deep_copy());
        }
        j = j + 1;
    }
    proof {
        assert(values_view(new_vals@) =~= target);
    }
    (op.deep_copy(), new_vals)
}

/// Walks a drawn sequence left to right and rewraps every active value that
/// has a relation to an earlier operation as a `Reference` to it.
pub fn link_sequence_relations(draw: &Vec<(Operation, Vec<ParameterValue>)>) -> (r: Vec<(Operation, Vec<ParameterValue>)>)
    requires
        draw@.len() < usize::MAX,
        seeds_in_range(draw@),
    ensures
        r@.len() == draw@.len(),
        forall|i: int|
            0 <= i < draw@.len() ==> (#[trigger] r@[i]).0@ == draw@[i].0@ && values_view(r@[i].1@)
                == linked_values(
                operations_of(draw@.subrange(0, i)),
                draw@[i].0@.parameters,
                values_view(draw@[i].1@),
            ),
{
    let mut out: Vec<(Operation, Vec<ParameterValue>)> = Vec::new();
    let mut i: usize = 0;
    while i < draw.len()
        invariant
            draw@.len() < usize::MAX,
            seeds_in_range(draw@),
            i <= draw@.len(),
            out@.len() == i,
            forall|k: int|
                0 <= k < i ==> (#[trigger] out@[k]).0@ == draw@[k].0@ && values_view(out@[k].1@)
                    == linked_values(
                    operations_of(draw@.subrange(0, k)),
                    draw@[k].0@.parameters,
                    values_view(draw@[k].1@),
                ),
        decreases draw@.len() - i,
    {
        proof {
            assert(operations_of(out@) =~= operations_of(draw@.subrange(0, i as int)));
            assert forall|j: int| 0 <= j < draw@[i as int].1@.len() && has_seed(#[trigger] draw@[i as int].1@[j]@) implies 1 <= seed_spec(draw@[i as int].1@[j]@) <= 10 by {
                assert(has_seed(draw@[i as int].1@[j]@));
            }
        }
        let linked = link_operation(out.as_slice(), &draw[i]);
        out.push(linked);
        i = i + 1;
    }
    out
}

/// A slot of the bucket-shaped generator: a drawn operation, or nothing.
#[derive(Debug)]
pub enum GenOperation {
    Generated((Operation, Vec<ParameterValue>)),
    Empty,
}

/// Where the query operation may be placed: a precedence and the slack
/// below and above it.
#[derive(Debug, Clone, Copy)]
pub struct QueryOptions {
    pub precedence: u8,
    pub slack_min: u8,
    pub slack_max: u8,
}

/// The range of query positions the bucket-shaped generator draws from.
pub fn query_position_range(options: &QueryOptions) -> (r: (u8, u8))
    requires
        options.precedence + options.slack_max <= 255,
    ensures
        r.0 == (if options.slack_min > options.precedence { 0 } else { options.precedence - options.slack_min }),
        r.1 == options.precedence + options.slack_max,
{
    let lower = if options.slack_min > options.precedence { 0 } else { options.precedence - options.slack_min };
    (lower, options.precedence + options.slack_max)
}

pub type DrawV = (OperationV, Seq<ValueV>);

pub open spec fn item_view(item: (Operation, Vec<ParameterValue>)) -> DrawV {
    (item.0@, values_view(item.1@))
}

/// An item linked against the items placed before it.
pub open spec fn link_item(item: DrawV, placed: Seq<DrawV>) -> DrawV {
    (item.0, linked_values(placed.map_values(|d: DrawV| d.0), item.0.parameters, item.1))
}

/// The generated items, in order, with the query operation placed (and
/// linked) just before item `q`; every item is linked against all that was
/// placed before it.
pub open spec fn placed_spec(query: DrawV, items: Seq<DrawV>, q: int) -> Seq<DrawV>
    decreases items.len(),
{
    if items.len() == 0 {
        Seq::empty()
    } else {
        let prev = placed_spec(query, items.drop_last(), q);
        let with_query = if items.len() - 1 == q {
            prev.push(link_item(query, prev))
        } else {
            prev
        };
        with_query.push(link_item(items.last(), with_query))
    }
}

/// The drawn items of the generated slots, in order.
pub open spec fn generated_items(slots: Seq<GenOperation>) -> Seq<DrawV>
    decreases slots.len(),
{
    if slots.len() == 0 {
        Seq::empty()
    } else {
        match slots.last() {
            GenOperation::Generated(item) => generated_items(slots.drop_last()).push(item_view(item)),
            GenOperation::Empty => generated_items(slots.drop_last()),
        }
    }
}

/// The zero-based query position for a one-based draw `q_pos`, kept inside
/// a sequence of `n` items.
pub open spec fn query_index(q_pos: u8, n: int) -> int {
    let z = if q_pos == 0 { 0 } else { q_pos - 1 };
    if z > 0 && z > n - 1 {
        n - 1
    } else {
        z
    }
}

pub open spec fn draws_view(v: Seq<(Operation, Vec<ParameterValue>)>) -> Seq<DrawV> {
    v.map_values(|d: (Operation, Vec<ParameterValue>)| item_view(d))
}

/// Whether all drawn values of the slots carry seeds in `[1, 10]`.
pub open spec fn slots_seeds_in_range(slots: Seq<GenOperation>) -> bool {
    forall|i: int| 0 <= i < slots.len() ==> match #[trigger] slots[i] {
        GenOperation::Generated(item) => item_seeds_in_range(item.1@),
        GenOperation::Empty => true,
    }
}

/// Assembles a bucket-shaped draw: takes the generated slots in order,
/// places the query operation at the drawn position (one-based, kept inside
/// the sequence) and links every operation against those placed before it.
/// With no slot drawn the query operation stands alone at position 0.
/// Returns the zero-based query position and the sequence.
pub fn place_query_operation(
    q_pos: u8,
    query: &(Operation, Vec<ParameterValue>),
    slots: &Vec<GenOperation>,
) -> (r: (u8, Vec<(Operation, Vec<ParameterValue>)>))
    requires
        item_seeds_in_range(query.1@),
        slots_seeds_in_range(slots@),
        slots@.len() <= 5,
    ensures
        generated_items(slots@).len() == 0 ==> r.0 == 0 && draws_view(r.1@) == seq![item_view(*query)],
        generated_items(slots@).len() > 0 ==> r.0 as int == query_index(q_pos, generated_items(slots@).len() as int)
            && draws_view(r.1@) == placed_spec(item_view(*query), generated_items(slots@), r.0 as int),
{
    let mut items: Vec<&(Operation, Vec<ParameterValue>)> = Vec::new();
    let mut i: usize = 0;
    while i < slots.len()
        invariant
            slots@.len() <= 5,
            slots_seeds_in_range(slots@),
            i <= slots@.len(),
            items@.len() <= i,
            items@.map_values(|d: &(Operation, Vec<ParameterValue>)| item_view(*d)) == generated_items(slots@.subrange(0, i as int)),
            forall|k: int| 0 <= k < items@.len() ==> item_seeds_in_range((#[trigger] items@[k]).1@),
        decreases slots@.len() - i,
    {
        proof {
            let t = slots@.subrange(0, i + 1);
            assert(t.drop_last() =~= slots@.subrange(0, i as int));
            assert(t.last() == slots@[i as int]);
        }
        match &slots[i] {
            GenOperation::Generated(item) => {
                let ghost prev = items@.map_values(|d: &(Operation, Vec<ParameterValue>)| item_view(*d));
                items.push(item);
                proof {
                    assert(items@.map_values(|d: &(Operation, Vec<ParameterValue>)| item_view(*d)) =~= prev.push(item_view(*item)));
                }
            },
            GenOperation::Empty => {},
        }
        i = i + 1;
    }
    proof {
        assert(slots@.subrange(0, slots@.len() as int) =~= slots@);
    }
    let ghost gen = generated_items(slots@);
    let n = items.len();
    if n == 0 {
        let empty: Vec<(Operation, Vec<ParameterValue>)> = Vec::new();
        let alone = link_operation(empty.as_slice(), query);
        proof {
            assert(crate::relations::operations_of(empty@) =~= Seq::<OperationV>::empty());
            assert forall|j: int| 0 <= j < values_view(query.1@).len() implies linked_values(Seq::<OperationV>::empty(), query.0@.parameters, values_view(query.1@))[j] == values_view(query.1@)[j] by {
                if j < query.0@.parameters.len() {
                    assert(related_spec(Seq::<OperationV>::empty(), query.0@.parameters[j]).len() == 0);
                }
            }
            assert(values_view(alone.1@) =~= values_view(query.1@));
            assert(draws_view(seq![alone]) =~= seq![item_view(*query)]);
        }
        let mut out: Vec<(Operation, Vec<ParameterValue>)> = Vec::new();
        out.push(alone);
        proof {
            assert(out@ =~= seq![alone]);
        }
        return (0, out);
    }
    let zero_based: u8 = if q_pos == 0 { 0 } else { q_pos - 1 };
    let q: u8 = if zero_based > 0 && (zero_based as usize) > n - 1 { (n - 1) as u8 } else { zero_based };
    let mut placed: Vec<(Operation, Vec<ParameterValue>)> = Vec::new();
    let mut k: usize = 0;
    proof {
        assert(gen.subrange(0, 0) =~= Seq::<DrawV>::empty());
        assert(draws_view(placed@) =~= Seq::<DrawV>::empty());
    }
    while k < n
        invariant
            n == items@.len(),
            n <= 5,
            gen == items@.map_values(|d: &(Operation, Vec<ParameterValue>)| item_view(*d)),
            item_seeds_in_range(query.1@),
            forall|m: int| 0 <= m < items@.len() ==> item_seeds_in_range((#[trigger] items@[m]).1@),
            k <= n,
            placed@.len() <= 2 * k,
            draws_view(placed@) == placed_spec(item_view(*query), gen.subrange(0, k as int), q as int),
        decreases n - k,
    {
        let ghost before = draws_view(placed@);
        proof {
            let t = gen.subrange(0, k + 1);
            assert(t.drop_last() =~= gen.subrange(0, k as int));
            assert(t.last() == item_view(*items@[k as int]));
        }
        if k == q as usize {
            let lq = link_operation(placed.as_slice(), query);
            proof {
                assert(draws_view(placed@).map_values(|d: DrawV| d.0) =~= crate::relations::operations_of(placed@));
            }
            placed.push(lq);
            proof {
                assert(draws_view(placed@) =~= before.push(link_item(item_view(*query), before)));
            }
        }
        let ghost mid = draws_view(placed@);
        let lo = link_operation(placed.as_slice(), items[k]);
        proof {
            assert(mid.map_values(|d: DrawV| d.0) =~= crate::relations::operations_of(placed@));
        }
        placed.push(lo);
        proof {
            assert(draws_view(placed@) =~= mid.push(link_item(item_view(*items@[k as int]), mid)));
        }
        k = k + 1;
    }
    proof {
        assert(gen.subrange(0, n as int) =~= gen);
    }
    (q, placed)
}

} // verus!
