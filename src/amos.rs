//! The abstract model of operations (AMOS): schemas, parameters, responses,
//! operations and definitions, with lookup and one-level reference resolution.
use vstd::prelude::*;
use crate::generation::{GeneratedOperation, GeneratedOperationV};
use crate::http::{HTTPMethod, HTTPParameterTarget, HTTPStatus};
use crate::text::{last_segment, last_segment_spec, str_eq};

verus! {

#[derive(PartialEq, Debug, Clone)]
pub enum ResultMetaData {
    HTTP { url: String, status: HTTPStatus },
}

/// The outcome of invoking one generated operation.
#[derive(PartialEq, Debug, Clone)]
pub struct InvokeResult {
    pub operation: GeneratedOperation,
    pub result: String,
    pub success: bool,
    pub meta_data: Option<ResultMetaData>,
}

pub struct InvokeResultV {
    pub operation: GeneratedOperationV,
    pub result: Seq<char>,
    pub success: bool,
    pub meta_data: Option<(Seq<char>, HTTPStatus)>,
}

pub open spec fn result_meta_view(m: Option<ResultMetaData>) -> Option<(Seq<char>, HTTPStatus)> {
    match m {
        Some(ResultMetaData::HTTP { url, status }) => Some((url@, status)),
        None => None,
    }
}

impl View for InvokeResult {
    type V = InvokeResultV;

    open spec fn view(&self) -> InvokeResultV {
        InvokeResultV {
            operation: self.operation@,
            result: self.result@,
            success: self.success,
            meta_data: result_meta_view(self.meta_data),
        }
    }
}

impl InvokeResult {
    pub fn new(
        operation: GeneratedOperation,
        result: String,
        success: bool,
        meta_data: Option<ResultMetaData>,
    ) -> (r: Self)
        ensures
            r.operation == operation,
            r.result == result,
            r.success == success,
            r.meta_data == meta_data,
    {
        InvokeResult { operation, result, success, meta_data }
    }

    /// A copy with the same view.
    pub fn deep_copy(&self) -> (r: InvokeResult)
        ensures
            r@ == self@,
    {
        let meta_data = match &self.meta_data {
            Some(ResultMetaData::HTTP { url, status }) => Some(ResultMetaData::HTTP { url: url.clone(), status: *status }),
            None => None,
        };
        InvokeResult {
            operation: self.operation.deep_copy(),
            result: self.result.clone(),
            success: self.success,
            meta_data,
        }
    }

    /// Structural equality: same operation, payload, success flag, URL and status.
    pub fn same_as(&self, o: &InvokeResult) -> (r: bool)
        ensures
            r == (self@ == o@),
    {
        let meta_same = match (&self.meta_data, &o.meta_data) {
            (Some(ResultMetaData::HTTP { url: a, status: s }), Some(ResultMetaData::HTTP { url: b, status: t })) => *a == *b && *s == *t,
            (None, None) => true,
            _ => false,
        };
        self.operation.same_as(&o.operation) && self.result == o.result && self.success == o.success && meta_same
    }
}

/// The type of a value.
#[derive(Debug, PartialEq)]
pub enum Schema {
    Reference(String),
    Object { properties: Vec<Property> },
    ArrayOfUniqueRefItems(String),
    ArrayOfString,
    ArrayOfRefItems(String),
    DateTime,
    IPV4,
    String,
    StringNonEmpty,
    StringDateTime,
    StringRegex { regex: String },
    Number,
    Double,
    Float,
    Int,
    Int8,
    Int32,
    Bool,
    File,
    Unsupported,
}

#[derive(Debug, PartialEq, Clone)]
pub struct Property {
    pub name: String,
    pub schema: Schema,
}

/// A schema as a mathematical value.
pub enum SchemaV {
    Reference(Seq<char>),
    Object(Seq<PropertyV>),
    ArrayOfUniqueRefItems(Seq<char>),
    ArrayOfString,
    ArrayOfRefItems(Seq<char>),
    DateTime,
    IPV4,
    String,
    StringNonEmpty,
    StringDateTime,
    StringRegex(Seq<char>),
    Number,
    Double,
    Float,
    Int,
    Int8,
    Int32,
    Bool,
    File,
    Unsupported,
}

pub struct PropertyV {
    pub name: Seq<char>,
    pub schema: SchemaV,
}

pub open spec fn schema_view(s: Schema) -> SchemaV
    decreases s, 0nat,
{
    match s {
        Schema::Reference(r) => SchemaV::Reference(r@),
        Schema::Object { properties } => SchemaV::Object(properties_view(properties, properties@.len())),
        Schema::ArrayOfUniqueRefItems(r) => SchemaV::ArrayOfUniqueRefItems(r@),
        Schema::ArrayOfString => SchemaV::ArrayOfString,
        Schema::ArrayOfRefItems(r) => SchemaV::ArrayOfRefItems(r@),
        Schema::DateTime => SchemaV::DateTime,
        Schema::IPV4 => SchemaV::IPV4,
        Schema::String => SchemaV::String,
        Schema::StringNonEmpty => SchemaV::StringNonEmpty,
        Schema::StringDateTime => SchemaV::StringDateTime,
        Schema::StringRegex { regex } => SchemaV::StringRegex(regex@),
        Schema::Number => SchemaV::Number,
        Schema::Double => SchemaV::Double,
        Schema::Float => SchemaV::Float,
        Schema::Int => SchemaV::Int,
        Schema::Int8 => SchemaV::Int8,
        Schema::Int32 => SchemaV::Int32,
        Schema::Bool => SchemaV::Bool,
        Schema::File => SchemaV::File,
        Schema::Unsupported => SchemaV::Unsupported,
    }
}

/// The views of the first `n` properties.
pub open spec fn properties_view(ps: Vec<Property>, n: nat) -> Seq<PropertyV>
    decreases ps, n,
{
    if n == 0 || n > ps@.len() {
        Seq::empty()
    } else {
        proof {
            vstd::std_specs::vec::axiom_vec_index_decreases(ps, n - 1);
        }
        properties_view(ps, (n - 1) as nat).push(
            PropertyV { name: ps@[n - 1].name@, schema: schema_view(ps@[n - 1].schema) },
        )
    }
}

pub proof fn lemma_properties_view_len(ps: Vec<Property>, n: nat)
    requires
        n <= ps@.len(),
    ensures
        properties_view(ps, n).len() == n,
        forall|k: int| 0 <= k < n ==> (#[trigger] properties_view(ps, n)[k]) == (PropertyV {
            name: ps@[k].name@,
            schema: schema_view(ps@[k].schema),
        }),
    decreases n,
{
    if n > 0 {
        lemma_properties_view_len(ps, (n - 1) as nat);
    }
}

impl Clone for Schema {
    fn clone(&self) -> (r: Schema)
        ensures
            r@ == self@,
    {
        self.deep_copy()
    }
}

impl View for Schema {
    type V = SchemaV;

    open spec fn view(&self) -> SchemaV {
        schema_view(*self)
    }
}

impl View for Property {
    type V = PropertyV;

    open spec fn view(&self) -> PropertyV {
        PropertyV { name: self.name@, schema: schema_view(self.schema) }
    }
}

/// Whether a schema is a `Reference`.
pub open spec fn is_reference(s: SchemaV) -> bool {
    s is Reference
}

impl Schema {
    /// A copy with the same view.
    pub fn deep_copy(&self) -> (r: Schema)
        ensures
            r@ == self@,
        decreases self,
    {
        match self {
            Schema::Reference(r) => Schema::Reference(r.clone()),
            Schema::Object { properties } => {
                let mut v: Vec<Property> = Vec::new();
                let mut i: usize = 0;
                while i < properties.len()
                    invariant
                        *self is Object,
                        self->properties == *properties,
                        i <= properties@.len(),
                        v@.len() == i,
                        forall|j: int| 0 <= j < i ==> (#[trigger] v@[j])@ == properties@[j]@,
                    decreases properties@.len() - i,
                {
                    proof {
                        vstd::std_specs::vec::axiom_vec_index_decreases(*properties, i as int);
                    }
                    let c = properties[i].schema.deep_copy();
                    v.push(Property { name: properties[i].name.clone(), schema: c });
                    i = i + 1;
                }
                let r = Schema::Object { properties: v };
                proof {
                    lemma_properties_view_len(v, v@.len());
                    lemma_properties_view_len(*properties, properties@.len());
                    assert(properties_view(v, v@.len()) =~= properties_view(*properties, properties@.len()));
                }
                r
            },
            Schema::ArrayOfUniqueRefItems(r) => Schema::ArrayOfUniqueRefItems(r.clone()),
            Schema::ArrayOfString => Schema::ArrayOfString,
            Schema::ArrayOfRefItems(r) => Schema::ArrayOfRefItems(r.clone()),
            Schema::DateTime => Schema::DateTime,
            Schema::IPV4 => Schema::IPV4,
            Schema::String => Schema::String,
            Schema::StringNonEmpty => Schema::StringNonEmpty,
            Schema::StringDateTime => Schema::StringDateTime,
            Schema::StringRegex { regex } => Schema::StringRegex { regex: regex.clone() },
            Schema::Number => Schema::Number,
            Schema::Double => Schema::Double,
            Schema::Float => Schema::Float,
            Schema::Int => Schema::Int,
            Schema::Int8 => Schema::Int8,
            Schema::Int32 => Schema::Int32,
            Schema::Bool => Schema::Bool,
            Schema::File => Schema::File,
            Schema::Unsupported => Schema::Unsupported,
        }
    }

    /// Structural equality.
    pub fn same_as(&self, other: &Schema) -> (r: bool)
        ensures
            r == (self@ == other@),
        decreases self,
    {
        match (self, other) {
            (Schema::Reference(a), Schema::Reference(b)) => *a == *b,
            (Schema::Object { properties: a }, Schema::Object { properties: b }) => {
                proof {
                    lemma_properties_view_len(*a, a@.len());
                    lemma_properties_view_len(*b, b@.len());
                }
                if a.len() != b.len() {
                    proof {
                        assert(properties_view(*a, a@.len()).len() != properties_view(*b, b@.len()).len());
                    }
                    return false;
                }
                let mut i: usize = 0;
                while i < a.len()
                    invariant
                        *self is Object,
                        self->properties == *a,
                        *other is Object,
                        other->properties == *b,
                        a@.len() == b@.len(),
                        i <= a@.len(),
                        forall|j: int| 0 <= j < i ==> (#[trigger] a@[j])@ == b@[j]@,
                    decreases a@.len() - i,
                {
                    proof {
                        vstd::std_specs::vec::axiom_vec_index_decreases(*a, i as int);
                    }
                    if a[i].name != b[i].name || !a[i].schema.same_as(&b[i].schema) {
                        proof {
                            lemma_properties_view_len(*a, a@.len());
                            lemma_properties_view_len(*b, b@.len());
                            assert(properties_view(*a, a@.len())[i as int] != properties_view(*b, b@.len())[i as int]);
                        }
                        return false;
                    }
                    i = i + 1;
                }
                proof {
                    lemma_properties_view_len(*a, a@.len());
                    lemma_properties_view_len(*b, b@.len());
                    assert(properties_view(*a, a@.len()) =~= properties_view(*b, b@.len()));
                }
                true
            },
            (Schema::ArrayOfUniqueRefItems(a), Schema::ArrayOfUniqueRefItems(b)) => *a == *b,
            (Schema::ArrayOfString, Schema::ArrayOfString) => true,
            (Schema::ArrayOfRefItems(a), Schema::ArrayOfRefItems(b)) => *a == *b,
            (Schema::DateTime, Schema::DateTime) => true,
            (Schema::IPV4, Schema::IPV4) => true,
            (Schema::String, Schema::String) => true,
            (Schema::StringNonEmpty, Schema::StringNonEmpty) => true,
            (Schema::StringDateTime, Schema::StringDateTime) => true,
            (Schema::StringRegex { regex: a }, Schema::StringRegex { regex: b }) => *a == *b,
            (Schema::Number, Schema::Number) => true,
            (Schema::Double, Schema::Double) => true,
            (Schema::Float, Schema::Float) => true,
            (Schema::Int, Schema::Int) => true,
            (Schema::Int8, Schema::Int8) => true,
            (Schema::Int32, Schema::Int32) => true,
            (Schema::Bool, Schema::Bool) => true,
            (Schema::File, Schema::File) => true,
            (Schema::Unsupported, Schema::Unsupported) => true,
            _ => false,
        }
    }
}

#[derive(Debug, PartialEq, Clone, Copy)]
pub enum ParameterMetaData {
    HTTP { target: HTTPParameterTarget },
}

/// Whether the engine invents a value (`Owned`), reuses one produced earlier
/// (`Dependency`), or does not know (`Unknown`).
#[derive(Debug, PartialEq, Clone, Copy)]
pub enum ParameterOwnership {
    Owned,
    Dependency,
    Unknown,
}

#[derive(Debug, PartialEq, Clone)]
pub struct Parameter {
    pub name: String,
    pub schema: Schema,
    pub required: bool,
    pub ownership: ParameterOwnership,
    pub meta_data: Option<ParameterMetaData>,
}

pub struct ParameterV {
    pub name: Seq<char>,
    pub schema: SchemaV,
    pub required: bool,
    pub ownership: ParameterOwnership,
    pub meta_data: Option<ParameterMetaData>,
}

impl View for Parameter {
    type V = ParameterV;

    open spec fn view(&self) -> ParameterV {
        ParameterV {
            name: self.name@,
            schema: self.schema@,
            required: self.required,
            ownership: self.ownership,
            meta_data: self.meta_data,
        }
    }
}

impl Parameter {
    /// A copy with the same view.
    pub fn deep_copy(&self) -> (r: Parameter)
        ensures
            r@ == self@,
    {
        Parameter {
            name: self.name.clone(),
            schema: self.schema.deep_copy(),
            required: self.required,
            ownership: self.ownership,
            meta_data: self.meta_data,
        }
    }

    /// Where the parameter travels, if it says.
    pub open spec fn target(self) -> Option<HTTPParameterTarget> {
        match self.meta_data {
            Some(ParameterMetaData::HTTP { target }) => Some(target),
            None => None,
        }
    }
}

#[derive(Debug, PartialEq, Clone)]
pub struct Response {
    pub name: String,
    pub schema: Schema,
}

impl View for Response {
    type V = PropertyV;

    open spec fn view(&self) -> PropertyV {
        PropertyV { name: self.name@, schema: self.schema@ }
    }
}

impl Response {
    pub fn deep_copy(&self) -> (r: Response)
        ensures
            r@ == self@,
    {
        Response { name: self.name.clone(), schema: self.schema.deep_copy() }
    }
}

#[derive(Debug, PartialEq, Clone)]
pub struct OperationInfo {
    pub name: String,
    pub key: String,
}

#[derive(Debug, PartialEq, Clone)]
pub enum OperationMetaData {
    HTTP { url: String, method: HTTPMethod },
}

#[derive(Debug, PartialEq, Clone)]
pub struct Operation {
    pub info: OperationInfo,
    pub parameters: Vec<Parameter>,
    pub responses: Vec<Response>,
    pub meta_data: Option<OperationMetaData>,
}

pub struct OperationV {
    pub name: Seq<char>,
    pub key: Seq<char>,
    pub parameters: Seq<ParameterV>,
    pub responses: Seq<PropertyV>,
    pub meta_data: Option<(Seq<char>, HTTPMethod)>,
}

pub open spec fn meta_view(m: Option<OperationMetaData>) -> Option<(Seq<char>, HTTPMethod)> {
    match m {
        Some(OperationMetaData::HTTP { url, method }) => Some((url@, method)),
        None => None,
    }
}

impl View for Operation {
    type V = OperationV;

    open spec fn view(&self) -> OperationV {
        OperationV {
            name: self.info.name@,
            key: self.info.key@,
            parameters: self.parameters@.map_values(|p: Parameter| p@),
            responses: self.responses@.map_values(|r: Response| r@),
            meta_data: meta_view(self.meta_data),
        }
    }
}

/// A copy of each parameter.
pub fn copy_parameters(ps: &Vec<Parameter>) -> (r: Vec<Parameter>)
    ensures
        r@.map_values(|p: Parameter| p@) == ps@.map_values(|p: Parameter| p@),
{
    let mut v: Vec<Parameter> = Vec::new();
    let mut i: usize = 0;
    while i < ps.len()
        invariant
            i <= ps@.len(),
            v@.map_values(|p: Parameter| p@) == ps@.subrange(0, i as int).map_values(|p: Parameter| p@),
        decreases ps@.len() - i,
    {
        let ghost prev = v@;
        v.push(ps[i].deep_copy());
        proof {
            assert(v@.map_values(|p: Parameter| p@) =~= prev.map_values(|p: Parameter| p@).push(ps@[i as int]@));
            assert(ps@.subrange(0, i + 1) =~= ps@.subrange(0, i as int).push(ps@[i as int]));
            assert(v@.map_values(|p: Parameter| p@) =~= ps@.subrange(0, i + 1).map_values(|p: Parameter| p@));
        }
        i = i + 1;
    }
    proof {
        assert(ps@.subrange(0, ps@.len() as int) =~= ps@);
    }
    v
}

impl Operation {
    /// A copy with the same view.
    pub fn deep_copy(&self) -> (r: Operation)
        ensures
            r@ == self@,
    {
        let mut responses: Vec<Response> = Vec::new();
        let mut i: usize = 0;
        while i < self.responses.len()
            invariant
                i <= self.responses@.len(),
                responses@.map_values(|p: Response| p@) == self.responses@.subrange(0, i as int).map_values(|p: Response| p@),
            decreases self.responses@.len() - i,
        {
            let ghost prev = responses@;
            responses.push(self.responses[i].deep_copy());
            proof {
                assert(responses@.map_values(|p: Response| p@) =~= prev.map_values(|p: Response| p@).push(self.responses@[i as int]@));
                assert(self.responses@.subrange(0, i + 1) =~= self.responses@.subrange(0, i as int).push(self.responses@[i as int]));
                assert(responses@.map_values(|p: Response| p@) =~= self.responses@.subrange(0, i + 1).map_values(|p: Response| p@));
            }
            i = i + 1;
        }
        proof {
            assert(self.responses@.subrange(0, self.responses@.len() as int) =~= self.responses@);
        }
        let meta_data = match &self.meta_data {
            Some(OperationMetaData::HTTP { url, method }) => Some(OperationMetaData::HTTP { url: url.clone(), method: *method }),
            None => None,
        };
        Operation {
            info: OperationInfo { name: self.info.name.clone(), key: self.info.key.clone() },
            parameters: copy_parameters(&self.parameters),
            responses,
            meta_data,
        }
    }
}

#[derive(Debug, PartialEq, Clone)]
pub struct Definition {
    pub name: String,
    pub key: String,
    pub schema: Schema,
}

#[derive(Debug, PartialEq, Clone)]
pub struct Domain {
    pub data: String,
}

/// The operation model of one API.
#[derive(Debug, PartialEq, Clone)]
pub struct AMOS {
    pub name: String,
    pub domain: Domain,
    pub definitions: Vec<Definition>,
    pub operations: Vec<Operation>,
}

/// `i` is the first position in `ops` of an operation named `name`.
pub open spec fn is_first_operation(ops: Seq<Operation>, name: Seq<char>, i: int) -> bool {
    0 <= i < ops.len() && ops[i].info.name@ == name && forall|j: int|
        0 <= j < i ==> (#[trigger] ops[j]).info.name@ != name
}

/// The first operation named `name`, if any.
pub open spec fn find_operation_spec(ops: Seq<Operation>, name: Seq<char>) -> Option<Operation> {
    if exists|i: int| is_first_operation(ops, name, i) {
        Some(ops[choose|i: int| is_first_operation(ops, name, i)])
    } else {
        None
    }
}

/// `i` is the first position in `defs` of a definition named `name`.
pub open spec fn is_first_definition(defs: Seq<Definition>, name: Seq<char>, i: int) -> bool {
    0 <= i < defs.len() && defs[i].name@ == name && forall|j: int|
        0 <= j < i ==> (#[trigger] defs[j]).name@ != name
}

/// The first definition named `name`, if any.
pub open spec fn find_definition_spec(defs: Seq<Definition>, name: Seq<char>) -> Option<Definition> {
    if exists|i: int| is_first_definition(defs, name, i) {
        Some(defs[choose|i: int| is_first_definition(defs, name, i)])
    } else {
        None
    }
}

/// The parameters that one parameter resolves to: a `Reference` to an object
/// definition (found by the last `/`-segment of the reference) becomes one
/// parameter per property, inheriting `required`, `ownership` and meta data;
/// anything else stays as it is.
pub open spec fn expand_parameter(defs: Seq<Definition>, p: ParameterV) -> Seq<ParameterV> {
    match p.schema {
        SchemaV::Reference(r) => match find_definition_spec(defs, last_segment_spec(r)) {
            Some(d) => match d.schema@ {
                SchemaV::Object(props) => Seq::new(
                    props.len(),
                    |k: int|
                        ParameterV {
                            name: props[k].name,
                            schema: props[k].schema,
                            required: p.required,
                            ownership: p.ownership,
                            meta_data: p.meta_data,
                        },
                ),
                _ => seq![p],
            },
            None => seq![p],
        },
        _ => seq![p],
    }
}

/// The parameters of a list after each is resolved, in order.
pub open spec fn expand_parameters(defs: Seq<Definition>, ps: Seq<ParameterV>) -> Seq<ParameterV>
    decreases ps.len(),
{
    if ps.len() == 0 {
        Seq::empty()
    } else {
        expand_parameters(defs, ps.drop_last()) + expand_parameter(defs, ps.last())
    }
}

/// The operation with its parameters resolved.
pub open spec fn resolve_operation_spec(defs: Seq<Definition>, op: OperationV) -> OperationV {
    OperationV { parameters: expand_parameters(defs, op.parameters), ..op }
}

proof fn lemma_first_operation_unique(ops: Seq<Operation>, name: Seq<char>, i: int, j: int)
    requires
        is_first_operation(ops, name, i),
        is_first_operation(ops, name, j),
    ensures
        i == j,
{
    if i < j {
        assert(ops[i].info.name@ != name);
    } else if j < i {
        assert(ops[j].info.name@ != name);
    }
}

proof fn lemma_first_definition_unique(defs: Seq<Definition>, name: Seq<char>, i: int, j: int)
    requires
        is_first_definition(defs, name, i),
        is_first_definition(defs, name, j),
    ensures
        i == j,
{
    if i < j {
        assert(defs[i].name@ != name);
    } else if j < i {
        assert(defs[j].name@ != name);
    }
}

/// The first operation in `ops` named `name`.
pub fn find_operation_in<'a>(ops: &'a Vec<Operation>, name: &str) -> (r: Option<&'a Operation>)
    ensures
        match r {
            Some(o) => find_operation_spec(ops@, name@) == Some(*o),
            None => find_operation_spec(ops@, name@) is None,
        },
{
    let mut i: usize = 0;
    while i < ops.len()
        invariant
            i <= ops@.len(),
            forall|j: int| 0 <= j < i ==> (#[trigger] ops@[j]).info.name@ != name@,
        decreases ops@.len() - i,
    {
        if str_eq(ops[i].info.name.as_str(), name) {
            proof {
                assert(is_first_operation(ops@, name@, i as int));
                let k = choose|k: int| is_first_operation(ops@, name@, k);
                lemma_first_operation_unique(ops@, name@, i as int, k);
            }
            return Some(&ops[i]);
        }
        i = i + 1;
    }
    None
}

/// The first definition in `defs` named `name`.
pub fn find_definition_in<'a>(defs: &'a Vec<Definition>, name: &str) -> (r: Option<&'a Definition>)
    ensures
        match r {
            Some(d) => find_definition_spec(defs@, name@) == Some(*d),
            None => find_definition_spec(defs@, name@) is None,
        },
{
    let mut i: usize = 0;
    while i < defs.len()
        invariant
            i <= defs@.len(),
            forall|j: int| 0 <= j < i ==> (#[trigger] defs@[j]).name@ != name@,
        decreases defs@.len() - i,
    {
        if str_eq(defs[i].name.as_str(), name) {
            proof {
                assert(is_first_definition(defs@, name@, i as int));
                let k = choose|k: int| is_first_definition(defs@, name@, k);
                lemma_first_definition_unique(defs@, name@, i as int, k);
            }
            return Some(&defs[i]);
        }
        i = i + 1;
    }
    None
}

/// The parameters that `p` resolves to against `defs`.
fn expand_parameter_exec(defs: &Vec<Definition>, p: &Parameter) -> (r: Vec<Parameter>)
    ensures
        r@.map_values(|q: Parameter| q@) == expand_parameter(defs@, p@),
{
    let mut out: Vec<Parameter> = Vec::new();
    if let Schema::Reference(reference) = &p.schema {
        let target = last_segment(reference.as_str());
        if let Some(d) = find_definition_in(defs, target.as_str()) {
            if let Schema::Object { properties } = &d.schema {
                let mut i: usize = 0;
                while i < properties.len()
                    invariant
                        d.schema is Object,
                        d.schema->properties == *properties,
                        i <= properties@.len(),
                        out@.len() == i,
                        forall|k: int| 0 <= k < i ==> (#[trigger] out@[k])@ == (ParameterV {
                            name: properties@[k].name@,
                            schema: properties@[k].schema@,
                            required: p.required,
                            ownership: p.ownership,
                            meta_data: p.meta_data,
                        }),
                    decreases properties@.len() - i,
                {
                    out.push(Parameter {
                        name: properties[i].name.clone(),
                        schema: properties[i].schema.deep_copy(),
                        required: p.required,
                        ownership: p.ownership,
                        meta_data: p.meta_data,
                    });
                    i = i + 1;
                }
                proof {
                    lemma_properties_view_len(*properties, properties@.len());
                    assert(out@.map_values(|q: Parameter| q@) =~= expand_parameter(defs@, p@));
                }
                return out;
            }
        }
    }
    out.push(p.deep_copy());
    proof {
        assert(out@.map_values(|q: Parameter| q@) =~= expand_parameter(defs@, p@));
    }
    out
}

impl AMOS {
    pub fn new() -> (r: Self)
        ensures
            r.name@ == "New AMOS"@,
            r.domain.data@.len() == 0,
            r.definitions@.len() == 0,
            r.operations@.len() == 0,
    {
        proof {
            reveal_strlit("New AMOS");
            reveal_strlit("");
        }
        AMOS {
            name: "New AMOS".to_string(),
            domain: Domain { data: "".to_string() },
            definitions: Vec::new(),
            operations: Vec::new(),
        }
    }

    pub fn push_operation(&mut self, operation: Operation)
        ensures
            final(self).operations@ == old(self).operations@.push(operation),
            final(self).definitions == old(self).definitions,
            final(self).name == old(self).name,
    {
        self.operations.push(operation)
    }

    /// The first operation with the given name.
    pub fn find_operation(&self, name: &str) -> (r: Option<&Operation>)
        ensures
            match r {
                Some(o) => find_operation_spec(self.operations@, name@) == Some(*o),
                None => find_operation_spec(self.operations@, name@) is None,
            },
    {
        find_operation_in(&self.operations, name)
    }

    /// The first definition with the given name.
    pub fn find_definition(&self, name: &str) -> (r: Option<&Definition>)
        ensures
            match r {
                Some(d) => find_definition_spec(self.definitions@, name@) == Some(*d),
                None => find_definition_spec(self.definitions@, name@) is None,
            },
    {
        find_definition_in(&self.definitions, name)
    }

    /// A copy of the named operation whose `Reference` parameters are
    /// flattened, one level, into the properties of their object definition.
    pub fn resolve_operation(&self, name: &str) -> (r: Option<Operation>)
        ensures
            match r {
                Some(o) => find_operation_spec(self.operations@, name@) is Some
                    && o@ == resolve_operation_spec(
                    self.definitions@,
                    find_operation_spec(self.operations@, name@)->0@,
                ),
                None => find_operation_spec(self.operations@, name@) is None,
            },
    {
        match self.find_operation(name) {
            None => None,
            Some(op) => {
                let mut resolved = op.deep_copy();
                let mut params: Vec<Parameter> = Vec::new();
                let mut i: usize = 0;
                while i < op.parameters.len()
                    invariant
                        i <= op.parameters@.len(),
                        params@.map_values(|q: Parameter| q@) == expand_parameters(
                            self.definitions@,
                            op.parameters@.subrange(0, i as int).map_values(|q: Parameter| q@),
                        ),
                    decreases op.parameters@.len() - i,
                {
                    let mut more = expand_parameter_exec(&self.definitions, &op.parameters[i]);
                    let ghost before = params@;
                    params.append(&mut more);
                    proof {
                        let pre = op.parameters@.subrange(0, i as int).map_values(|q: Parameter| q@);
                        let nxt = op.parameters@.subrange(0, i + 1).map_values(|q: Parameter| q@);
                        assert(nxt.drop_last() =~= pre);
                        assert(nxt.last() == op.parameters@[i as int]@);
                        assert(params@.map_values(|q: Parameter| q@) =~= before.map_values(|q: Parameter| q@) + expand_parameter(self.definitions@, op.parameters@[i as int]@));
                    }
                    i = i + 1;
                }
                proof {
                    assert(op.parameters@.subrange(0, op.parameters@.len() as int) =~= op.parameters@);
                }
                resolved.parameters = params;
                proof {
                    assert(resolved@ =~= resolve_operation_spec(self.definitions@, op@));
                }
                Some(resolved)
            },
        }
    }
}

/// A reference that names an object definition none of whose properties is
/// itself a reference.
pub open spec fn resolves_to_flat_object(defs: Seq<Definition>, r: Seq<char>) -> bool {
    match find_definition_spec(defs, last_segment_spec(r)) {
        Some(d) => match d.schema@ {
            SchemaV::Object(props) => forall|k: int|
                0 <= k < props.len() ==> !is_reference((#[trigger] props[k]).schema),
            _ => false,
        },
        None => false,
    }
}

/// Every parameter is either no reference or one that resolves to a flat object.
pub open spec fn references_resolvable(defs: Seq<Definition>, ps: Seq<ParameterV>) -> bool {
    forall|k: int|
        0 <= k < ps.len() ==> match (#[trigger] ps[k]).schema {
            SchemaV::Reference(r) => resolves_to_flat_object(defs, r),
            _ => true,
        }
}

proof fn lemma_expand_no_reference(defs: Seq<Definition>, ps: Seq<ParameterV>)
    requires
        references_resolvable(defs, ps),
    ensures
        forall|k: int|
            0 <= k < expand_parameters(defs, ps).len() ==> !is_reference(
                (#[trigger] expand_parameters(defs, ps)[k]).schema,
            ),
    decreases ps.len(),
{
    if ps.len() > 0 {
        let pre = ps.drop_last();
        assert(references_resolvable(defs, pre)) by {
            assert forall|k: int| 0 <= k < pre.len() implies match (#[trigger] pre[k]).schema {
                SchemaV::Reference(r) => resolves_to_flat_object(defs, r),
                _ => true,
            } by {
                assert(pre[k] == ps[k]);
            }
        }
        lemma_expand_no_reference(defs, pre);
        let last = ps.last();
        assert(match last.schema {
            SchemaV::Reference(r) => resolves_to_flat_object(defs, r),
            _ => true,
        }) by {
            assert(last == ps[ps.len() - 1]);
        }
        let tail = expand_parameter(defs, last);
        assert forall|k: int| 0 <= k < tail.len() implies !is_reference((#[trigger] tail[k]).schema) by {}
        let whole = expand_parameters(defs, ps);
        assert forall|k: int| 0 <= k < whole.len() implies !is_reference((#[trigger] whole[k]).schema) by {
            let head = expand_parameters(defs, pre);
            if k < head.len() {
                assert(whole[k] == head[k]);
            } else {
                assert(whole[k] == tail[k - head.len()]);
            }
        }
    }
}

/// In a model whose operation names are distinct, every operation is what
/// `find_operation` returns for its name; and when each of its `Reference`
/// parameters names an object definition with no reference among its
/// properties, the operation that `resolve_operation` returns has no
/// `Reference` parameter.
pub proof fn lemma_find_and_resolve(amos: AMOS, i: int)
    requires
        0 <= i < amos.operations@.len(),
        forall|j: int|
            0 <= j < amos.operations@.len() && j != i ==> (#[trigger] amos.operations@[j]).info.name@
                != amos.operations@[i].info.name@,
    ensures
        find_operation_spec(amos.operations@, amos.operations@[i].info.name@) == Some(
            amos.operations@[i],
        ),
        references_resolvable(amos.definitions@, amos.operations@[i]@.parameters) ==> forall|k: int|
            0 <= k < resolve_operation_spec(amos.definitions@, amos.operations@[i]@).parameters.len()
                ==> !is_reference(
                (#[trigger] resolve_operation_spec(amos.definitions@, amos.operations@[i]@).parameters[k]).schema,
            ),
{
    let ops = amos.operations@;
    let name = ops[i].info.name@;
    assert(is_first_operation(ops, name, i));
    let k = choose|k: int| is_first_operation(ops, name, k);
    lemma_first_operation_unique(ops, name, i, k);
    if references_resolvable(amos.definitions@, ops[i]@.parameters) {
        lemma_expand_no_reference(amos.definitions@, ops[i]@.parameters);
    }
}

} // verus!
