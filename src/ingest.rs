//! The one-shot fold from a parsed OpenAPI v2 specification to the
//! operation model.
use vstd::prelude::*;
use crate::amos::{
    Definition, Domain, Operation, OperationInfo, OperationMetaData, OperationV, Parameter,
    ParameterMetaData, ParameterOwnership, ParameterV, Property, PropertyV, Response, Schema,
    SchemaV, AMOS,
};
use crate::http::{HTTPMethod, HTTPParameterTarget, HTTPStatus};
use crate::open_api::{
    DataType, Definition as OpenAPIDefinition, DefinitionKind, Operation as OpenAPIOperation,
    OperationParameter, OperationResponse, ParameterIn, Property as OpenAPIProperty,
    Schema as OpenAPISchema,
};
use crate::relations::views_of;
use crate::text::{ends_with, ends_with_char, split, split_spec, starts_with, starts_with_char, str_eq};

verus! {

/// A warning or error raised while building the model.
#[derive(Debug, Clone, PartialEq)]
pub struct TranslationMessage {
    pub message: String,
}

impl TranslationMessage {
    pub fn new(message: String) -> (r: Self)
        ensures
            r.message == message,
    {
        TranslationMessage { message }
    }
}

/// The warnings and errors raised so far.
#[derive(Debug)]
pub struct TranslationContext {
    pub warnings: Vec<TranslationMessage>,
    pub errors: Vec<TranslationMessage>,
}

impl TranslationContext {
    pub fn new() -> (r: Self)
        ensures
            r.warnings@.len() == 0,
            r.errors@.len() == 0,
    {
        TranslationContext { warnings: Vec::new(), errors: Vec::new() }
    }

    pub fn push_warning(&mut self, message: TranslationMessage)
        ensures
            final(self).warnings@ == old(self).warnings@.push(message),
            final(self).errors@ == old(self).errors@,
    {
        self.warnings.push(message)
    }

    pub fn push_error(&mut self, message: TranslationMessage)
        ensures
            final(self).errors@ == old(self).errors@.push(message),
            final(self).warnings@ == old(self).warnings@,
    {
        self.errors.push(message)
    }
}

/// The model built from a specification, with what was raised on the way.
#[derive(Debug)]
pub struct TranslationResult {
    pub amos: AMOS,
    pub warnings: Vec<TranslationMessage>,
    pub errors: Vec<TranslationMessage>,
}

/// The warning raised for a parameter dropped as a duplicate.
pub open spec fn duplicate_text() -> Seq<char> {
    "Duplicate parameter dropped"@
}

/// How many of the warnings report a dropped duplicate parameter.
pub open spec fn duplicate_warnings(ws: Seq<TranslationMessage>) -> nat
    decreases ws.len(),
{
    if ws.len() == 0 {
        0
    } else {
        duplicate_warnings(ws.drop_last()) + if ws.last().message@ == duplicate_text() {
            1nat
        } else {
            0nat
        }
    }
}

/// Records a warning about an unsupported construct.
fn note(ctx: &mut TranslationContext, message: &str)
    requires
        message@.len() > 0,
        message@[0] == 'U',
    ensures
        final(ctx).warnings@.len() == old(ctx).warnings@.len() + 1,
        final(ctx).errors@ == old(ctx).errors@,
        duplicate_warnings(final(ctx).warnings@) == duplicate_warnings(old(ctx).warnings@),
{
    let ghost before = ctx.warnings@;
    let m = TranslationMessage::new(message.to_string());
    proof {
        reveal_strlit("Duplicate parameter dropped");
        assert(m.message@[0] != duplicate_text()[0]);
    }
    ctx.push_warning(m);
    proof {
        assert(ctx.warnings@.drop_last() =~= before);
    }
}

/// Records that a duplicate parameter was dropped.
fn note_duplicate(ctx: &mut TranslationContext)
    ensures
        final(ctx).warnings@.len() == old(ctx).warnings@.len() + 1,
        final(ctx).errors@ == old(ctx).errors@,
        duplicate_warnings(final(ctx).warnings@) == duplicate_warnings(old(ctx).warnings@) + 1,
{
    let ghost before = ctx.warnings@;
    let m = TranslationMessage::new("Duplicate parameter dropped".to_string());
    proof {
        reveal_strlit("Duplicate parameter dropped");
    }
    ctx.push_warning(m);
    proof {
        assert(ctx.warnings@.drop_last() =~= before);
    }
}

/// The schema of an object property of the given OpenAPI type.
pub open spec fn property_schema(kind: DataType) -> SchemaV
    decreases kind, 1nat,
{
    match kind {
        DataType::ArrayOfUniqueRefItems(r) => SchemaV::ArrayOfUniqueRefItems(r@),
        DataType::ArrayOfRefItems(r) => SchemaV::ArrayOfRefItems(r@),
        DataType::ArrayOfStrings => SchemaV::ArrayOfString,
        DataType::File => SchemaV::String,
        DataType::Integer64 => SchemaV::Int,
        DataType::Integer32 => SchemaV::Int32,
        DataType::String => SchemaV::String,
        DataType::Boolean => SchemaV::Bool,
        DataType::StringDateTime => SchemaV::StringDateTime,
        DataType::Double => SchemaV::Double,
        DataType::Float => SchemaV::Float,
        DataType::Number => SchemaV::Number,
        DataType::IPV4 => SchemaV::IPV4,
        DataType::Schema(s) => schema_of(s),
        DataType::Unsupported => SchemaV::Unsupported,
    }
}

/// The schema of an inline or referenced OpenAPI schema.
pub open spec fn schema_of(s: OpenAPISchema) -> SchemaV
    decreases s, 1nat,
{
    match s {
        OpenAPISchema::Ref(r) => SchemaV::Reference(r@),
        OpenAPISchema::Inline { properties } => SchemaV::Object(object_properties(properties, properties@.len())),
        OpenAPISchema::ArrayOfString => SchemaV::ArrayOfString,
        OpenAPISchema::ArrayOfUniqueRefItems(r) => SchemaV::ArrayOfUniqueRefItems(r@),
        OpenAPISchema::ArrayOfRefItems(r) => SchemaV::ArrayOfRefItems(r@),
    }
}

/// The properties of an object schema from the first `n` OpenAPI properties.
pub open spec fn object_properties(ps: Vec<OpenAPIProperty>, n: nat) -> Seq<PropertyV>
    decreases ps, n,
{
    if n == 0 || n > ps@.len() {
        Seq::empty()
    } else {
        proof {
            vstd::std_specs::vec::axiom_vec_index_decreases(ps, n - 1);
        }
        object_properties(ps, (n - 1) as nat).push(
            PropertyV { name: ps@[n - 1].name@, schema: property_schema(ps@[n - 1].kind) },
        )
    }
}

proof fn lemma_object_properties(ps: Vec<OpenAPIProperty>, n: nat)
    requires
        n <= ps@.len(),
    ensures
        object_properties(ps, n).len() == n,
        forall|k: int| 0 <= k < n ==> (#[trigger] object_properties(ps, n)[k]) == (PropertyV {
            name: ps@[k].name@,
            schema: property_schema(ps@[k].kind),
        }),
    decreases n,
{
    if n > 0 {
        lemma_object_properties(ps, (n - 1) as nat);
    }
}

/// The object schema of a list of OpenAPI properties.
pub fn definition_object_to_schema(ctx: &mut TranslationContext, properties: &Vec<OpenAPIProperty>) -> (r: Schema)
    ensures
        duplicate_warnings(final(ctx).warnings@) == duplicate_warnings(old(ctx).warnings@),
        final(ctx).errors@ == old(ctx).errors@,
        r@ == SchemaV::Object(object_properties(*properties, properties@.len())),
    decreases properties, 2nat,
{
    let mut props: Vec<Property> = Vec::new();
    let mut i: usize = 0;
    while i < properties.len()
        invariant
            ctx.errors@ == old(ctx).errors@,
            duplicate_warnings(ctx.warnings@) == duplicate_warnings(old(ctx).warnings@),
            i <= properties@.len(),
            props@.len() == i,
            forall|k: int| 0 <= k < i ==> (#[trigger] props@[k])@ == (PropertyV {
                name: properties@[k].name@,
                schema: property_schema(properties@[k].kind),
            }),
        decreases properties@.len() - i,
    {
        proof {
            vstd::std_specs::vec::axiom_vec_index_decreases(*properties, i as int);
        }
        let schema = property_to_schema(ctx, &properties[i].kind);
        props.push(Property { name: properties[i].name.clone(), schema });
        i = i + 1;
    }
    let r = Schema::Object { properties: props };
    proof {
        crate::amos::lemma_properties_view_len(props, props@.len());
        lemma_object_properties(*properties, properties@.len());
        assert(crate::amos::properties_view(props, props@.len()) =~= object_properties(*properties, properties@.len()));
    }
    r
}

/// The schema of an object property.
fn property_to_schema(ctx: &mut TranslationContext, kind: &DataType) -> (r: Schema)
    ensures
        duplicate_warnings(final(ctx).warnings@) == duplicate_warnings(old(ctx).warnings@),
        final(ctx).errors@ == old(ctx).errors@,
        r@ == property_schema(*kind),
    decreases kind, 1nat,
{
    match kind {
        DataType::ArrayOfUniqueRefItems(r) => Schema::ArrayOfUniqueRefItems(r.clone()),
        DataType::ArrayOfRefItems(r) => Schema::ArrayOfRefItems(r.clone()),
        DataType::ArrayOfStrings => Schema::ArrayOfString,
        DataType::File => Schema::String,
        DataType::Integer64 => Schema::Int,
        DataType::Integer32 => Schema::Int32,
        DataType::String => Schema::String,
        DataType::Boolean => Schema::Bool,
        DataType::StringDateTime => Schema::StringDateTime,
        DataType::Double => Schema::Double,
        DataType::Float => Schema::Float,
        DataType::Number => Schema::Number,
        DataType::IPV4 => Schema::IPV4,
        DataType::Schema(s) => match_schema(ctx, s),
        DataType::Unsupported => {
            proof {
                reveal_strlit("Unsupported property kind");
            }
            note(ctx, "Unsupported property kind");
            Schema::Unsupported
        },
    }
}

/// The schema of an inline or referenced OpenAPI schema.
pub fn match_schema(ctx: &mut TranslationContext, schema: &OpenAPISchema) -> (r: Schema)
    ensures
        duplicate_warnings(final(ctx).warnings@) == duplicate_warnings(old(ctx).warnings@),
        final(ctx).errors@ == old(ctx).errors@,
        r@ == schema_of(*schema),
    decreases schema, 1nat,
{
    match schema {
        OpenAPISchema::Ref(r) => Schema::Reference(r.clone()),
        OpenAPISchema::Inline { properties } => definition_object_to_schema(ctx, properties),
        OpenAPISchema::ArrayOfString => Schema::ArrayOfString,
        OpenAPISchema::ArrayOfUniqueRefItems(r) => Schema::ArrayOfUniqueRefItems(r.clone()),
        OpenAPISchema::ArrayOfRefItems(r) => Schema::ArrayOfRefItems(r.clone()),
    }
}

/// The schema of a response's OpenAPI type (`target` is `None`) or of a
/// parameter's: a string in a path is non-empty.
pub open spec fn data_type_schema(d: DataType, target: Option<HTTPParameterTarget>) -> SchemaV {
    match d {
        DataType::String => if target == Some(HTTPParameterTarget::Path) {
            SchemaV::StringNonEmpty
        } else {
            SchemaV::String
        },
        DataType::Number => SchemaV::Number,
        DataType::Float => SchemaV::Float,
        DataType::Double => SchemaV::Double,
        DataType::Integer64 => SchemaV::Int,
        DataType::Integer32 => SchemaV::Int32,
        DataType::Boolean => SchemaV::Bool,
        DataType::IPV4 => SchemaV::IPV4,
        DataType::File => SchemaV::Unsupported,
        DataType::Schema(s) => schema_of(s),
        DataType::ArrayOfStrings => SchemaV::ArrayOfString,
        DataType::ArrayOfRefItems(s) => SchemaV::ArrayOfRefItems(s@),
        DataType::ArrayOfUniqueRefItems(s) => SchemaV::ArrayOfUniqueRefItems(s@),
        DataType::StringDateTime => SchemaV::DateTime,
        DataType::Unsupported => SchemaV::Unsupported,
    }
}

/// The schema of a type; a file or an unsupported type adds a warning.
pub fn match_data_type_to_schema(ctx: &mut TranslationContext, data_type: &DataType, target: Option<HTTPParameterTarget>) -> (r: Schema)
    ensures
        duplicate_warnings(final(ctx).warnings@) == duplicate_warnings(old(ctx).warnings@),
        final(ctx).errors@ == old(ctx).errors@,
        r@ == data_type_schema(*data_type, target),
{
    match data_type {
        DataType::String => {
            if target == Some(HTTPParameterTarget::Path) {
                Schema::StringNonEmpty
            } else {
                Schema::String
            }
        },
        DataType::Number => Schema::Number,
        DataType::Float => Schema::Float,
        DataType::Double => Schema::Double,
        DataType::Integer64 => Schema::Int,
        DataType::Integer32 => Schema::Int32,
        DataType::Boolean => Schema::Bool,
        DataType::IPV4 => Schema::IPV4,
        DataType::File => {
            proof {
                reveal_strlit("Unsupported data kind: File");
            }
            note(ctx, "Unsupported data kind: File");
            Schema::Unsupported
        },
        DataType::Schema(s) => match_schema(ctx, s),
        DataType::ArrayOfStrings => Schema::ArrayOfString,
        DataType::ArrayOfRefItems(s) => Schema::ArrayOfRefItems(s.clone()),
        DataType::ArrayOfUniqueRefItems(s) => Schema::ArrayOfUniqueRefItems(s.clone()),
        DataType::StringDateTime => Schema::DateTime,
        DataType::Unsupported => {
            proof {
                reveal_strlit("Unsupported data kind");
            }
            note(ctx, "Unsupported data kind");
            Schema::Unsupported
        },
    }
}

/// The schema of a response: its type for a 200 with one, an integer for
/// the other recognised statuses, unsupported otherwise.
pub open spec fn response_schema(r: OperationResponse) -> SchemaV {
    match r.status {
        HTTPStatus::OK => match r.schema {
            Some(s) => data_type_schema(s, None),
            None => SchemaV::Int,
        },
        HTTPStatus::Unsupported => SchemaV::Unsupported,
        _ => SchemaV::Int,
    }
}

pub fn open_api_response_to_amos(ctx: &mut TranslationContext, response: &OperationResponse) -> (r: Response)
    ensures
        duplicate_warnings(final(ctx).warnings@) == duplicate_warnings(old(ctx).warnings@),
        final(ctx).errors@ == old(ctx).errors@,
        r@ == (PropertyV { name: response.description@, schema: response_schema(*response) }),
{
    let schema = match (&response.status, &response.schema) {
        (HTTPStatus::OK, None) => Schema::Int,
        (HTTPStatus::OK, Some(s)) => match_data_type_to_schema(ctx, s, None),
        (HTTPStatus::Unsupported, _) => {
            proof {
                reveal_strlit("Unsupported HTTP Status");
            }
            note(ctx, "Unsupported HTTP Status");
            Schema::Unsupported
        },
        _ => Schema::Int,
    };
    Response { name: response.description.clone(), schema }
}

/// Where a parameter travels; `None` for a header or an unknown location.
pub open spec fn target_of(t: ParameterIn) -> HTTPParameterTarget {
    match t {
        ParameterIn::Path => HTTPParameterTarget::Path,
        ParameterIn::FormData => HTTPParameterTarget::FormData,
        ParameterIn::Query => HTTPParameterTarget::Query,
        ParameterIn::Body => HTTPParameterTarget::Body,
        _ => HTTPParameterTarget::Unsupported,
    }
}

/// The schema of a parameter's OpenAPI type at its target.
pub open spec fn parameter_schema(d: DataType, target: HTTPParameterTarget) -> SchemaV {
    match d {
        DataType::File => SchemaV::File,
        DataType::Schema(s) => schema_of(s),
        _ => data_type_schema(d, Some(target)),
    }
}

/// The `/`-separated pieces of a URL template that are placeholders.
pub open spec fn url_placeholders(url: Seq<char>) -> Seq<Seq<char>> {
    placeholder_pieces(split_spec(url, '/'))
}

/// The pieces that start with `{`, in order.
pub open spec fn placeholder_pieces(pieces: Seq<Seq<char>>) -> Seq<Seq<char>>
    decreases pieces.len(),
{
    if pieces.len() == 0 {
        Seq::empty()
    } else if starts_with_char(pieces.last(), '{') {
        placeholder_pieces(pieces.drop_last()).push(pieces.last())
    } else {
        placeholder_pieces(pieces.drop_last())
    }
}

pub open spec fn is_first_piece(parts: Seq<Seq<char>>, piece: Seq<char>, i: int) -> bool {
    0 <= i < parts.len() && parts[i] == piece && forall|j: int| 0 <= j < i ==> (#[trigger] parts[j]) != piece
}

/// Who provides a parameter's value. For POST and PUT: a path parameter in
/// the last placeholder of a URL that ends with `}` is owned, in another
/// placeholder a dependency, in none unknown; form data is owned; the rest
/// unknown. For GET and DELETE: a dependency. Otherwise unknown.
pub open spec fn ownership_of(name: Seq<char>, target: ParameterIn, url: Seq<char>, method: HTTPMethod) -> ParameterOwnership {
    let parts = url_placeholders(url);
    let piece = seq!['{'] + name + seq!['}'];
    match method {
        HTTPMethod::POST | HTTPMethod::PUT => match target {
            ParameterIn::Path => if exists|i: int| is_first_piece(parts, piece, i) {
                if (choose|i: int| is_first_piece(parts, piece, i)) == parts.len() - 1 && ends_with_char(url, '}') {
                    ParameterOwnership::Owned
                } else {
                    ParameterOwnership::Dependency
                }
            } else {
                ParameterOwnership::Unknown
            },
            ParameterIn::FormData => ParameterOwnership::Owned,
            _ => ParameterOwnership::Unknown,
        },
        HTTPMethod::GET | HTTPMethod::DELETE => ParameterOwnership::Dependency,
        HTTPMethod::Unsupported => ParameterOwnership::Unknown,
    }
}

/// The model parameter of an OpenAPI parameter of an operation at `url`.
pub open spec fn parameter_of(p: OperationParameter, url: Seq<char>, method: HTTPMethod) -> ParameterV {
    let target = target_of(p.target);
    ParameterV {
        name: p.name@,
        schema: parameter_schema(p.kind, target),
        required: p.required,
        ownership: ownership_of(p.name@, p.target, url, method),
        meta_data: Some(ParameterMetaData::HTTP { target }),
    }
}

fn placeholder_parts(url: &str) -> (r: Vec<String>)
    ensures
        r@.map_values(|p: String| p@) == url_placeholders(url@),
{
    let pieces = split(url, '/');
    let ghost pv = pieces@.map_values(|p: String| p@);
    let mut out: Vec<String> = Vec::new();
    let mut i: usize = 0;
    proof {
        assert(pv.subrange(0, 0) =~= Seq::<Seq<char>>::empty());
        assert(out@.map_values(|p: String| p@) =~= Seq::<Seq<char>>::empty());
    }
    while i < pieces.len()
        invariant
            pv == pieces@.map_values(|p: String| p@),
            i <= pieces@.len(),
            out@.map_values(|p: String| p@) == placeholder_pieces(pv.subrange(0, i as int)),
        decreases pieces@.len() - i,
    {
        let ghost prev = out@.map_values(|p: String| p@);
        proof {
            let t = pv.subrange(0, i + 1);
            assert(t.drop_last() =~= pv.subrange(0, i as int));
            assert(t.last() == pieces@[i as int]@);
        }
        if starts_with(pieces[i].as_str(), '{') {
            out.push(pieces[i].clone());
            proof {
                assert(out@.map_values(|p: String| p@) =~= prev.push(pieces@[i as int]@));
            }
        }
        i = i + 1;
    }
    proof {
        assert(pv.subrange(0, pv.len() as int) =~= pv);
    }
    out
}

proof fn lemma_first_piece_unique(parts: Seq<Seq<char>>, piece: Seq<char>, i: int, j: int)
    requires
        is_first_piece(parts, piece, i),
        is_first_piece(parts, piece, j),
    ensures
        i == j,
{
    if i < j {
        assert(parts[i] != piece);
    } else if j < i {
        assert(parts[j] != piece);
    }
}

/// The position of the path parameter's placeholder among the URL's placeholders.
fn placeholder_position(parts: &Vec<String>, name: &String) -> (r: Option<usize>)
    ensures
        match r {
            Some(i) => is_first_piece(views_of(parts@), seq!['{'] + name@ + seq!['}'], i as int),
            None => !exists|i: int| #[trigger] is_first_piece(views_of(parts@), seq!['{'] + name@ + seq!['}'], i),
        },
{
    let ghost pv = views_of(parts@);
    let mut piece = String::new();
    crate::text::push_char(&mut piece, '{');
    piece.append(name.as_str());
    crate::text::push_char(&mut piece, '}');
    proof {
        assert(piece@ =~= seq!['{'] + name@ + seq!['}']);
    }
    let mut i: usize = 0;
    while i < parts.len()
        invariant
            pv == views_of(parts@),
            piece@ == seq!['{'] + name@ + seq!['}'],
            i <= parts@.len(),
            forall|j: int| 0 <= j < i ==> (#[trigger] pv[j]) != piece@,
        decreases parts@.len() - i,
    {
        proof {
            assert(pv[i as int] == parts@[i as int]@);
        }
        if str_eq(parts[i].as_str(), piece.as_str()) {
            return Some(i);
        }
        i = i + 1;
    }
    proof {
        if exists|k: int| is_first_piece(pv, piece@, k) {
            let k = choose|k: int| is_first_piece(pv, piece@, k);
            assert(pv[k] != piece@);
        }
    }
    None
}

/// One for a parameter whose location the model has no target for (a
/// header or an unknown location), else zero.
pub open spec fn raises_error(p: OperationParameter) -> nat {
    match p.target {
        ParameterIn::Header | ParameterIn::Unsupported(_) => 1,
        _ => 0,
    }
}

/// The errors a list of parameters raises.
pub open spec fn operation_errors(ps: Seq<OperationParameter>) -> nat
    decreases ps.len(),
{
    if ps.len() == 0 {
        0
    } else {
        operation_errors(ps.drop_last()) + raises_error(ps.last())
    }
}

/// The parameters a list of operations drops as duplicates.
pub open spec fn total_dropped(ops: Seq<OpenAPIOperation>) -> nat
    decreases ops.len(),
{
    if ops.len() == 0 {
        0
    } else {
        total_dropped(ops.drop_last()) + dropped_duplicates(ops.last().parameters@)
    }
}

/// The errors a list of operations raises.
pub open spec fn total_errors(ops: Seq<OpenAPIOperation>) -> nat
    decreases ops.len(),
{
    if ops.len() == 0 {
        0
    } else {
        total_errors(ops.drop_last()) + operation_errors(distinct_parameters(ops.last().parameters@))
    }
}

/// The model parameter of an OpenAPI parameter; a header or unknown location
/// adds an error.
pub fn open_api_parameter_to_amos(
    ctx: &mut TranslationContext,
    parameter: &OperationParameter,
    url: &str,
    url_parts: &Vec<String>,
    method: &HTTPMethod,
) -> (r: Parameter)
    requires
        url_parts@.map_values(|p: String| p@) == url_placeholders(url@),
    ensures
        r@ == parameter_of(*parameter, url@, *method),
        final(ctx).errors@.len() == old(ctx).errors@.len() + raises_error(*parameter),
        duplicate_warnings(final(ctx).warnings@) == duplicate_warnings(old(ctx).warnings@),
{
    let target = match parameter.target {
        ParameterIn::Path => HTTPParameterTarget::Path,
        ParameterIn::FormData => HTTPParameterTarget::FormData,
        ParameterIn::Query => HTTPParameterTarget::Query,
        ParameterIn::Body => HTTPParameterTarget::Body,
        _ => {
            ctx.push_error(TranslationMessage::new("Missing parameter support".to_string()));
            HTTPParameterTarget::Unsupported
        },
    };
    let schema = match &parameter.kind {
        DataType::File => Schema::File,
        DataType::Schema(s) => match_schema(ctx, s),
        other => match_data_type_to_schema(ctx, other, Some(target)),
    };
    let ownership = match method {
        HTTPMethod::POST | HTTPMethod::PUT => match &parameter.target {
            ParameterIn::Path => {
                match placeholder_position(url_parts, &parameter.name) {
                    Some(idx) => {
                        let ghost parts = url_placeholders(url@);
                        let ghost piece = seq!['{'] + parameter.name@ + seq!['}'];
                        proof {
                            assert(views_of(url_parts@) == parts);
                            assert(parts.len() == url_parts@.len());
                            let k = choose|k: int| is_first_piece(parts, piece, k);
                            lemma_first_piece_unique(parts, piece, idx as int, k);
                            assert((choose|k: int| is_first_piece(parts, piece, k)) == idx as int);
                        }
                        if idx == url_parts.len() - 1 && ends_with(url, '}') {
                            ParameterOwnership::Owned
                        } else {
                            ParameterOwnership::Dependency
                        }
                    },
                    None => {
                        proof {
                            assert(views_of(url_parts@) == url_placeholders(url@));
                        }
                        ParameterOwnership::Unknown
                    },
                }
            },
            ParameterIn::FormData => ParameterOwnership::Owned,
            ParameterIn::Unsupported(_) => {
                proof {
                reveal_strlit("Unsupported ownership support");
            }
            note(ctx, "Unsupported ownership support");
                ParameterOwnership::Unknown
            },
            _ => ParameterOwnership::Unknown,
        },
        HTTPMethod::GET | HTTPMethod::DELETE => ParameterOwnership::Dependency,
        HTTPMethod::Unsupported => ParameterOwnership::Unknown,
    };
    proof {
        assert(target == target_of(parameter.target));
        assert(schema@ == parameter_schema(parameter.kind, target));
        assert(ownership == ownership_of(parameter.name@, parameter.target, url@, *method));
    }
    Parameter {
        name: parameter.name.clone(),
        schema,
        required: parameter.required,
        ownership,
        meta_data: Some(ParameterMetaData::HTTP { target }),
    }
}

/// Whether a parameter named `name` occurs in `ps`.
pub open spec fn has_name(ps: Seq<OperationParameter>, name: Seq<char>) -> bool {
    exists|k: int| 0 <= k < ps.len() && (#[trigger] ps[k]).name@ == name
}

/// The parameters with every later one of an already seen name dropped.
pub open spec fn distinct_parameters(ps: Seq<OperationParameter>) -> Seq<OperationParameter>
    decreases ps.len(),
{
    if ps.len() == 0 {
        Seq::empty()
    } else {
        let prev = distinct_parameters(ps.drop_last());
        if has_name(prev, ps.last().name@) {
            prev
        } else {
            prev.push(ps.last())
        }
    }
}

/// How many parameters are dropped as duplicates.
pub open spec fn dropped_duplicates(ps: Seq<OperationParameter>) -> nat
    decreases ps.len(),
{
    if ps.len() == 0 {
        0
    } else {
        dropped_duplicates(ps.drop_last()) + if has_name(distinct_parameters(ps.drop_last()), ps.last().name@) {
            1nat
        } else {
            0nat
        }
    }
}

/// The parameters kept have pairwise distinct names.
pub proof fn lemma_distinct_names(ps: Seq<OperationParameter>)
    ensures
        forall|a: int, b: int|
            0 <= a < b < distinct_parameters(ps).len() ==> (#[trigger] distinct_parameters(ps)[a]).name@
                != (#[trigger] distinct_parameters(ps)[b]).name@,
    decreases ps.len(),
{
    if ps.len() > 0 {
        lemma_distinct_names(ps.drop_last());
        let prev = distinct_parameters(ps.drop_last());
        if !has_name(prev, ps.last().name@) {
            let d = prev.push(ps.last());
            assert forall|a: int, b: int| 0 <= a < b < d.len() implies (#[trigger] d[a]).name@ != (#[trigger] d[b]).name@ by {
                if b == d.len() - 1 {
                    assert(prev[a] == d[a]);
                } else {
                    assert(prev[a] == d[a] && prev[b] == d[b]);
                }
            }
        }
    }
}

/// The model operation of an OpenAPI operation; of parameters sharing a
/// name only the first is kept.
pub open spec fn operation_of(o: OpenAPIOperation) -> OperationV {
    let kept = distinct_parameters(o.parameters@);
    OperationV {
        name: o.id@,
        key: "operation/"@ + o.id@,
        parameters: Seq::new(kept.len(), |k: int| parameter_of(kept[k], o.url@, o.method)),
        responses: Seq::new(
            o.responses@.len(),
            |k: int| PropertyV { name: o.responses@[k].description@, schema: response_schema(o.responses@[k]) },
        ),
        meta_data: Some((o.url@, o.method)),
    }
}

pub fn open_api_operation_to_amos(ctx: &mut TranslationContext, operation: &OpenAPIOperation) -> (r: Operation)
    ensures
        r@ == operation_of(*operation),
        final(ctx).errors@.len() == old(ctx).errors@.len() + operation_errors(distinct_parameters(operation.parameters@)),
        duplicate_warnings(final(ctx).warnings@) == duplicate_warnings(old(ctx).warnings@) + dropped_duplicates(operation.parameters@),
{
    let mut key = "operation/".to_string();
    key.append(operation.id.as_str());
    let url_parts = placeholder_parts(operation.url.as_str());
    let mut parameters: Vec<Parameter> = Vec::new();
    let mut seen: Vec<String> = Vec::new();
    let mut i: usize = 0;
    proof {
        assert(operation.parameters@.subrange(0, 0) =~= Seq::<OperationParameter>::empty());
    }
    while i < operation.parameters.len()
        invariant
            url_parts@.map_values(|p: String| p@) == url_placeholders(operation.url@),
            i <= operation.parameters@.len(),
            ctx.errors@.len() == old(ctx).errors@.len() + operation_errors(distinct_parameters(operation.parameters@.subrange(0, i as int))),
            duplicate_warnings(ctx.warnings@) == duplicate_warnings(old(ctx).warnings@) + dropped_duplicates(operation.parameters@.subrange(0, i as int)),
            parameters@.len() == distinct_parameters(operation.parameters@.subrange(0, i as int)).len(),
            seen@.len() == parameters@.len(),
            forall|k: int| 0 <= k < parameters@.len() ==> (#[trigger] parameters@[k])@ == parameter_of(
                distinct_parameters(operation.parameters@.subrange(0, i as int))[k],
                operation.url@,
                operation.method,
            ),
            forall|k: int| 0 <= k < seen@.len() ==> (#[trigger] seen@[k])@ == distinct_parameters(operation.parameters@.subrange(0, i as int))[k].name@,
        decreases operation.parameters@.len() - i,
    {
        let p = &operation.parameters[i];
        let ghost pre = operation.parameters@.subrange(0, i as int);
        let ghost kept = distinct_parameters(pre);
        proof {
            let t = operation.parameters@.subrange(0, i + 1);
            assert(t.drop_last() =~= pre);
            assert(t.last() == *p);
        }
        let mut found = false;
        let mut c: usize = 0;
        while c < seen.len()
            invariant
                c <= seen@.len(),
                seen@.len() == kept.len(),
                forall|k: int| 0 <= k < seen@.len() ==> (#[trigger] seen@[k])@ == kept[k].name@,
                found == exists|k: int| 0 <= k < c && (#[trigger] kept[k]).name@ == p.name@,
            decreases seen@.len() - c,
        {
            if str_eq(seen[c].as_str(), p.name.as_str()) {
                found = true;
            }
            c = c + 1;
        }
        proof {
            assert(found == has_name(kept, p.name@));
        }
        if found {
            note_duplicate(ctx);
            proof {
                assert(distinct_parameters(operation.parameters@.subrange(0, i + 1)) == kept);
            }
        } else {
            let ghost before_errors = ctx.errors@.len();
            parameters.push(open_api_parameter_to_amos(ctx, p, operation.url.as_str(), &url_parts, &operation.method));
            seen.push(p.name.clone());
            proof {
                let nk = distinct_parameters(operation.parameters@.subrange(0, i + 1));
                assert(nk == kept.push(*p));
                assert(nk.drop_last() =~= kept);
                assert(nk.last() == *p);
            }
        }
        i = i + 1;
    }
    proof {
        assert(operation.parameters@.subrange(0, operation.parameters@.len() as int) =~= operation.parameters@);
    }
    proof {
        assert(operation.parameters@.subrange(0, operation.parameters@.len() as int) =~= operation.parameters@);
    }
    let mut responses: Vec<Response> = Vec::new();
    let mut j: usize = 0;
    while j < operation.responses.len()
        invariant
            ctx.errors@.len() == old(ctx).errors@.len() + operation_errors(distinct_parameters(operation.parameters@)),
            duplicate_warnings(ctx.warnings@) == duplicate_warnings(old(ctx).warnings@) + dropped_duplicates(operation.parameters@),
            j <= operation.responses@.len(),
            responses@.len() == j,
            forall|k: int| 0 <= k < j ==> (#[trigger] responses@[k])@ == (PropertyV {
                name: operation.responses@[k].description@,
                schema: response_schema(operation.responses@[k]),
            }),
        decreases operation.responses@.len() - j,
    {
        responses.push(open_api_response_to_amos(ctx, &operation.responses[j]));
        j = j + 1;
    }
    let r = Operation {
        info: OperationInfo { name: operation.id.clone(), key },
        parameters,
        responses,
        meta_data: Some(OperationMetaData::HTTP { url: operation.url.clone(), method: operation.method }),
    };
    proof {
        reveal_strlit("operation/");
        assert(r@.parameters =~= operation_of(*operation).parameters);
        assert(r@.responses =~= operation_of(*operation).responses);
        assert(r@.key =~= operation_of(*operation).key);
    }
    r
}

/// The schema of a definition: an object of its properties (none if it
/// lists none); unsupported for another kind.
pub open spec fn definition_schema(d: OpenAPIDefinition) -> SchemaV {
    match d.kind {
        DefinitionKind::Object => match d.properties {
            Some(ps) => SchemaV::Object(object_properties(ps, ps@.len())),
            None => SchemaV::Object(Seq::empty()),
        },
        DefinitionKind::Unsupported => SchemaV::Unsupported,
    }
}

pub fn open_api_definition_to_amos(ctx: &mut TranslationContext, definition: &OpenAPIDefinition) -> (r: Definition)
    ensures
        duplicate_warnings(final(ctx).warnings@) == duplicate_warnings(old(ctx).warnings@),
        final(ctx).errors@ == old(ctx).errors@,
        r.name@ == definition.name@,
        r.key@ == "definition/"@ + definition.name@,
        r.schema@ == definition_schema(*definition),
{
    let mut key = "definition/".to_string();
    key.append(definition.name.as_str());
    let schema = match definition.kind {
        DefinitionKind::Object => match &definition.properties {
            Some(ps) => definition_object_to_schema(ctx, ps),
            None => {
                let s = Schema::Object { properties: Vec::new() };
                proof {
                    assert(crate::amos::properties_view(s->properties, 0) =~= Seq::<PropertyV>::empty());
                }
                s
            },
        },
        DefinitionKind::Unsupported => {
            proof {
                reveal_strlit("Unsupported definition kind");
            }
            note(ctx, "Unsupported definition kind");
            Schema::Unsupported
        },
    };
    proof {
        reveal_strlit("definition/");
    }
    Definition { name: definition.name.clone(), key, schema }
}

/// Builds the operation model of a specification: one definition per
/// definition and one operation per operation, in order.
pub fn open_api_v2_to_amos(operations: &[OpenAPIOperation], definitions: &[OpenAPIDefinition]) -> (r: TranslationResult)
    ensures
        r.amos.name@ == "New AMOS"@,
        r.amos.definitions@.len() == definitions@.len(),
        forall|k: int| 0 <= k < definitions@.len() ==> (#[trigger] r.amos.definitions@[k]).name@ == definitions@[k].name@
            && r.amos.definitions@[k].key@ == "definition/"@ + definitions@[k].name@
            && r.amos.definitions@[k].schema@ == definition_schema(definitions@[k]),
        r.amos.operations@.len() == operations@.len(),
        forall|k: int| 0 <= k < operations@.len() ==> (#[trigger] r.amos.operations@[k])@ == operation_of(operations@[k]),
        r.errors@.len() == total_errors(operations@),
        duplicate_warnings(r.warnings@) == total_dropped(operations@),
        forall|k: int, a: int, b: int|
            0 <= k < operations@.len() && 0 <= a < b < r.amos.operations@[k].parameters@.len() ==> (#[trigger] r.amos.operations@[k].parameters@[a]).name@
                != (#[trigger] r.amos.operations@[k].parameters@[b]).name@,
{
    let mut ctx = TranslationContext::new();
    let mut defs: Vec<Definition> = Vec::new();
    let mut i: usize = 0;
    while i < definitions.len()
        invariant
            ctx.errors@.len() == 0,
            duplicate_warnings(ctx.warnings@) == 0,
            i <= definitions@.len(),
            defs@.len() == i,
            forall|k: int| 0 <= k < i ==> (#[trigger] defs@[k]).name@ == definitions@[k].name@
                && defs@[k].key@ == "definition/"@ + definitions@[k].name@
                && defs@[k].schema@ == definition_schema(definitions@[k]),
        decreases definitions@.len() - i,
    {
        defs.push(open_api_definition_to_amos(&mut ctx, &definitions[i]));
        i = i + 1;
    }
    let mut ops: Vec<Operation> = Vec::new();
    let mut j: usize = 0;
    while j < operations.len()
        invariant
            ctx.errors@.len() == total_errors(operations@.subrange(0, j as int)),
            duplicate_warnings(ctx.warnings@) == total_dropped(operations@.subrange(0, j as int)),
            j <= operations@.len(),
            ops@.len() == j,
            forall|k: int| 0 <= k < j ==> (#[trigger] ops@[k])@ == operation_of(operations@[k]),
        decreases operations@.len() - j,
    {
        ops.push(open_api_operation_to_amos(&mut ctx, &operations[j]));
        proof {
            let t = operations@.subrange(0, j + 1);
            assert(t.drop_last() =~= operations@.subrange(0, j as int));
        }
        j = j + 1;
    }
    proof {
        assert(operations@.subrange(0, operations@.len() as int) =~= operations@);
    }
    let amos = AMOS {
        name: "New AMOS".to_string(),
        domain: Domain { data: "".to_string() },
        definitions: defs,
        operations: ops,
    };
    proof {
        reveal_strlit("New AMOS");
        assert forall|k: int, a: int, b: int|
            0 <= k < operations@.len() && 0 <= a < b < ops@[k].parameters@.len() implies (#[trigger] ops@[k].parameters@[a]).name@
                != (#[trigger] ops@[k].parameters@[b]).name@ by {
            lemma_distinct_names(operations@[k].parameters@);
            let kept = distinct_parameters(operations@[k].parameters@);
            assert(ops@[k]@.parameters[a] == ops@[k].parameters@[a]@);
            assert(ops@[k]@.parameters[b] == ops@[k].parameters@[b]@);
            let o = operations@[k];
            assert(ops@[k]@ == operation_of(o));
            assert(ops@[k]@.parameters.len() == ops@[k].parameters@.len());
            assert(operation_of(o).parameters.len() == kept.len());
            assert(b < kept.len());
            assert(operation_of(o).parameters[a] == parameter_of(kept[a], o.url@, o.method));
            assert(operation_of(o).parameters[b] == parameter_of(kept[b], o.url@, o.method));
        }
    }
    TranslationResult { amos, warnings: ctx.warnings, errors: ctx.errors }
}

} // verus!
