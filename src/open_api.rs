//! The OpenAPI v2 vocabulary the engine reads, and the parsing of the
//! string-valued parts of a specification (MIME types, status codes,
//! methods).
use vstd::prelude::*;
use crate::http::{CharacterSet, HTTPMethod, HTTPStatus, MimeData, MimeSubType, MimeType, MultipartSubType};
use crate::text::{contains, contains_spec, split, split_spec, str_eq};

verus! {

/// The type of an OpenAPI parameter, property or response.
#[derive(Debug, PartialEq)]
pub enum DataType {
    Integer32,
    Integer64,
    Double,
    Float,
    Number,
    String,
    StringDateTime,
    IPV4,
    ArrayOfStrings,
    ArrayOfRefItems(String),
    ArrayOfUniqueRefItems(String),
    Boolean,
    File,
    Schema(Schema),
    Unsupported,
}

/// Where an OpenAPI parameter goes.
#[derive(Debug, Clone, PartialEq)]
pub enum ParameterIn {
    Path,
    FormData,
    Body,
    Query,
    Header,
    Unsupported(String),
}

#[derive(Debug, PartialEq)]
pub struct OperationParameter {
    pub name: String,
    pub kind: DataType,
    pub target: ParameterIn,
    pub required: bool,
}

#[derive(Debug, Clone, PartialEq)]
pub struct DefinitionPath {
    pub path: String,
}

#[derive(Debug, Clone, Copy, PartialEq, Eq, Structural)]
pub enum SchemaKind {
    Array,
}

/// An inline or referenced schema.
#[derive(Debug, PartialEq)]
pub enum Schema {
    Inline { properties: Vec<Property> },
    Ref(String),
    ArrayOfString,
    ArrayOfUniqueRefItems(String),
    ArrayOfRefItems(String),
}

#[derive(Debug, PartialEq)]
pub struct OperationResponse {
    pub status: HTTPStatus,
    pub description: String,
    pub schema: Option<DataType>,
}

#[derive(Debug, PartialEq)]
pub struct Operation {
    pub url: String,
    pub method: HTTPMethod,
    pub id: String,
    pub produces: Vec<MimeData>,
    pub consumes: Vec<MimeData>,
    pub parameters: Vec<OperationParameter>,
    pub responses: Vec<OperationResponse>,
}

#[derive(Debug, PartialEq)]
pub struct Property {
    pub name: String,
    pub kind: DataType,
}

#[derive(Debug, Clone, Copy, PartialEq, Eq, Structural)]
pub enum DefinitionKind {
    Object,
    Unsupported,
}

#[derive(Debug, PartialEq)]
pub struct Definition {
    pub name: String,
    pub path: DefinitionPath,
    pub kind: DefinitionKind,
    pub properties: Option<Vec<Property>>,
}

/// A warning raised while reading a specification, with where it was raised.
#[derive(Debug, Clone, PartialEq)]
pub struct ParseMessage {
    pub message: String,
    pub path: Option<String>,
    pub operation: Option<String>,
    pub method: Option<String>,
}

impl ParseMessage {
    pub fn new(message: String) -> (r: Self)
        ensures
            r.message == message,
            r.path is None,
            r.operation is None,
            r.method is None,
    {
        ParseMessage { message, path: None, operation: None, method: None }
    }
}

/// The warnings raised so far and the place being read.
#[derive(Debug, PartialEq)]
pub struct ParseContext {
    pub warnings: Vec<ParseMessage>,
    pub current_path: Option<String>,
    pub current_operation: Option<String>,
    pub current_method: Option<String>,
}

fn copy_opt(o: &Option<String>) -> (r: Option<String>)
    ensures
        r == *o,
{
    match o {
        Some(s) => Some(s.clone()),
        None => None,
    }
}

impl ParseContext {
    pub fn new() -> (r: Self)
        ensures
            r.warnings@.len() == 0,
            r.current_path is None,
            r.current_operation is None,
            r.current_method is None,
    {
        Self { warnings: Vec::new(), current_path: None, current_operation: None, current_method: None }
    }

    /// Records a warning, stamped with the place being read.
    pub fn push_warning(&mut self, message: ParseMessage)
        ensures
            final(self).warnings@ == old(self).warnings@.push(ParseMessage {
                message: message.message,
                path: old(self).current_path,
                operation: old(self).current_operation,
                method: old(self).current_method,
            }),
            final(self).current_path == old(self).current_path,
            final(self).current_operation == old(self).current_operation,
            final(self).current_method == old(self).current_method,
    {
        let stamped = ParseMessage {
            message: message.message,
            path: copy_opt(&self.current_path),
            operation: copy_opt(&self.current_operation),
            method: copy_opt(&self.current_method),
        };
        self.warnings.push(stamped);
    }
}

/// The MIME kind of the part before the first `;`.
pub open spec fn mime_kind_spec(first: Seq<char>) -> MimeType {
    if first == "*/*"@ {
        MimeType::Unspecified
    } else if first == "application/json"@ {
        MimeType::Application(MimeSubType::Json)
    } else if first == "application/xml"@ {
        MimeType::Application(MimeSubType::XML)
    } else if first == "multipart/form-data"@ {
        MimeType::Multipart(MultipartSubType::FormData)
    } else {
        let kp = split_spec(first, '/');
        if kp.len() == 2 && contains_spec(kp[1], "vnd"@) {
            MimeType::Application(MimeSubType::Vendor)
        } else {
            MimeType::Unsupported
        }
    }
}

pub open spec fn is_first_charset(parts: Seq<Seq<char>>, i: int) -> bool {
    0 <= i < parts.len() && contains_spec(parts[i], "charset="@) && forall|j: int|
        0 <= j < i ==> !contains_spec(#[trigger] parts[j], "charset="@)
}

/// The character set named by the first `charset=` part, when it is UTF-8.
pub open spec fn charset_spec(parts: Seq<Seq<char>>) -> Option<CharacterSet> {
    if exists|i: int| is_first_charset(parts, i) {
        if contains_spec(parts[choose|i: int| is_first_charset(parts, i)], "UTF-8"@) {
            Some(CharacterSet::UTF_8)
        } else {
            None
        }
    } else {
        None
    }
}

/// What a `produces`/`consumes` entry means.
pub open spec fn mime_spec(s: Seq<char>) -> MimeData {
    let parts = split_spec(s, ';');
    MimeData { kind: mime_kind_spec(parts[0]), char_set: charset_spec(parts) }
}

proof fn lemma_first_charset_unique(parts: Seq<Seq<char>>, i: int, j: int)
    requires
        is_first_charset(parts, i),
        is_first_charset(parts, j),
    ensures
        i == j,
{
    if i < j {
        assert(!contains_spec(parts[i], "charset="@));
    } else if j < i {
        assert(!contains_spec(parts[j], "charset="@));
    }
}

fn find_charset(parts: &Vec<String>) -> (r: Option<CharacterSet>)
    ensures
        r == charset_spec(parts@.map_values(|p: String| p@)),
{
    let ghost pv = parts@.map_values(|p: String| p@);
    proof {
        reveal_strlit("charset=");
        reveal_strlit("UTF-8");
    }
    let mut i: usize = 0;
    while i < parts.len()
        invariant
            pv == parts@.map_values(|p: String| p@),
            i <= parts@.len(),
            forall|j: int| 0 <= j < i ==> !contains_spec(#[trigger] pv[j], "charset="@),
        decreases parts@.len() - i,
    {
        proof {
            assert(pv[i as int] == parts@[i as int]@);
        }
        if contains(parts[i].as_str(), "charset=") {
            proof {
                assert(is_first_charset(pv, i as int));
                let k = choose|k: int| is_first_charset(pv, k);
                lemma_first_charset_unique(pv, i as int, k);
            }
            if contains(parts[i].as_str(), "UTF-8") {
                return Some(CharacterSet::UTF_8);
            }
            return None;
        }
        i = i + 1;
    }
    proof {
        assert(!exists|k: int| is_first_charset(pv, k)) by {
            if exists|k: int| is_first_charset(pv, k) {
                let k = choose|k: int| is_first_charset(pv, k);
                assert(!contains_spec(pv[k], "charset="@));
            }
        }
    }
    None
}

/// Reads a MIME type entry; `*/*` and unknown types add a warning.
pub fn parse_mime_types_string(context: &mut ParseContext, produces: &str) -> (r: MimeData)
    ensures
        r == mime_spec(produces@),
        (r.kind is Unspecified || r.kind is Unsupported) ==> final(context).warnings@.len() == old(context).warnings@.len() + 1,
        !(r.kind is Unspecified || r.kind is Unsupported) ==> final(context).warnings@ == old(context).warnings@,
{
    let parts = split(produces, ';');
    let ghost pv = parts@.map_values(|p: String| p@);
    proof {
        crate::text::lemma_split_nonempty(produces@, ';');
        assert(pv[0] == parts@[0]@);
    }
    let first = parts[0].as_str();
    proof {
        reveal_strlit("*/*");
        reveal_strlit("application/json");
        reveal_strlit("application/xml");
        reveal_strlit("multipart/form-data");
        reveal_strlit("vnd");
    }
    let kind = if str_eq(first, "*/*") {
        context.push_warning(ParseMessage::new("Unspecified MIME type".to_string()));
        MimeType::Unspecified
    } else if str_eq(first, "application/json") {
        MimeType::Application(MimeSubType::Json)
    } else if str_eq(first, "application/xml") {
        MimeType::Application(MimeSubType::XML)
    } else if str_eq(first, "multipart/form-data") {
        MimeType::Multipart(MultipartSubType::FormData)
    } else {
        let kind_parts = split(first, '/');
        proof {
            let kv = kind_parts@.map_values(|p: String| p@);
            assert(kv.len() == kind_parts@.len());
            if kv.len() == 2 {
                assert(kv[1] == kind_parts@[1]@);
            }
        }
        if kind_parts.len() == 2 && contains(kind_parts[1].as_str(), "vnd") {
            MimeType::Application(MimeSubType::Vendor)
        } else {
            context.push_warning(ParseMessage::new("Unsupported MIME type".to_string()));
            MimeType::Unsupported
        }
    };
    let char_set = find_charset(&parts);
    MimeData { kind, char_set }
}

/// The status named by a response key.
pub open spec fn status_spec(s: Seq<char>) -> HTTPStatus {
    if s == "200"@ {
        HTTPStatus::OK
    } else if s == "201"@ {
        HTTPStatus::Created
    } else if s == "204"@ {
        HTTPStatus::NoContent
    } else if s == "400"@ {
        HTTPStatus::BadRequest
    } else if s == "401"@ {
        HTTPStatus::Unauthorized
    } else if s == "403"@ {
        HTTPStatus::Forbidden
    } else if s == "404"@ {
        HTTPStatus::NotFound
    } else if s == "405"@ {
        HTTPStatus::MethodNotAllowed
    } else if s == "default"@ {
        HTTPStatus::Default
    } else {
        HTTPStatus::Unsupported
    }
}

/// Reads a response key; an unknown one adds a warning.
pub fn parse_status_code(context: &mut ParseContext, status_code: &str) -> (r: HTTPStatus)
    ensures
        r == status_spec(status_code@),
        r == HTTPStatus::Unsupported ==> final(context).warnings@.len() == old(context).warnings@.len() + 1,
        r != HTTPStatus::Unsupported ==> final(context).warnings@ == old(context).warnings@,
{
    proof {
        reveal_strlit("200");
        reveal_strlit("201");
        reveal_strlit("204");
        reveal_strlit("400");
        reveal_strlit("401");
        reveal_strlit("403");
        reveal_strlit("404");
        reveal_strlit("405");
        reveal_strlit("default");
    }
    if str_eq(status_code, "200") {
        HTTPStatus::OK
    } else if str_eq(status_code, "201") {
        HTTPStatus::Created
    } else if str_eq(status_code, "204") {
        HTTPStatus::NoContent
    } else if str_eq(status_code, "400") {
        HTTPStatus::BadRequest
    } else if str_eq(status_code, "401") {
        HTTPStatus::Unauthorized
    } else if str_eq(status_code, "403") {
        HTTPStatus::Forbidden
    } else if str_eq(status_code, "404") {
        HTTPStatus::NotFound
    } else if str_eq(status_code, "405") {
        HTTPStatus::MethodNotAllowed
    } else if str_eq(status_code, "default") {
        HTTPStatus::Default
    } else {
        context.push_warning(ParseMessage::new("Unsupported status".to_string()));
        HTTPStatus::Unsupported
    }
}

/// The method named by a path item key.
pub open spec fn method_spec(s: Seq<char>) -> HTTPMethod {
    if s == "get"@ {
        HTTPMethod::GET
    } else if s == "delete"@ {
        HTTPMethod::DELETE
    } else if s == "post"@ {
        HTTPMethod::POST
    } else if s == "put"@ {
        HTTPMethod::PUT
    } else {
        HTTPMethod::Unsupported
    }
}

/// Reads a method key and records it as the place being read; an unknown
/// method adds a warning.
pub fn parse_method_str(context: &mut ParseContext, method: &str) -> (r: HTTPMethod)
    ensures
        r == method_spec(method@),
        final(context).current_method matches Some(m) && m@ == method@,
        r == HTTPMethod::Unsupported ==> final(context).warnings@.len() == old(context).warnings@.len() + 1,
        r != HTTPMethod::Unsupported ==> final(context).warnings@ == old(context).warnings@,
{
    context.current_method = Some(method.to_string());
    proof {
        reveal_strlit("get");
        reveal_strlit("delete");
        reveal_strlit("post");
        reveal_strlit("put");
    }
    if str_eq(method, "get") {
        HTTPMethod::GET
    } else if str_eq(method, "delete") {
        HTTPMethod::DELETE
    } else if str_eq(method, "post") {
        HTTPMethod::POST
    } else if str_eq(method, "put") {
        HTTPMethod::PUT
    } else {
        context.push_warning(ParseMessage::new("Unsupported method".to_string()));
        HTTPMethod::Unsupported
    }
}

} // verus!
