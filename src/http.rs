//! The HTTP vocabulary shared by the operation model and the transport.
use vstd::prelude::*;

verus! {

/// Status codes that the engine recognises; anything else is `Unsupported`.
#[derive(Debug, Clone, Copy, PartialEq, Eq, Structural)]
pub enum HTTPStatus {
    OK,
    Created,
    NoContent,
    BadRequest,
    Unauthorized,
    Forbidden,
    NotFound,
    MethodNotAllowed,
    UnsupportedMediaType,
    InternalServerError,
    Default,
    Unsupported,
}

/// The text of a status: its code, or `Default` / `Unsupported`.
pub open spec fn status_text(s: HTTPStatus) -> Seq<char> {
    match s {
        HTTPStatus::OK => "200"@,
        HTTPStatus::Created => "201"@,
        HTTPStatus::NoContent => "204"@,
        HTTPStatus::BadRequest => "400"@,
        HTTPStatus::Unauthorized => "401"@,
        HTTPStatus::Forbidden => "403"@,
        HTTPStatus::NotFound => "404"@,
        HTTPStatus::MethodNotAllowed => "405"@,
        HTTPStatus::UnsupportedMediaType => "415"@,
        HTTPStatus::InternalServerError => "500"@,
        HTTPStatus::Default => "Default"@,
        HTTPStatus::Unsupported => "Unsupported"@,
    }
}

/// The status of a numeric HTTP code; codes the engine does not recognise
/// are `Unsupported`.
pub open spec fn status_of_code(code: u16) -> HTTPStatus {
    if code == 200 {
        HTTPStatus::OK
    } else if code == 201 {
        HTTPStatus::Created
    } else if code == 204 {
        HTTPStatus::NoContent
    } else if code == 400 {
        HTTPStatus::BadRequest
    } else if code == 401 {
        HTTPStatus::Unauthorized
    } else if code == 403 {
        HTTPStatus::Forbidden
    } else if code == 404 {
        HTTPStatus::NotFound
    } else if code == 405 {
        HTTPStatus::MethodNotAllowed
    } else if code == 415 {
        HTTPStatus::UnsupportedMediaType
    } else if code == 500 {
        HTTPStatus::InternalServerError
    } else {
        HTTPStatus::Unsupported
    }
}

impl HTTPStatus {
    /// The status of a numeric HTTP code.
    pub fn from_code(code: u16) -> (r: HTTPStatus)
        ensures
            r == status_of_code(code),
    {
        match code {
            200 => HTTPStatus::OK,
            201 => HTTPStatus::Created,
            204 => HTTPStatus::NoContent,
            400 => HTTPStatus::BadRequest,
            401 => HTTPStatus::Unauthorized,
            403 => HTTPStatus::Forbidden,
            404 => HTTPStatus::NotFound,
            405 => HTTPStatus::MethodNotAllowed,
            415 => HTTPStatus::UnsupportedMediaType,
            500 => HTTPStatus::InternalServerError,
            _ => HTTPStatus::Unsupported,
        }
    }

    /// The text of the status, as displayed.
    pub fn to_text(&self) -> (r: String)
        ensures
            r@ == status_text(*self),
    {
        proof {
            reveal_strlit("200");
            reveal_strlit("201");
            reveal_strlit("204");
            reveal_strlit("400");
            reveal_strlit("401");
            reveal_strlit("403");
            reveal_strlit("404");
            reveal_strlit("405");
            reveal_strlit("415");
            reveal_strlit("500");
            reveal_strlit("Default");
            reveal_strlit("Unsupported");
        }
        match self {
            HTTPStatus::OK => "200".to_string(),
            HTTPStatus::Created => "201".to_string(),
            HTTPStatus::NoContent => "204".to_string(),
            HTTPStatus::BadRequest => "400".to_string(),
            HTTPStatus::Unauthorized => "401".to_string(),
            HTTPStatus::Forbidden => "403".to_string(),
            HTTPStatus::NotFound => "404".to_string(),
            HTTPStatus::MethodNotAllowed => "405".to_string(),
            HTTPStatus::UnsupportedMediaType => "415".to_string(),
            HTTPStatus::InternalServerError => "500".to_string(),
            HTTPStatus::Default => "Default".to_string(),
            HTTPStatus::Unsupported => "Unsupported".to_string(),
        }
    }
}

#[derive(Debug, Clone, Copy, PartialEq, Eq, Structural)]
#[allow(non_camel_case_types)]
pub enum CharacterSet {
    UTF_8,
}

#[derive(Debug, Clone, Copy, PartialEq, Eq, Structural)]
pub enum MimeSubType {
    Json,
    XML,
    Vendor,
}

#[derive(Debug, Clone, Copy, PartialEq, Eq, Structural)]
pub enum MultipartSubType {
    FormData,
}

/// The top-level kind of a MIME type.
#[derive(Debug, Clone, Copy, PartialEq, Eq, Structural)]
pub enum MimeType {
    Application(MimeSubType),
    Multipart(MultipartSubType),
    Unspecified,
    Unsupported,
}

#[derive(Debug, Clone, Copy, PartialEq, Eq, Structural)]
pub struct MimeData {
    pub kind: MimeType,
    pub char_set: Option<CharacterSet>,
}

impl MimeData {
    pub fn new(kind: MimeType, char_set: Option<CharacterSet>) -> (r: Self)
        ensures
            r.kind == kind,
            r.char_set == char_set,
    {
        MimeData { kind, char_set }
    }
}

#[derive(Debug, Clone, Copy, PartialEq, Eq, Structural)]
pub enum HTTPMethod {
    GET,
    DELETE,
    POST,
    PUT,
    Unsupported,
}

/// Where a parameter travels in a request.
#[derive(Debug, Clone, Copy, PartialEq, Eq, Structural)]
pub enum HTTPParameterTarget {
    Path,
    FormData,
    Query,
    Body,
    Unsupported,
}

#[derive(Debug, Clone, Copy, PartialEq, Eq, Structural)]
pub enum Protocol {
    HTTP,
    HTTPS,
}

/// The URL prefix of a protocol.
pub open spec fn protocol_prefix(p: Protocol) -> Seq<char> {
    match p {
        Protocol::HTTP => seq!['h', 't', 't', 'p', ':', '/', '/'],
        Protocol::HTTPS => seq!['h', 't', 't', 'p', 's', ':', '/', '/'],
    }
}

impl Protocol {
    /// The URL prefix of the protocol (`http://` or `https://`).
    pub fn prefix(&self) -> (r: String)
        ensures
            r@ == protocol_prefix(*self),
    {
        match self {
            Protocol::HTTP => {
                let r = "http://".to_string();
                proof {
                    reveal_strlit("http://");
                    assert(r@ =~= protocol_prefix(*self));
                }
                r
            },
            Protocol::HTTPS => {
                let r = "https://".to_string();
                proof {
                    reveal_strlit("https://");
                    assert(r@ =~= protocol_prefix(*self));
                }
                r
            },
        }
    }
}

/// Where the system under test listens.
#[derive(Debug, Clone)]
pub struct HTTPConfiguration {
    pub base_url: String,
    pub port: u16,
    pub protocol: Protocol,
}

impl HTTPConfiguration {
    pub fn new(base_url: String, port: u16, protocol: Protocol) -> (r: Self)
        ensures
            r.base_url == base_url,
            r.port == port,
            r.protocol == protocol,
    {
        Self { base_url, port, protocol }
    }
}

/// The materialised parameters of one call: the final URL and the key/value
/// maps for form data, file data and the JSON body, in insertion order with
/// unique keys.
#[derive(Debug, Clone, PartialEq)]
pub struct HTTPParameters {
    pub url: String,
    pub form_data: Option<Vec<(String, String)>>,
    pub file_data: Option<Vec<(String, String)>>,
    pub body: Option<Vec<(String, String)>>,
}

#[derive(Debug, Clone, PartialEq)]
pub struct HTTPCall {
    pub url: String,
    pub method: HTTPMethod,
    pub parameters: HTTPParameters,
}

/// What the transport hands back for one call.
#[derive(Debug, Clone, PartialEq)]
pub struct HTTPResult {
    pub status: HTTPStatus,
    pub payload: String,
    pub success: bool,
}

} // verus!
