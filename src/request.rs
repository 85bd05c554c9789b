use vstd::prelude::*;

verus! {

/// The request method.
#[derive(Clone, Copy, Debug, PartialEq, Eq, Structural)]
pub enum Method {
    Post,
    Put,
    Get,
    Delete,
}

impl Method {
    /// The method's token as it stands on the request line.
    pub fn as_str(&self) -> (r: &'static str)
        ensures
            r == method_token(*self),
    {
        match self {
            Method::Post => "POST",
            Method::Put => "PUT",
            Method::Get => "GET",
            Method::Delete => "DELETE",
        }
    }
}

/// The token of a method on the request line.
pub open spec fn method_token(m: Method) -> &'static str {
    match m {
        Method::Post => "POST",
        Method::Put => "PUT",
        Method::Get => "GET",
        Method::Delete => "DELETE",
    }
}

/// The media type of a request payload.
#[derive(Clone, Copy, Debug, PartialEq, Eq, Structural)]
pub enum ContentType {
    TextPlain,
    ApplicationJson,
    ApplicationCbor,
    ApplicationOctetStream,
}

impl ContentType {
    /// The media type as it stands in a `Content-Type` header.
    pub fn as_str(&self) -> (r: &'static str)
        ensures
            r == content_type_token(*self),
    {
        match self {
            ContentType::TextPlain => "text/plain",
            ContentType::ApplicationJson => "application/json",
            ContentType::ApplicationCbor => "application/cbor",
            ContentType::ApplicationOctetStream => "application/octet-stream",
        }
    }
}

/// The text of a media type in a `Content-Type` header.
pub open spec fn content_type_token(c: ContentType) -> &'static str {
    match c {
        ContentType::TextPlain => "text/plain",
        ContentType::ApplicationJson => "application/json",
        ContentType::ApplicationCbor => "application/cbor",
        ContentType::ApplicationOctetStream => "application/octet-stream",
    }
}

/// Credentials sent with a request.
#[derive(Clone, Copy, Debug)]
pub enum Auth<'a> {
    /// Basic credentials, sent as the base64 of `username:password`.
    Basic { username: &'a str, password: &'a str },
}

/// A request to encode on a connection. Everything is borrowed from the caller.
#[derive(Clone, Copy, Debug)]
pub struct Request<'a> {
    pub method: Method,
    /// The request target; `/` when absent.
    pub path: Option<&'a str>,
    pub auth: Option<Auth<'a>>,
    pub content_type: Option<ContentType>,
    pub payload: Option<&'a [u8]>,
    /// Further header fields, written in order after the others.
    pub extra_headers: Option<&'a [(&'a str, &'a str)]>,
}

impl<'a> Request<'a> {
    /// A request with the given method and nothing else set.
    pub fn new(method: Method) -> (r: Request<'a>)
        ensures
            r.method == method,
            r.path is None,
            r.auth is None,
            r.content_type is None,
            r.payload is None,
            r.extra_headers is None,
    {
        Request {
            method,
            path: None,
            auth: None,
            content_type: None,
            payload: None,
            extra_headers: None,
        }
    }
}

/// The response status. Codes outside this set are read as `BadRequest`.
#[derive(Clone, Copy, Debug, PartialEq, Eq, Structural)]
pub enum Status {
    Okay,
    Created,
    Accepted,
    NoContent,
    MovedPermanently,
    Found,
    SeeOther,
    NotModified,
    BadRequest,
    Unauthorized,
    Forbidden,
    NotFound,
    MethodNotAllowed,
    Conflict,
    UnsupportedMediaType,
    InternalServerError,
    ServiceUnavailable,
}

/// The numeric code of a status.
pub open spec fn status_code(s: Status) -> u32 {
    match s {
        Status::Okay => 200,
        Status::Created => 201,
        Status::Accepted => 202,
        Status::NoContent => 204,
        Status::MovedPermanently => 301,
        Status::Found => 302,
        Status::SeeOther => 303,
        Status::NotModified => 304,
        Status::BadRequest => 400,
        Status::Unauthorized => 401,
        Status::Forbidden => 403,
        Status::NotFound => 404,
        Status::MethodNotAllowed => 405,
        Status::Conflict => 409,
        Status::UnsupportedMediaType => 415,
        Status::InternalServerError => 500,
        Status::ServiceUnavailable => 503,
    }
}

/// The status for a numeric code: the one that has this code, else `BadRequest`.
pub open spec fn status_of(code: u32) -> Status {
    if code == 200 {
        Status::Okay
    } else if code == 201 {
        Status::Created
    } else if code == 202 {
        Status::Accepted
    } else if code == 204 {
        Status::NoContent
    } else if code == 301 {
        Status::MovedPermanently
    } else if code == 302 {
        Status::Found
    } else if code == 303 {
        Status::SeeOther
    } else if code == 304 {
        Status::NotModified
    } else if code == 401 {
        Status::Unauthorized
    } else if code == 403 {
        Status::Forbidden
    } else if code == 404 {
        Status::NotFound
    } else if code == 405 {
        Status::MethodNotAllowed
    } else if code == 409 {
        Status::Conflict
    } else if code == 415 {
        Status::UnsupportedMediaType
    } else if code == 500 {
        Status::InternalServerError
    } else if code == 503 {
        Status::ServiceUnavailable
    } else {
        Status::BadRequest
    }
}

impl Status {
    /// The numeric code of this status.
    pub fn code(&self) -> (r: u32)
        ensures
            r == status_code(*self),
    {
        match self {
            Status::Okay => 200,
            Status::Created => 201,
            Status::Accepted => 202,
            Status::NoContent => 204,
            Status::MovedPermanently => 301,
            Status::Found => 302,
            Status::SeeOther => 303,
            Status::NotModified => 304,
            Status::BadRequest => 400,
            Status::Unauthorized => 401,
            Status::Forbidden => 403,
            Status::NotFound => 404,
            Status::MethodNotAllowed => 405,
            Status::Conflict => 409,
            Status::UnsupportedMediaType => 415,
            Status::InternalServerError => 500,
            Status::ServiceUnavailable => 503,
        }
    }

    /// The status for a numeric code; a code outside the supported set gives `BadRequest`.
    pub fn from_code(code: u32) -> (r: Status)
        ensures
            r == status_of(code),
            status_code(r) == code || r == Status::BadRequest,
    {
        match code {
            200 => Status::Okay,
            201 => Status::Created,
            202 => Status::Accepted,
            204 => Status::NoContent,
            301 => Status::MovedPermanently,
            302 => Status::Found,
            303 => Status::SeeOther,
            304 => Status::NotModified,
            401 => Status::Unauthorized,
            403 => Status::Forbidden,
            404 => Status::NotFound,
            405 => Status::MethodNotAllowed,
            409 => Status::Conflict,
            415 => Status::UnsupportedMediaType,
            500 => Status::InternalServerError,
            503 => Status::ServiceUnavailable,
            _ => Status::BadRequest,
        }
    }
}

/// Reading a supported status's own code gives that status back.
pub proof fn lemma_status_code_round_trip(s: Status)
    ensures
        status_of(status_code(s)) == s,
{
}

/// A decoded response. The payload is a view into the caller's receive buffer.
#[derive(Debug)]
pub struct Response<'a> {
    pub status: Status,
    /// The value of the `Content-Type` header, leading whitespace removed.
    pub content_type: Option<String>,
    /// The payload bytes, `None` when `Content-Length` is zero or absent.
    pub payload: Option<&'a [u8]>,
}

} // verus!
