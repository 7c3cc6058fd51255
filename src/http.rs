//! The shape of API replies and the client address used for rate limiting.
use vstd::prelude::*;
use crate::auth::same_text;

verus! {

/// The body of every API reply: a code, and a message or data.
pub struct ApiResult<T> {
    pub code: u32,
    pub message: Option<String>,
    pub data: Option<T>,
}

/// Builds API reply bodies.
pub struct ResBuiler;

impl ResBuiler {
    /// A success carrying `data`.
    pub fn ok<T>(data: T) -> (r: ApiResult<T>)
        ensures
            r.code == 200,
            r.message is None,
            r.data == Some(data),
    {
        ApiResult { code: 200, message: None, data: Some(data) }
    }

    /// A success with no data.
    pub fn ok_with_empty<T>() -> (r: ApiResult<T>)
        ensures
            r.code == 200,
            r.message is None,
            r.data is None,
    {
        ApiResult { code: 200, message: None, data: None }
    }

    /// A failure with the code 500 and `message`.
    pub fn fail<T>(message: &str) -> (r: ApiResult<T>)
        ensures
            r.code == 500,
            r.message is Some && r.message->Some_0@ == message@,
            r.data is None,
    {
        Self::fail_with_code(500, message)
    }

    /// A failure with `code` and `message`.
    pub fn fail_with_code<T>(code: u32, message: &str) -> (r: ApiResult<T>)
        ensures
            r.code == code,
            r.message is Some && r.message->Some_0@ == message@,
            r.data is None,
    {
        ApiResult { code, message: Some(message.to_owned()), data: None }
    }

    /// A failure sent with the HTTP status `status`, carrying `code` and `message`.
    pub fn fail_with_status<T>(status: u16, code: u32, message: &str) -> (r: (u16, ApiResult<T>))
        ensures
            r.0 == status,
            r.1.code == code,
            r.1.message is Some && r.1.message->Some_0@ == message@,
            r.1.data is None,
    {
        (status, Self::fail_with_code(code, message))
    }
}

/// The client address that a request is counted under, given the parsed
/// `X-Real-IP` header and the peer's IPv4 address.
pub open spec fn remote_ip_of(header_ip: Option<u32>, peer_v4: Option<u32>) -> u32 {
    match header_ip {
        Some(ip) => ip,
        None => match peer_v4 {
            Some(ip) => ip,
            None => 0,
        },
    }
}

/// Request logging, and the client address a request comes from.
pub struct AccessLog;

impl AccessLog {
    /// The client address a request is counted under: the address in its
    /// `X-Real-IP` header when that header holds one, else the peer's IPv4
    /// address, else `0.0.0.0` (for a peer that is not IPv4).
    pub fn get_remote_ip(header_ip: Option<u32>, peer_v4: Option<u32>) -> (r: u32)
        ensures
            r == remote_ip_of(header_ip, peer_v4),
    {
        match header_ip {
            Some(ip) => ip,
            None => match peer_v4 {
                Some(ip) => ip,
                None => 0,
            },
        }
    }
}

/// The content type served for a file extension.
pub open spec fn content_type_of(ext: Seq<char>) -> Seq<char> {
    if ext == "html"@ {
        "text/html"@
    } else if ext == "css"@ {
        "text/css"@
    } else if ext == "js"@ {
        "application/javascript"@
    } else if ext == "ico"@ {
        "image/x-icon"@
    } else if ext == "png"@ {
        "image/png"@
    } else if ext == "jpg"@ {
        "image/jpeg"@
    } else if ext == "gif"@ {
        "image/gif"@
    } else {
        "text/plain"@
    }
}

/// The content type served for a file extension; plain text for any other.
pub fn map_content_type(file_type: &str) -> (r: &'static str)
    ensures
        r@ == content_type_of(file_type@),
{
    if same_text(file_type, "html") {
        "text/html"
    } else if same_text(file_type, "css") {
        "text/css"
    } else if same_text(file_type, "js") {
        "application/javascript"
    } else if same_text(file_type, "ico") {
        "image/x-icon"
    } else if same_text(file_type, "png") {
        "image/png"
    } else if same_text(file_type, "jpg") {
        "image/jpeg"
    } else if same_text(file_type, "gif") {
        "image/gif"
    } else {
        "text/plain"
    }
}

} // verus!
