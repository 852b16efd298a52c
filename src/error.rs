//! The client's errors, and how HTTP outcomes map onto them.

use vstd::prelude::*;

verus! {

/// An error of the client.
#[derive(Clone, Debug)]
pub enum ApiError {
    /// A local failure before any I/O, such as a malformed header value.
    Internal { message: String },
    /// A failure talking to the service; `type_` names its kind.
    QwenError {
        message: String,
        type_: String,
        param: Option<String>,
        code: Option<String>,
    },
}

/// `e` is a service error of kind `kind` with message `message`.
pub open spec fn is_qwen_error(e: ApiError, message: Seq<char>, kind: Seq<char>) -> bool {
    match e {
        ApiError::QwenError { message: m, type_: t, param, code } => {
            &&& m@ == message
            &&& t@ == kind
            &&& param.is_none()
            &&& code.is_none()
        },
        _ => false,
    }
}

/// `e` is a local error with message `message`.
pub open spec fn is_internal(e: ApiError, message: Seq<char>) -> bool {
    match e {
        ApiError::Internal { message: m } => m@ == message,
        _ => false,
    }
}

/// A status in the 2xx range.
pub open spec fn success_status(status: u16) -> bool {
    200 <= status <= 299
}

/// Whether an HTTP status code reports success.
pub fn is_success(status: u16) -> (r: bool)
    ensures
        r == success_status(status),
{
    200 <= status && status <= 299
}

fn service_error(message: String, kind: &str) -> (r: ApiError)
    ensures
        is_qwen_error(r, message@, kind@),
{
    ApiError::QwenError { message, type_: String::from_str(kind), param: None, code: None }
}

/// The error for a response with status `status`, whose body text is
/// `body` (`None` where the body could not be read): none on success, else
/// an API error that carries the body text.
pub fn status_error(status: u16, body: Option<String>) -> (r: Option<ApiError>)
    ensures
        success_status(status) ==> r.is_none(),
        !success_status(status) ==> r.is_some() && is_qwen_error(
            r.unwrap(),
            match body {
                Some(b) => b@,
                None => "Unknown error"@,
            },
            "api_error"@,
        ),
{
    if is_success(status) {
        return None;
    }
    let message = match body {
        Some(b) => b,
        None => String::from_str("Unknown error"),
    };
    Some(service_error(message, "api_error"))
}

/// The error for a request that could not be delivered, or whose streaming
/// body could not be opened.
pub fn request_failed(detail: &str) -> (r: ApiError)
    ensures
        is_qwen_error(r, "Request failed: "@ + detail@, "request_failed"@),
{
    service_error(String::from_str("Request failed: ").concat(detail), "request_failed")
}

/// The error for a response body that does not have the expected shape.
pub fn parse_failed(detail: &str) -> (r: ApiError)
    ensures
        is_qwen_error(r, "Failed to parse response: "@ + detail@, "parse_error"@),
{
    service_error(String::from_str("Failed to parse response: ").concat(detail), "parse_error")
}

/// The error for a chunk that could not be read from an open stream.
pub fn stream_failed(detail: &str) -> (r: ApiError)
    ensures
        is_qwen_error(r, "Stream error: "@ + detail@, "stream_error"@),
{
    service_error(String::from_str("Stream error: ").concat(detail), "stream_error")
}

impl ApiError {
    /// The error's message.
    pub fn message(&self) -> (r: String)
        ensures
            r@ == match self {
                ApiError::Internal { message } => message@,
                ApiError::QwenError { message, .. } => message@,
            },
    {
        match self {
            ApiError::Internal { message } => message.clone(),
            ApiError::QwenError { message, .. } => message.clone(),
        }
    }
}

} // verus!
