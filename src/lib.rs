//! Client library for a hosted chat-completion service.
//!
//! The verified parts are the request composer, the header builder, the
//! classification of HTTP outcomes and, at the core, the incremental parser
//! that turns an arbitrarily chunked event stream into frames.

pub mod error;
pub mod headers;
pub mod model;
pub mod request;
pub mod stream;

pub use error::ApiError;
pub use headers::build_headers;
pub use model::{
    Choice, Message, QwenMessage, QwenResponse, Role, StreamChoice, StreamError, StreamEvent,
    Usage,
};
pub use request::{build_request, ApiConfig, FieldValue, QwenRequest};
pub use stream::{collect_events, Frame, FrameView, StreamParser};
