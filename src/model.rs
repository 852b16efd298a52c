//! Data exchanged with the chat-completion service.

use vstd::prelude::*;

verus! {

/// The kind of participant that wrote a message.
#[derive(Clone, Copy, Debug, PartialEq, Eq, Structural)]
pub enum Role {
    System,
    User,
    Assistant,
}

/// One turn of a conversation.
#[derive(Clone, Debug)]
pub struct Message {
    pub role: Role,
    pub content: String,
}

/// A message in the service's own vocabulary; in a stream event it is a
/// partial fragment (a delta) whose fields may be absent.
#[derive(Clone, Debug)]
pub struct QwenMessage {
    pub role: Option<String>,
    pub content: Option<String>,
}

/// Token counters reported by the service.
#[derive(Clone, Copy, Debug, PartialEq, Eq, Structural)]
pub struct Usage {
    pub prompt_tokens: u32,
    pub completion_tokens: u32,
    pub total_tokens: u32,
}

/// One alternative of a complete response.
#[derive(Clone, Debug)]
pub struct Choice {
    pub index: i32,
    pub message: Message,
    pub finish_reason: Option<String>,
}

/// The complete answer to a non-streaming request.
#[derive(Clone, Debug)]
pub struct QwenResponse {
    pub id: String,
    pub object: String,
    pub created: i64,
    pub model: String,
    pub choices: Vec<Choice>,
    pub usage: Usage,
}

/// One alternative of a stream event, carrying a delta.
#[derive(Debug)]
pub struct StreamChoice {
    pub index: i32,
    pub delta: QwenMessage,
    pub finish_reason: Option<String>,
    pub logprobs: Option<String>,
}

/// An event of a streamed response: a data event, or the terminal marker
/// that ends the stream.
#[derive(Debug)]
pub enum StreamEvent {
    Message {
        id: String,
        object: String,
        created: i64,
        model: String,
        choices: Vec<StreamChoice>,
        usage: Option<Usage>,
        system_fingerprint: Option<String>,
    },
    Terminal,
}

/// An error object as the service may send it inside a stream.
#[derive(Debug)]
pub struct StreamError {
    pub message: String,
    pub code: String,
}

} // verus!
