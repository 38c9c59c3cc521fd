//! The parts of the chat-completions protocol that the backend speaks.

use vstd::prelude::*;

verus! {

/// Who wrote a message.
#[allow(non_camel_case_types)]
#[derive(Clone, Copy, Debug, PartialEq, Eq, Structural)]
pub enum Role {
    system,
    user,
    assistant,
}

/// Why the model stopped producing a response.
#[allow(non_camel_case_types)]
#[derive(Clone, Copy, Debug, PartialEq, Eq, Structural)]
pub enum ChatCompletionFinishReason {
    stop,
    length,
    content_filter,
}

/// The number under which a role is stored: its position in declaration order.
pub open spec fn role_id(role: Role) -> u8 {
    match role {
        Role::system => 0,
        Role::user => 1,
        Role::assistant => 2,
    }
}

/// The role stored under `id`, for `id < 3`.
pub open spec fn role_of_id(id: u8) -> Role
    recommends
        id < 3,
{
    if id == 0 {
        Role::system
    } else if id == 1 {
        Role::user
    } else {
        Role::assistant
    }
}

/// The number under which a finish reason is stored: its position in declaration order.
pub open spec fn finish_reason_id(reason: ChatCompletionFinishReason) -> u8 {
    match reason {
        ChatCompletionFinishReason::stop => 0,
        ChatCompletionFinishReason::length => 1,
        ChatCompletionFinishReason::content_filter => 2,
    }
}

impl Role {
    pub fn as_id(self) -> (id: u8)
        ensures
            id == role_id(self),
    {
        match self {
            Role::system => 0,
            Role::user => 1,
            Role::assistant => 2,
        }
    }

    /// The role stored under `id`; there is none for ids from 3 on.
    pub fn from_id(id: u8) -> (role: Role)
        requires
            id < 3,
        ensures
            role == role_of_id(id),
    {
        if id == 0 {
            Role::system
        } else if id == 1 {
            Role::user
        } else {
            Role::assistant
        }
    }
}

impl ChatCompletionFinishReason {
    pub fn as_id(self) -> (id: u8)
        ensures
            id == finish_reason_id(self),
    {
        match self {
            ChatCompletionFinishReason::stop => 0,
            ChatCompletionFinishReason::length => 1,
            ChatCompletionFinishReason::content_filter => 2,
        }
    }
}

/// Decoding a stored role id gives back the role that was stored.
pub proof fn law_role_id_round_trip(role: Role)
    ensures
        role_id(role) < 3,
        role_of_id(role_id(role)) == role,
{
}

/// Encoding the role read from a valid id gives back that id.
pub proof fn law_role_of_id_round_trip(id: u8)
    requires
        id < 3,
    ensures
        role_id(role_of_id(id)) == id,
{
}

/// Distinct finish reasons are stored under distinct ids, all below 3.
pub proof fn law_finish_reason_ids_distinct(a: ChatCompletionFinishReason, b: ChatCompletionFinishReason)
    ensures
        finish_reason_id(a) < 3,
        finish_reason_id(a) == finish_reason_id(b) <==> a == b,
{
}

/// A chat message as sent to the completion service.
pub struct ChatMessage {
    pub role: Role,
    pub content: String,
}

/// A streamed completion request.
pub struct ChatCompletions {
    pub model: &'static str,
    pub messages: Vec<ChatMessage>,
    pub stream: bool,
}

/// The incremental content of one streamed choice.
pub struct ChatCompletionDelta {
    pub role: Option<Role>,
    pub content: Option<String>,
}

/// One streamed choice.
pub struct ChatCompletionChoice {
    pub delta: ChatCompletionDelta,
    pub finish_reason: Option<ChatCompletionFinishReason>,
}

/// One chunk of a streamed completion, which carries exactly one choice.
pub struct ChatCompletionChunk {
    pub choices: [ChatCompletionChoice; 1],
}

} // verus!
