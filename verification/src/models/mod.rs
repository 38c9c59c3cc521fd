//! The records that the backend stores and exchanges with its clients.

pub mod openai;

use vstd::prelude::*;
use self::openai::{ChatCompletionFinishReason, Role};
use crate::runtime::{random_bytes, text_of_utf8};
use vstd::utf8::{decode_utf8, encode_utf8, valid_utf8};

verus! {

/// A row that carries only an id.
pub struct IDObject {
    pub id: usize,
}

/// A conversation.
pub struct Chat {
    pub id: String,
    pub title: Option<String>,
}

/// A stored message of a conversation.
pub struct Message {
    pub id: usize,
    pub role: Role,
    pub content: String,
}

/// A request to open a conversation.
pub struct CreateChat {
    pub title: Option<String>,
    pub system_instruction: Option<String>,
}

/// Which branch of a conversation to read.
pub struct LoadMessagesQuery {
    pub branch: BranchID,
}

/// A message posted by the user.
pub struct PostMessage {
    pub content: String,
}

/// A new title for a conversation.
pub struct SetTitle(pub String);

/// The number of UTF-8 bytes of a text.
pub open spec fn utf8_len(text: Seq<char>) -> nat {
    vstd::utf8::encode_utf8(text).len()
}

/// The id of a branch of a conversation: six bytes, which spell its name
/// where they are valid UTF-8.
pub struct BranchID {
    bytes: [u8; 6],
}

impl View for BranchID {
    type V = Seq<u8>;

    closed spec fn view(&self) -> Seq<u8> {
        self.bytes@
    }
}

/// A branch id that was refused because it is not six bytes long.
pub struct InvalidBranchId {
    pub param: String,
}

impl BranchID {
    /// Reads a branch id from a path parameter: accepted exactly when the
    /// parameter is six bytes long, and then its bytes are those of the
    /// parameter.
    pub fn from_param(param: &str) -> (r: Result<BranchID, InvalidBranchId>)
        ensures
            r is Ok <==> utf8_len(param@) == 6,
            r matches Ok(id) ==> id@ == encode_utf8(param@),
            r matches Err(e) ==> e.param@ == param@,
    {
        let bs = param.as_bytes();
        if bs.len() == 6 {
            let bytes: [u8; 6] = [bs[0], bs[1], bs[2], bs[3], bs[4], bs[5]];
            assert(bytes@ =~= bs@);
            Ok(BranchID { bytes })
        } else {
            Err(InvalidBranchId { param: param.to_owned() })
        }
    }

    /// The branch id made of six bytes.
    pub fn from_bytes(bytes: [u8; 6]) -> (id: BranchID)
        ensures
            id@ == bytes@,
    {
        BranchID { bytes }
    }

    /// A fresh branch id of six random bytes; `None` where the runtime has
    /// no random source.
    pub fn new() -> (r: Option<BranchID>)
        ensures
            r matches Some(id) ==> id@.len() == 6,
    {
        match random_bytes() {
            Some(bytes) => Some(BranchID::from_bytes(bytes)),
            None => None,
        }
    }

    /// Whether the bytes are valid UTF-8, so that the id reads as text.
    pub fn is_text(&self) -> (r: bool)
        ensures
            r == valid_utf8(self@),
    {
        text_of_utf8(&self.bytes).is_some()
    }

    /// The id as text; its bytes must be valid UTF-8.
    pub fn as_str(&self) -> (s: &str)
        requires
            valid_utf8(self@),
        ensures
            s@ == decode_utf8(self@),
    {
        text_of_utf8(&self.bytes).unwrap()
    }
}

/// The text of the refusal of `param`.
pub open spec fn invalid_branch_id_text(param: Seq<char>) -> Seq<char> {
    "Inlvaid branch id: `"@ + param + "`"@
}

impl InvalidBranchId {
    pub fn message(&self) -> (text: String)
        ensures
            text@ == invalid_branch_id_text(self.param@),
    {
        let mut text = String::from_str("Inlvaid branch id: `");
        text.append(self.param.as_str());
        text.append("`");
        text
    }
}

/// One piece of a streamed response, as relayed to the client.
pub struct ResponseChunk {
    pub message_id: usize,
    pub response_id: usize,
    pub diff: String,
    pub finish_by: Option<ChatCompletionFinishReason>,
}

} // verus!
