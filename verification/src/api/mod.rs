//! What the backend decides for each request: which statements it runs,
//! what it asks the completion service, and what it answers.

pub mod errors;
pub mod repository;
pub mod statement;
pub mod utils;

use vstd::prelude::*;
use self::statement::{Param, ParamView, Statement, StatementView, optional_text};
use crate::runtime::random_uuid;
use crate::models::{Chat, CreateChat, Message, ResponseChunk, SetTitle};
use crate::models::openai::{
    ChatCompletionChunk, ChatCompletionFinishReason, ChatCompletions, ChatMessage, Role,
    finish_reason_id, role_id,
};

verus! {

/// The views of some statements.
pub open spec fn statement_views(statements: Seq<Statement>) -> Seq<StatementView> {
    statements.map_values(|s: Statement| s@)
}

/// The view of an optional text.
pub open spec fn optional_view(text: Option<String>) -> Option<Seq<char>> {
    match text {
        Some(t) => Some(t@),
        None => None,
    }
}

// ----------------------------------------------------------------------------
// Conversations
// ----------------------------------------------------------------------------

pub open spec fn list_chats_sql() -> Seq<char> {
    "SELECT id, title FROM chats"@
}

/// Reads every conversation.
pub fn list_chats_statement() -> (s: Statement)
    ensures
        s@ == (list_chats_sql(), Seq::<ParamView>::empty()),
{
    let s = Statement::new("SELECT id, title FROM chats", Vec::new());
    assert(s@.1 =~= Seq::<ParamView>::empty());
    s
}

pub open spec fn insert_chat_sql() -> Seq<char> {
    "INSERT INTO chats (id, title) VALUES (?1, ?2)"@
}

pub open spec fn insert_message_sql() -> Seq<char> {
    "INSERT INTO messages (chat_id, role_id, content) VALUES (?1, ?2, ?3)"@
}

/// The statements that open the conversation `id`, run together: the
/// conversation itself, and its system instruction as its first message.
pub open spec fn create_chat_statements(id: Seq<char>, title: Option<Seq<char>>, instruction: Seq<char>) -> Seq<StatementView> {
    seq![
        (insert_chat_sql(), seq![ParamView::Text(id), optional_text(title)]),
        (insert_message_sql(), seq![ParamView::Text(id), ParamView::Integer(role_id(Role::system) as u64), ParamView::Text(instruction)]),
    ]
}

/// Opens the conversation `id` (a fresh id) for `req`: the statements to run
/// together, and the conversation to answer with. The request must give a
/// system instruction: the statement that stores it is built in any case.
pub fn create_chat(id: String, req: CreateChat) -> (r: (Vec<Statement>, Chat))
    requires
        req.system_instruction is Some,
    ensures
        statement_views(r.0@) == create_chat_statements(id@, optional_view(req.title), req.system_instruction->0@),
        r.1.id@ == id@,
        optional_view(r.1.title) == optional_view(req.title),
        r.0@.len() == 2,
        r.0@[0].sql@ == insert_chat_sql(),
        r.0@[0].params@.len() == 2,
        r.0@[0].params@[0]@ == ParamView::Text(id@),
        req.title matches Some(t) ==> r.0@[0].params@[1]@ == ParamView::Text(t@),
        req.title is None ==> r.0@[0].params@[1]@ == ParamView::Undefined,
        r.0@[1].sql@ == insert_message_sql(),
        r.0@[1].params@.len() == 3,
        r.0@[1].params@[0]@ == ParamView::Text(id@),
        r.0@[1].params@[1]@ == ParamView::Integer(0),
        r.0@[1].params@[2]@ == ParamView::Text(req.system_instruction->0@),
{
    let mut statements: Vec<Statement> = Vec::new();
    let mut params: Vec<Param> = Vec::new();
    params.push(Param::text(id.as_str()));
    params.push(Param::optional_text(&req.title));
    let chat_row = Statement::new("INSERT INTO chats (id, title) VALUES (?1, ?2)", params);
    assert(chat_row@.1 =~= seq![ParamView::Text(id@), optional_text(optional_view(req.title))]);
    statements.push(chat_row);
    let instruction = req.system_instruction.as_ref().unwrap();
    let mut params: Vec<Param> = Vec::new();
    params.push(Param::text(id.as_str()));
    params.push(Param::Integer(Role::system.as_id() as u64));
    params.push(Param::text(instruction.as_str()));
    let message_row = Statement::new(
        "INSERT INTO messages (chat_id, role_id, content) VALUES (?1, ?2, ?3)",
        params,
    );
    assert(message_row@.1 =~= seq![
        ParamView::Text(id@), ParamView::Integer(role_id(Role::system) as u64), ParamView::Text(instruction@),
    ]);
    statements.push(message_row);
    assert(statement_views(statements@) =~= create_chat_statements(
        id@, optional_view(req.title), req.system_instruction->0@,
    ));
    (statements, Chat { id, title: req.title })
}

/// Opens a conversation for `req` under a fresh random id: the statements to
/// run together and the conversation to answer with, both under the id drawn;
/// `None` where the runtime offers no source of random ids. The request must
/// give a system instruction, as for `create_chat`.
pub fn open_chat(req: CreateChat) -> (r: Option<(Vec<Statement>, Chat)>)
    requires
        req.system_instruction is Some,
    ensures
        r matches Some((statements, chat)) ==> {
            &&& statement_views(statements@)
                == create_chat_statements(chat.id@, optional_view(req.title), req.system_instruction->0@)
            &&& optional_view(chat.title) == optional_view(req.title)
            &&& statements@.len() == 2
            &&& statements@[0].sql@ == insert_chat_sql()
            &&& statements@[0].params@.len() == 2
            &&& statements@[0].params@[0]@ == ParamView::Text(chat.id@)
            &&& (req.title matches Some(t) ==> statements@[0].params@[1]@ == ParamView::Text(t@))
            &&& (req.title is None ==> statements@[0].params@[1]@ == ParamView::Undefined)
            &&& statements@[1].sql@ == insert_message_sql()
            &&& statements@[1].params@.len() == 3
            &&& statements@[1].params@[0]@ == ParamView::Text(chat.id@)
            &&& statements@[1].params@[1]@ == ParamView::Integer(0)
            &&& statements@[1].params@[2]@ == ParamView::Text(req.system_instruction->0@)
        },
{
    match random_uuid() {
        Some(id) => Some(create_chat(id, req)),
        None => None,
    }
}

pub open spec fn set_title_sql() -> Seq<char> {
    "UPDATE chats SET title = ?1 WHERE id = ?2"@
}

/// Renames the conversation `chat_id`.
pub fn set_title(chat_id: &str, req: SetTitle) -> (s: Statement)
    ensures
        s@ == (set_title_sql(), seq![ParamView::Text(req.0@), ParamView::Text(chat_id@)]),
{
    let mut params: Vec<Param> = Vec::new();
    params.push(Param::Text(req.0));
    params.push(Param::text(chat_id));
    let s = Statement::new("UPDATE chats SET title = ?1 WHERE id = ?2", params);
    assert(s@.1 =~= seq![ParamView::Text(req.0@), ParamView::Text(chat_id@)]);
    s
}

// ----------------------------------------------------------------------------
// Posting a message
// ----------------------------------------------------------------------------

/// The model that answers.
pub open spec fn model_name() -> Seq<char> {
    "gpt-4o"@
}

/// Asks the completion service to continue the conversation `messages`,
/// streaming its answer.
pub fn completion_request(messages: Vec<Message>) -> (r: ChatCompletions)
    ensures
        r.model@ == model_name(),
        r.stream,
        r.messages@.len() == messages@.len(),
        forall|i: int| 0 <= i < messages@.len() ==> {
            &&& (#[trigger] r.messages@[i]).role == messages@[i].role
            &&& r.messages@[i].content@ == messages@[i].content@
        },
{
    let n = messages.len();
    let mut chat_messages: Vec<ChatMessage> = Vec::new();
    let mut k: usize = 0;
    while k < n
        invariant
            n == messages@.len(),
            k <= n,
            chat_messages@.len() == k,
            forall|i: int| 0 <= i < k ==> {
                &&& (#[trigger] chat_messages@[i]).role == messages@[i].role
                &&& chat_messages@[i].content@ == messages@[i].content@
            },
        decreases n - k,
    {
        let m = &messages[k];
        chat_messages.push(ChatMessage { role: m.role, content: m.content.clone() });
        k = k + 1;
    }
    ChatCompletions { model: "gpt-4o", messages: chat_messages, stream: true }
}

/// What the client is sent for one chunk of the streamed answer: its text,
/// or nothing where it carries none, and its finish reason.
pub fn response_chunk(message_id: usize, response_id: usize, chunk: ChatCompletionChunk) -> (r: ResponseChunk)
    ensures
        r.message_id == message_id,
        r.response_id == response_id,
        r.diff@ == match chunk.choices[0].delta.content {
            Some(text) => text@,
            None => Seq::<char>::empty(),
        },
        r.finish_by == chunk.choices[0].finish_reason,
{
    let choice = &chunk.choices[0];
    let diff = match &choice.delta.content {
        Some(text) => text.clone(),
        None => String::new(),
    };
    ResponseChunk { message_id, response_id, diff, finish_by: choice.finish_reason }
}

pub open spec fn save_response_sql() -> Seq<char> {
    "UPDATE messages SET content = ?1, finish_reason_id = ?2\n                    WHERE id = ?3"@
}

/// Stores the complete answer in the row reserved for it.
pub fn save_response(content: String, finish_reason: ChatCompletionFinishReason, response_id: usize) -> (s: Statement)
    ensures
        s@ == (save_response_sql(), seq![
            ParamView::Text(content@),
            ParamView::Integer(finish_reason_id(finish_reason) as u64),
            ParamView::Integer(response_id as u64),
        ]),
{
    let ghost text = content@;
    let mut params: Vec<Param> = Vec::new();
    params.push(Param::Text(content));
    params.push(Param::Integer(finish_reason.as_id() as u64));
    params.push(Param::Integer(response_id as u64));
    let s = Statement::new("UPDATE messages SET content = ?1, finish_reason_id = ?2\n                    WHERE id = ?3", params);
    assert(s@.1 =~= seq![
        ParamView::Text(text),
        ParamView::Integer(finish_reason_id(finish_reason) as u64),
        ParamView::Integer(response_id as u64),
    ]);
    s
}

} // verus!
