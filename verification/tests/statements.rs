use chat_worker::api::errors::ServerError;
use chat_worker::api::repository::{
    branch_messages_statement, first_branches_statement, insert_message_response_pair_statement,
    latest_branch, messages_from_records, ordered_ids, MessageRecord,
};
use chat_worker::api::statement::{Param, Statement};
use chat_worker::api::{
    completion_request, create_chat, list_chats_statement, response_chunk, save_response, set_title,
};
use chat_worker::models::openai::{
    ChatCompletionChoice, ChatCompletionChunk, ChatCompletionDelta, ChatCompletionFinishReason, Role,
};
use chat_worker::models::{BranchID, CreateChat, IDObject, Message, SetTitle};

fn text(p: &Param) -> &str {
    match p {
        Param::Text(s) => s.as_str(),
        _ => panic!("not a text"),
    }
}

fn integer(p: &Param) -> u64 {
    match p {
        Param::Integer(n) => *n,
        _ => panic!("not an integer"),
    }
}

fn sql(s: &Statement) -> &str {
    s.sql.as_str()
}

#[test]
fn list_chats_reads_ids_and_titles() {
    let s = list_chats_statement();
    assert_eq!(sql(&s), "SELECT id, title FROM chats");
    assert!(s.params.is_empty());
}

#[test]
fn create_chat_with_instruction() {
    let req = CreateChat { title: Some("T".to_string()), system_instruction: Some("Be brief.".to_string()) };
    let (statements, chat) = create_chat("id-2".to_string(), req);
    assert_eq!(statements.len(), 2);
    assert_eq!(sql(&statements[0]), "INSERT INTO chats (id, title) VALUES (?1, ?2)");
    assert_eq!(text(&statements[0].params[0]), "id-2");
    assert_eq!(text(&statements[0].params[1]), "T");
    assert_eq!(sql(&statements[1]), "INSERT INTO messages (chat_id, role_id, content) VALUES (?1, ?2, ?3)");
    assert_eq!(text(&statements[1].params[0]), "id-2");
    assert_eq!(integer(&statements[1].params[1]), 0);
    assert_eq!(text(&statements[1].params[2]), "Be brief.");
    assert_eq!(chat.title.as_deref(), Some("T"));
}

#[test]
fn create_chat_without_title_binds_undefined() {
    let req = CreateChat { title: None, system_instruction: Some(String::new()) };
    let (statements, chat) = create_chat("id-3".to_string(), req);
    assert!(matches!(statements[0].params[1], Param::Undefined));
    assert_eq!(text(&statements[1].params[2]), "");
    assert_eq!(chat.id, "id-3");
    assert_eq!(chat.title, None);
}

#[test]
fn sql_texts_keep_their_layout() {
    let s = first_branches_statement("c");
    assert_eq!(sql(&s), "SELECT branches FROM messages\n                        WHERE chat_id = ?1\n                        ORDER BY id ASC\n                        LIMIT 1\n                    ");
    let s = insert_message_response_pair_statement("c", String::new(), String::new());
    assert_eq!(sql(&s), "INSERT INTO messages (chat_id, role_id, content)\n                VALUES (?1, ?2, ?3), (?4, ?5, ?6)\n                RETURNING id");
}

#[test]
fn set_title_binds_title_then_id() {
    let s = set_title("c", SetTitle("New".to_string()));
    assert_eq!(sql(&s), "UPDATE chats SET title = ?1 WHERE id = ?2");
    assert_eq!(text(&s.params[0]), "New");
    assert_eq!(text(&s.params[1]), "c");
}

#[test]
fn insert_pair_binds_user_then_assistant() {
    let s = insert_message_response_pair_statement("c", "hi".to_string(), String::new());
    assert!(sql(&s).starts_with("INSERT INTO messages (chat_id, role_id, content)"));
    assert!(sql(&s).ends_with("RETURNING id"));
    assert_eq!(s.params.len(), 6);
    assert_eq!(text(&s.params[0]), "c");
    assert_eq!(integer(&s.params[1]), 1);
    assert_eq!(text(&s.params[2]), "hi");
    assert_eq!(text(&s.params[3]), "c");
    assert_eq!(integer(&s.params[4]), 2);
    assert_eq!(text(&s.params[5]), "");
}

#[test]
fn branch_statements() {
    let s = first_branches_statement("c");
    assert!(sql(&s).starts_with("SELECT branches FROM messages"));
    assert_eq!(text(&s.params[0]), "c");
    let branch = BranchID::from_param("abcdef").ok().unwrap();
    let s = branch_messages_statement("c", &branch);
    assert!(sql(&s).contains("instr(branches, ':' || ?2)"));
    assert_eq!(text(&s.params[1]), "abcdef");
}

#[test]
fn latest_branch_is_after_the_last_colon() {
    assert!(matches!(latest_branch(""), Ok(None)));
    assert!(matches!(latest_branch("abcdef"), Ok(None)));
    let b = latest_branch(":abcdef:ghijkl").ok().unwrap().unwrap();
    assert_eq!(b.as_str(), "ghijkl");
    match latest_branch(":abcdef:gh") {
        Err(e) => assert_eq!(e.param, "gh"),
        Ok(_) => panic!("accepted a short branch"),
    }
    match latest_branch("abcdef:") {
        Err(e) => assert_eq!(e.param, ""),
        Ok(_) => panic!("accepted an empty branch"),
    }
}

#[test]
fn records_become_messages_in_order() {
    let records = vec![
        MessageRecord { id: 3, role_id: 0, content: "sys".to_string() },
        MessageRecord { id: 5, role_id: 1, content: "q".to_string() },
        MessageRecord { id: 6, role_id: 2, content: "a".to_string() },
    ];
    let messages = messages_from_records(records).unwrap();
    assert_eq!(messages.len(), 3);
    assert_eq!((messages[0].id, messages[0].role, messages[0].content.as_str()), (3, Role::system, "sys"));
    assert_eq!((messages[1].id, messages[1].role, messages[1].content.as_str()), (5, Role::user, "q"));
    assert_eq!((messages[2].id, messages[2].role, messages[2].content.as_str()), (6, Role::assistant, "a"));
}

#[test]
fn record_with_unknown_role_is_refused() {
    let records = vec![
        MessageRecord { id: 1, role_id: 1, content: "q".to_string() },
        MessageRecord { id: 2, role_id: 3, content: "?".to_string() },
    ];
    assert!(messages_from_records(records).is_none());
}

#[test]
fn ids_come_out_smallest_first() {
    assert_eq!(ordered_ids(vec![IDObject { id: 9 }, IDObject { id: 4 }]), Some([4, 9]));
    assert_eq!(ordered_ids(vec![IDObject { id: 4 }, IDObject { id: 9 }]), Some([4, 9]));
    assert_eq!(ordered_ids(vec![IDObject { id: 4 }]), None);
    assert_eq!(ordered_ids(vec![IDObject { id: 1 }, IDObject { id: 2 }, IDObject { id: 3 }]), None);
}

#[test]
fn completion_request_streams_the_conversation() {
    let messages = vec![
        Message { id: 1, role: Role::system, content: "s".to_string() },
        Message { id: 2, role: Role::user, content: "u".to_string() },
    ];
    let r = completion_request(messages);
    assert_eq!(r.model, "gpt-4o");
    assert!(r.stream);
    assert_eq!(r.messages.len(), 2);
    assert_eq!(r.messages[0].role, Role::system);
    assert_eq!(r.messages[1].content, "u");
}

#[test]
fn response_chunk_takes_text_and_reason() {
    let chunk = ChatCompletionChunk {
        choices: [ChatCompletionChoice {
            delta: ChatCompletionDelta { role: None, content: Some("Hi".to_string()) },
            finish_reason: None,
        }],
    };
    let r = response_chunk(7, 8, chunk);
    assert_eq!((r.message_id, r.response_id, r.diff.as_str()), (7, 8, "Hi"));
    assert_eq!(r.finish_by, None);

    let chunk = ChatCompletionChunk {
        choices: [ChatCompletionChoice {
            delta: ChatCompletionDelta { role: Some(Role::assistant), content: None },
            finish_reason: Some(ChatCompletionFinishReason::stop),
        }],
    };
    let r = response_chunk(7, 8, chunk);
    assert_eq!(r.diff, "");
    assert_eq!(r.finish_by, Some(ChatCompletionFinishReason::stop));
}

#[test]
fn save_response_binds_content_reason_and_id() {
    let s = save_response("done".to_string(), ChatCompletionFinishReason::length, 42);
    assert_eq!(sql(&s), "UPDATE messages SET content = ?1, finish_reason_id = ?2\n                    WHERE id = ?3");
    assert_eq!(text(&s.params[0]), "done");
    assert_eq!(integer(&s.params[1]), 1);
    assert_eq!(integer(&s.params[2]), 42);
}

#[test]
fn every_error_is_an_internal_server_error() {
    let errors = [
        (ServerError::Worker("db".to_string()), "Worker error: db"),
        (ServerError::Fetch("net".to_string()), "Reqwest fetch failed: net"),
        (ServerError::Deserialize { msg: "bad".to_string() }, "Failed to deserialize: bad"),
        (ServerError::Serialize { msg: "worse".to_string() }, "Failed to serialize: worse"),
    ];
    for (e, text) in errors.iter() {
        assert_eq!(e.status_code(), 500);
        assert_eq!(e.message(), *text);
    }
}
