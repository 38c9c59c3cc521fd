use chat_worker::api::utils::ChatResponseBuffer;
use chat_worker::models::openai::ChatCompletionFinishReason;
use chat_worker::models::ResponseChunk;

fn chunk(diff: &str, finish_by: Option<ChatCompletionFinishReason>) -> ResponseChunk {
    ResponseChunk { message_id: 1, response_id: 2, diff: diff.to_string(), finish_by }
}

#[test]
fn fresh_buffer_is_pending() {
    let mut buffer = ChatResponseBuffer::new();
    assert!(buffer.poll_complete().is_none());
}

#[test]
fn buffer_collects_chunks_until_finished() {
    let mut buffer = ChatResponseBuffer::new();
    buffer.push(&chunk("Hel", None));
    assert!(buffer.poll_complete().is_none());
    buffer.push(&chunk("lo, ", None));
    buffer.push(&chunk("world", Some(ChatCompletionFinishReason::stop)));
    let (text, reason) = buffer.poll_complete().unwrap();
    assert_eq!(text, "Hello, world");
    assert_eq!(reason, ChatCompletionFinishReason::stop);
}

#[test]
fn completion_empties_the_text_but_keeps_the_reason() {
    let mut buffer = ChatResponseBuffer::new();
    buffer.push(&chunk("abc", Some(ChatCompletionFinishReason::length)));
    assert_eq!(buffer.poll_complete().unwrap().0, "abc");
    let (text, reason) = buffer.poll_complete().unwrap();
    assert_eq!(text, "");
    assert_eq!(reason, ChatCompletionFinishReason::length);
}

#[test]
fn last_chunk_decides_the_finish_reason() {
    let mut buffer = ChatResponseBuffer::new();
    buffer.push(&chunk("a", Some(ChatCompletionFinishReason::content_filter)));
    buffer.push(&chunk("b", None));
    assert!(buffer.poll_complete().is_none());
}
