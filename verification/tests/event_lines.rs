use chat_worker::api::utils::EventLineSplitter;

#[test]
fn whole_events_in_one_chunk() {
    let mut splitter = EventLineSplitter::new();
    let lines = splitter.feed("data: {\"a\":1}\n\ndata: [DONE]\n\n").unwrap();
    assert_eq!(lines, vec!["{\"a\":1}".to_string(), "[DONE]".to_string()]);
}

#[test]
fn empty_chunk_gives_nothing() {
    let mut splitter = EventLineSplitter::new();
    assert_eq!(splitter.feed("").unwrap(), Vec::<String>::new());
}

#[test]
fn event_cut_after_its_prefix_is_reassembled() {
    let mut splitter = EventLineSplitter::new();
    assert_eq!(splitter.feed("data: {\"content\":\"Hel").unwrap(), Vec::<String>::new());
    let lines = splitter.feed("lo\"}\n\ndata: x\n\n").unwrap();
    assert_eq!(lines, vec!["{\"content\":\"Hello\"}".to_string(), "x".to_string()]);
}

#[test]
fn data_line_with_line_break_inside() {
    let mut splitter = EventLineSplitter::new();
    let lines = splitter.feed("data: a\nb\n\n").unwrap();
    assert_eq!(lines, vec!["a\nb".to_string()]);
}

#[test]
fn unterminated_line_loses_its_last_two_bytes() {
    let mut splitter = EventLineSplitter::new();
    assert!(splitter.feed("data: abc").unwrap().is_empty());
    // the held-back text and the piece are emitted together, cut by two bytes
    assert_eq!(splitter.feed("def").unwrap(), vec!["abcd".to_string()]);
    // nothing is held back any more
    assert_eq!(splitter.feed("gh\n\n").unwrap(), vec!["gh".to_string()]);
}

#[test]
fn line_of_one_byte_stays_whole() {
    let mut splitter = EventLineSplitter::new();
    assert_eq!(splitter.feed("x").unwrap(), vec!["x".to_string()]);
}

#[test]
fn cut_removes_a_two_byte_character() {
    let mut splitter = EventLineSplitter::new();
    assert_eq!(splitter.feed("ab\u{e9}").unwrap(), vec!["ab".to_string()]);
}

#[test]
fn cut_inside_a_character_is_refused_and_changes_nothing() {
    let mut splitter = EventLineSplitter::new();
    assert!(splitter.feed("data: abc").unwrap().is_empty());
    // a three-byte character last: the cut would fall inside it
    assert!(splitter.feed("d\u{20ac}").is_none());
    // a one-byte character after a two-byte one
    assert!(splitter.feed("\u{e9}x").is_none());
    // the held-back text is still there
    assert_eq!(splitter.feed("def\n\n").unwrap(), vec!["abcdef".to_string()]);
}

#[test]
fn multibyte_text_is_kept_whole() {
    let mut splitter = EventLineSplitter::new();
    let lines = splitter.feed("data: h\u{e9}llo \u{1f600}\n\n").unwrap();
    assert_eq!(lines, vec!["h\u{e9}llo \u{1f600}".to_string()]);
}

#[test]
fn raw_chunks_are_read_as_utf8_text() {
    let mut splitter = EventLineSplitter::new();
    let lines = splitter.feed_bytes("data: caf\u{e9}\n\n".as_bytes()).unwrap();
    assert_eq!(lines, vec!["caf\u{e9}".to_string()]);
}

#[test]
fn raw_chunk_that_is_no_utf8_is_refused_and_changes_nothing() {
    let mut splitter = EventLineSplitter::new();
    assert!(splitter.feed_bytes(b"data: ab").unwrap().is_empty());
    assert!(splitter.feed_bytes(&[b'c', 0xff, b'\n', b'\n']).is_none());
    assert_eq!(splitter.feed_bytes(b"c\n\n").unwrap(), vec!["abc".to_string()]);
}
