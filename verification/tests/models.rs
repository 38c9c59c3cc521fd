use chat_worker::models::openai::{ChatCompletionFinishReason, Role};
use chat_worker::models::BranchID;

#[test]
fn role_ids_follow_declaration_order() {
    assert_eq!(Role::system.as_id(), 0);
    assert_eq!(Role::user.as_id(), 1);
    assert_eq!(Role::assistant.as_id(), 2);
}

#[test]
fn role_id_round_trip() {
    for role in [Role::system, Role::user, Role::assistant] {
        assert_eq!(Role::from_id(role.as_id()), role);
    }
    for id in 0u8..3 {
        assert_eq!(Role::from_id(id).as_id(), id);
    }
}

#[test]
fn finish_reason_ids_are_distinct() {
    assert_eq!(ChatCompletionFinishReason::stop.as_id(), 0);
    assert_eq!(ChatCompletionFinishReason::length.as_id(), 1);
    assert_eq!(ChatCompletionFinishReason::content_filter.as_id(), 2);
}

#[test]
fn branch_id_of_six_bytes_is_accepted() {
    let id = BranchID::from_param("abc123").ok().unwrap();
    assert_eq!(id.as_str(), "abc123");
}

#[test]
fn branch_id_counts_bytes_not_characters() {
    // three two-byte characters
    let id = BranchID::from_param("\u{e9}\u{e9}\u{e9}").ok().unwrap();
    assert_eq!(id.as_str(), "\u{e9}\u{e9}\u{e9}");
    // six characters, seven bytes
    assert!(BranchID::from_param("abcde\u{e9}").is_err());
}

#[test]
fn branch_id_of_other_length_is_refused() {
    for param in ["", "abc", "abcdefg"] {
        match BranchID::from_param(param) {
            Ok(_) => panic!("accepted {param}"),
            Err(e) => {
                assert_eq!(e.param, param);
                assert_eq!(e.message(), format!("Inlvaid branch id: `{param}`"));
            }
        }
    }
}

#[test]
fn branch_id_from_utf8_bytes() {
    let id = BranchID::from_bytes(*b"q1w2e3");
    assert!(id.is_text());
    assert_eq!(id.as_str(), "q1w2e3");
    let id = BranchID::from_bytes([0xc3, 0xa9, b'a', b'b', b'c', b'd']);
    assert!(id.is_text());
    assert_eq!(id.as_str(), "\u{e9}abcd");
}

#[test]
fn branch_id_of_bytes_that_are_no_text() {
    assert!(!BranchID::from_bytes([0xff, b'a', b'b', b'c', b'd', b'e']).is_text());
    // a two-byte character cut in half at the end
    assert!(!BranchID::from_bytes([b'a', b'b', b'c', b'd', b'e', 0xc3]).is_text());
}
