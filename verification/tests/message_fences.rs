use but_ai::coordination::messages::{fenced_messages, frame, is_coordination_comment, FenceError, SCHEMA_VERSION};

#[test]
fn plain_comments_hold_no_messages() {
    assert!(fenced_messages("just a regular PR comment").is_empty());
    assert!(!is_coordination_comment("just a regular comment"));
}

#[test]
fn framed_messages_are_found_in_order() {
    let a = frame("{\"n\": 1}");
    let b = frame("{\"n\": 2}");
    assert!(a.starts_with("```but-ai-message\n"));
    assert!(a.ends_with("\n```"));
    let comment = format!("{a}\n\nSome text\n\n{b}");
    assert!(is_coordination_comment(&comment));
    let found = fenced_messages(&comment);
    assert_eq!(found, vec![Ok("{\"n\": 1}".to_string()), Ok("{\"n\": 2}".to_string())]);
    assert_eq!(SCHEMA_VERSION, "but-ai/coordination/v1");
}

#[test]
fn unterminated_fence_stops_the_scan() {
    let found = fenced_messages("```but-ai-message\n{ \"x\": 1 }\n");
    assert_eq!(found, vec![Err(FenceError::Unterminated)]);
    assert_eq!(FenceError::Unterminated.message(), "Unterminated code fence for but-ai-message");
    let inline = fenced_messages("```but-ai-message  {}  ```");
    assert_eq!(inline, vec![Ok("{}".to_string())]);
}
