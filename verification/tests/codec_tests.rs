use patina_core::codec::{
    decode_message, decode_metadata, encode_message, encode_metadata, split_complete_lines,
};
use patina_core::ids::{format_id, parse_id};
use patina_core::state::{ChatMessage, MessageRole, ToolCall, ToolCallStatus};
use patina_core::store::TranscriptStore;

#[test]
fn id_text_round_trips() {
    let id: u128 = 0x550e8400e29b41d4a716446655440000;
    let text = format_id(id);
    assert_eq!(text, "550e8400-e29b-41d4-a716-446655440000");
    assert_eq!(parse_id(&text), Some(id));
    assert_eq!(parse_id("not-an-id"), None);
    assert_eq!(parse_id("550e8400e29b41d4a716446655440000"), None);
    assert_eq!(format_id(0), "00000000-0000-0000-0000-000000000000");
    assert_eq!(parse_id("00000000-0000-0000-0000-000000000000"), Some(0));
}

#[test]
fn message_lines_round_trip() {
    let message = ChatMessage::new(MessageRole::User, "plain content");
    let line = encode_message(&message);
    let back = decode_message(&line).expect("decodes");
    assert_eq!(back.id, message.id);
    assert_eq!(back.role, message.role);
    assert_eq!(back.content, message.content);
    assert_eq!(back.created_at, message.created_at);
    assert!(back.tool_calls.is_empty());
}

#[test]
fn escaped_content_round_trips() {
    let tricky = "quotes \" backslash \\ newline \n tab \t bell \u{7} unicode \u{2026}";
    let message = ChatMessage::new(MessageRole::Assistant, tricky);
    let line = encode_message(&message);
    assert!(!line.contains('\n'), "a line must not contain a raw newline");
    let back = decode_message(&line).expect("decodes");
    assert_eq!(back.content, tricky);
}

#[test]
fn tool_calls_round_trip() {
    let mut message = ChatMessage::new(MessageRole::Tool, "ran a tool");
    let mut call = ToolCall::new("search", "{\"q\":\"weather\"}");
    call.status = ToolCallStatus::Completed;
    call.response = Some("sunny".into());
    let plain = ToolCall::new("noop", "");
    message.tool_calls.push(call);
    message.tool_calls.push(plain);

    let line = encode_message(&message);
    let back = decode_message(&line).expect("decodes");
    assert_eq!(back.tool_calls.len(), 2);
    assert_eq!(back.tool_calls[0].name, "search");
    assert_eq!(back.tool_calls[0].arguments, "{\"q\":\"weather\"}");
    assert_eq!(back.tool_calls[0].status, ToolCallStatus::Completed);
    assert_eq!(back.tool_calls[0].response.as_deref(), Some("sunny"));
    assert_eq!(back.tool_calls[1].name, "noop");
    assert_eq!(back.tool_calls[1].status, ToolCallStatus::Pending);
    assert!(back.tool_calls[1].response.is_none());
}

#[test]
fn encoded_lines_are_valid_json() {
    let mut message = ChatMessage::new(MessageRole::User, "cross-check \"escapes\"\nsecond line");
    message.tool_calls.push(ToolCall::new("lookup", "args"));
    let line = encode_message(&message);
    let value: serde_json::Value = serde_json::from_str(&line).expect("line parses as JSON");
    assert_eq!(value["id"].as_str().unwrap(), format_id(message.id));
    assert_eq!(value["role"].as_str().unwrap(), "user");
    assert_eq!(
        value["content"].as_str().unwrap(),
        "cross-check \"escapes\"\nsecond line"
    );
    assert_eq!(
        value["created_at"].as_i64().unwrap(),
        message.created_at
    );
    assert_eq!(value["tool_calls"].as_array().unwrap().len(), 1);
    assert_eq!(
        value["tool_calls"][0]["name"].as_str().unwrap(),
        "lookup"
    );
}

#[test]
fn metadata_round_trips() {
    let contents = encode_metadata("My chat \u{2026} with \"quotes\"");
    let title = decode_metadata(&contents).expect("decodes");
    assert_eq!(title, "My chat \u{2026} with \"quotes\"");
    let value: serde_json::Value = serde_json::from_str(&contents).expect("valid JSON");
    assert_eq!(
        value["title"].as_str().unwrap(),
        "My chat \u{2026} with \"quotes\""
    );
    assert_eq!(decode_metadata("{\"title\":}"), None);
}

#[test]
fn malformed_lines_are_rejected() {
    assert!(decode_message("").is_none());
    assert!(decode_message("{}").is_none());
    assert!(decode_message("{\"id\":\"zz\"}").is_none());
    let good = encode_message(&ChatMessage::new(MessageRole::User, "x"));
    let mut truncated = good.clone();
    truncated.pop();
    assert!(decode_message(&truncated).is_none());
    let padded = format!("{} ", good);
    assert!(decode_message(&padded).is_none());
}

#[test]
fn complete_lines_drop_the_unterminated_tail() {
    let lines = split_complete_lines("one\ntwo\npartial");
    assert_eq!(lines, vec!["one".to_string(), "two".to_string()]);
    let none = split_complete_lines("no newline at all");
    assert!(none.is_empty());
    let trailing = split_complete_lines("a\nb\n");
    assert_eq!(trailing, vec!["a".to_string(), "b".to_string()]);
}

#[test]
fn replay_skips_blank_lines_and_ignores_torn_tail() {
    let m1 = ChatMessage::new(MessageRole::User, "hello");
    let m2 = ChatMessage::new(MessageRole::Assistant, "answer");
    let mut text = String::new();
    text.push_str(&encode_message(&m1));
    text.push('\n');
    text.push_str("   \n");
    text.push_str(&encode_message(&m2));
    text.push('\n');
    text.push_str("{\"id\":\"torn");

    let conversation =
        TranscriptStore::replay_conversation(&format_id(7), &text, None).expect("replays");
    assert_eq!(conversation.id, 7);
    assert_eq!(conversation.messages.len(), 2);
    assert_eq!(conversation.messages[0].content, "hello");
    assert_eq!(conversation.messages[1].content, "answer");
    assert_eq!(conversation.title, "hello");
}

#[test]
fn replay_fails_on_a_malformed_middle_line() {
    let m1 = ChatMessage::new(MessageRole::User, "hello");
    let mut text = String::new();
    text.push_str("garbage that is not a message\n");
    text.push_str(&encode_message(&m1));
    text.push('\n');
    assert!(TranscriptStore::replay_conversation(&format_id(7), &text, None).is_none());
}

#[test]
fn metadata_overrides_the_derived_title() {
    let m1 = ChatMessage::new(MessageRole::User, "derived title material");
    let mut text = String::new();
    text.push_str(&encode_message(&m1));
    text.push('\n');
    let meta = encode_metadata("Stored title");
    let conversation =
        TranscriptStore::replay_conversation(&format_id(9), &text, Some(&meta)).expect("replays");
    assert_eq!(conversation.title, "Stored title");

    let broken = String::from("not metadata");
    let fallback = TranscriptStore::replay_conversation(&format_id(9), &text, Some(&broken))
        .expect("replays");
    assert_eq!(fallback.title, "derived title material");
}

#[test]
fn store_paths_follow_the_layout() {
    let store = TranscriptStore::new("root/.patina");
    assert_eq!(store.root(), "root/.patina");
    let id: u128 = 3;
    assert_eq!(
        store.transcript_path(id),
        format!("root/.patina/conversations/{}.jsonl", format_id(id))
    );
    assert_eq!(
        store.metadata_path(id),
        format!("root/.patina/conversations/{}.meta.json", format_id(id))
    );
}

#[test]
fn snippet_cuts_at_the_limit() {
    assert_eq!(patina_core::state::snippet("  hello world  "), "hello world");
    let long41 = "a".repeat(41);
    assert_eq!(patina_core::state::snippet(&long41), long41);
    let long42 = "b".repeat(42);
    let cut = patina_core::state::snippet(&long42);
    assert_eq!(cut.chars().count(), 43);
    assert!(cut.ends_with('\u{2026}'));
}
