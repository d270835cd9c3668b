use patina_core::llm::LlmDriver;
use patina_core::state::{AppState, ChatMessage, Conversation, MessageRole};
use patina_core::store::{PersistAction, TranscriptFile, TranscriptStore};

fn mock_state() -> AppState {
    let store = TranscriptStore::new("workspace/.patina");
    let driver = LlmDriver::fake();
    AppState::with_store(store, driver, vec![])
}

#[test]
fn app_state_records_messages() {
    let mut state = mock_state();

    let outcome = state.send_user_message("hello world", "mock", "0.6");
    assert!(outcome.error.is_none(), "send message");

    let conversation = state.active_conversation().expect("conversation");
    assert!(conversation
        .messages
        .iter()
        .any(|msg| msg.role == MessageRole::Assistant));
    assert!(conversation
        .messages
        .iter()
        .any(|msg| msg.role == MessageRole::User));
}

#[test]
fn messages_stay_in_append_order() {
    let mut state = mock_state();
    state.send_user_message("first", "mock", "0.5");
    state.send_user_message("second", "mock", "0.5");
    state.send_user_message("third", "mock", "0.5");

    let conversation = state.active_conversation().expect("conversation");
    assert_eq!(conversation.messages.len(), 6);
    assert_eq!(conversation.messages[0].content, "first");
    assert_eq!(conversation.messages[2].content, "second");
    assert_eq!(conversation.messages[4].content, "third");
    for pair in conversation.messages.chunks(2) {
        assert_eq!(pair[0].role, MessageRole::User);
        assert_eq!(pair[1].role, MessageRole::Assistant);
    }
}

#[test]
fn first_message_titles_the_conversation() {
    let mut state = mock_state();
    state.send_user_message("hello world", "mock", "0.6");
    let title_after_first = state.active_conversation().expect("conversation").title;
    assert_eq!(title_after_first, "hello world");

    state.send_user_message("a second message that should not rename", "mock", "0.6");
    let title_after_second = state.active_conversation().expect("conversation").title;
    assert_eq!(title_after_second, "hello world");
}

#[test]
fn long_first_message_is_cut_with_a_marker() {
    let mut state = mock_state();
    let long = "abcdefghij".repeat(5);
    state.send_user_message(&long, "mock", "0.6");
    let title = state.active_conversation().expect("conversation").title;
    assert_eq!(title.chars().count(), 43);
    assert!(title.ends_with('\u{2026}'));
    assert!(long.starts_with(title.trim_end_matches('\u{2026}')));
}

#[test]
fn blank_input_changes_nothing_and_writes_nothing() {
    let mut state = mock_state();
    state.send_user_message("seed", "mock", "0.2");
    let before = state.active_conversation().expect("conversation");

    let empty = state.send_user_message("", "mock", "0.2");
    assert!(empty.error.is_none());
    assert!(empty.actions.is_empty());

    let spaces = state.send_user_message("   ", "mock", "0.2");
    assert!(spaces.error.is_none());
    assert!(spaces.actions.is_empty());

    let after = state.active_conversation().expect("conversation");
    assert_eq!(after.messages.len(), before.messages.len());
    assert_eq!(after.title, before.title);
    assert_eq!(after.updated_at, before.updated_at);
}

#[test]
fn deleting_active_conversation_moves_selection() {
    let mut state = mock_state();
    let (first, _) = state.start_new_conversation();
    let (second, _) = state.start_new_conversation();
    assert_eq!(state.active_conversation().expect("active").id, second);

    let (deleted, actions) = state.delete_conversation(second);
    assert!(deleted);
    assert_eq!(actions.len(), 2);
    let remaining = state.active_conversation().expect("a conversation remains");
    assert_ne!(remaining.id, second);
    assert_eq!(remaining.id, first);

    let (deleted_last, _) = state.delete_conversation(first);
    assert!(deleted_last);
    assert!(state.active_conversation().is_none());
}

#[test]
fn deleting_unknown_conversation_is_a_no_op() {
    let mut state = mock_state();
    state.start_new_conversation();
    let (deleted, actions) = state.delete_conversation(42);
    assert!(!deleted);
    assert!(actions.is_empty());
    assert!(state.active_conversation().is_some());
}

#[test]
fn renaming_updates_title_and_plans_metadata() {
    let mut state = mock_state();
    let (id, _) = state.start_new_conversation();
    let action = state
        .rename_conversation(id, "Renamed chat")
        .expect("metadata write planned");
    match action {
        PersistAction::WriteFile { path, contents } => {
            assert!(path.ends_with(".meta.json"));
            assert!(contents.contains("Renamed chat"));
        }
        _ => panic!("expected a metadata write"),
    }
    assert_eq!(
        state.active_conversation().expect("conversation").title,
        "Renamed chat"
    );
    assert!(state.rename_conversation(9999, "nobody").is_none());
}

#[test]
fn reordering_moves_the_dragged_conversation() {
    let mut state = mock_state();
    let (a, _) = state.start_new_conversation();
    let (b, _) = state.start_new_conversation();
    let (c, _) = state.start_new_conversation();
    // Newest first: [c, b, a].
    let ids: Vec<u128> = state.conversation_summaries().iter().map(|s| s.id).collect();
    assert_eq!(ids, vec![c, b, a]);

    state.reorder_conversations(a, c);
    let ids: Vec<u128> = state.conversation_summaries().iter().map(|s| s.id).collect();
    assert_eq!(ids, vec![a, c, b]);

    // Unknown identifiers leave the order alone.
    state.reorder_conversations(a, 77777);
    let ids2: Vec<u128> = state.conversation_summaries().iter().map(|s| s.id).collect();
    assert_eq!(ids2, vec![a, c, b]);
}

#[test]
fn summaries_project_each_conversation() {
    let mut state = mock_state();
    state.send_user_message("hello summary", "mock", "0.3");
    let summaries = state.conversation_summaries();
    assert_eq!(summaries.len(), 1);
    assert_eq!(summaries[0].title, "hello summary");
    assert_eq!(summaries[0].message_count, 2);
}

#[test]
fn streaming_send_matches_one_shot_content() {
    let mut one_shot = mock_state();
    one_shot.send_user_message("Hi there", "mock", "0.6");
    let plain = one_shot.active_conversation().expect("conversation");

    let mut streamed = mock_state();
    let outcome = streamed.send_user_message_streaming("Hi there", "mock", "0.6");
    assert!(outcome.error.is_none());
    let conv = streamed.active_conversation().expect("conversation");

    assert_eq!(conv.messages.len(), 2);
    assert_eq!(plain.messages[1].content, conv.messages[1].content);
    assert_eq!(conv.messages[1].id, outcome.assistant_id);

    let mut accumulated = String::new();
    for chunk in &outcome.chunks {
        if !chunk.done {
            accumulated.push_str(&chunk.delta);
        }
    }
    assert_eq!(accumulated, conv.messages[1].content);
}

#[test]
fn blank_streaming_send_returns_only_the_terminal_chunk() {
    let mut state = mock_state();
    let outcome = state.send_user_message_streaming("   ", "mock", "0.6");
    assert!(outcome.error.is_none());
    assert!(outcome.actions.is_empty());
    assert_eq!(outcome.chunks.len(), 1);
    assert!(outcome.chunks[0].done);
    assert!(state.active_conversation().is_none());
}

#[test]
fn example_scenario_round_trips_through_the_store() {
    let store = TranscriptStore::new("workspace/.patina");
    let driver = LlmDriver::fake();
    let mut state = AppState::with_store(store, driver, vec![]);

    let (id_a, first_action) = state.start_new_conversation();
    let outcome = state.send_user_message("Hi there", "mock", "0.6");
    assert!(outcome.error.is_none());

    let conversation = state.active_conversation().expect("conversation");
    assert_eq!(conversation.id, id_a);
    assert_eq!(conversation.messages.len(), 2);
    assert_eq!(conversation.messages[0].role, MessageRole::User);
    assert_eq!(conversation.messages[0].content, "Hi there");
    assert_eq!(conversation.messages[1].role, MessageRole::Assistant);
    assert!(conversation.messages[1].content.contains("mock"));
    assert!(conversation.messages[1].content.contains("0.6"));
    assert_eq!(conversation.title, "Hi there");

    // Apply the planned writes to an in-memory filesystem, then reload.
    let mut log = String::new();
    let mut meta: Option<String> = None;
    let mut apply = |action: &PersistAction| match action {
        PersistAction::AppendLine { path, line } => {
            assert!(path.ends_with(".jsonl"));
            log.push_str(line);
        }
        PersistAction::WriteFile { path, contents } => {
            assert!(path.ends_with(".meta.json"));
            meta = Some(contents.clone());
        }
        PersistAction::RemoveFile { .. } => panic!("nothing is removed in this scenario"),
    };
    apply(&first_action);
    for action in &outcome.actions {
        apply(action);
    }

    let stem = patina_core::ids::format_id(id_a);
    let files = vec![TranscriptFile {
        stem,
        text: log,
        meta,
    }];
    let reload_store = TranscriptStore::new("workspace/.patina");
    let reloaded = reload_store.load_conversations(&files);
    assert_eq!(reloaded.len(), 1);
    assert_eq!(reloaded[0].id, id_a);
    assert_eq!(reloaded[0].title, "Hi there");
    assert_eq!(reloaded[0].messages.len(), 2);
    assert_eq!(reloaded[0].messages[0].content, "Hi there");
    assert_eq!(
        reloaded[0].messages[1].content,
        conversation.messages[1].content
    );
    assert_eq!(reloaded[0].messages[0].id, conversation.messages[0].id);
}

#[test]
fn updated_at_never_decreases_across_appends() {
    let mut conversation = Conversation::new();
    let mut last = conversation.updated_at;
    for text in ["one", "two", "three"] {
        conversation.add_message(ChatMessage::new(MessageRole::User, text));
        assert!(conversation.updated_at >= last);
        last = conversation.updated_at;
    }
}

#[test]
fn select_conversation_ignores_unknown_ids() {
    let mut state = mock_state();
    let (a, _) = state.start_new_conversation();
    let (b, _) = state.start_new_conversation();
    state.select_conversation(a);
    assert_eq!(state.active_conversation().expect("active").id, a);
    state.select_conversation(123456789);
    assert_eq!(state.active_conversation().expect("active").id, a);
    state.select_conversation(b);
    assert_eq!(state.active_conversation().expect("active").id, b);
}

#[test]
fn deleting_an_inactive_conversation_keeps_the_selection() {
    let mut state = mock_state();
    let (a, _) = state.start_new_conversation();
    let (b, _) = state.start_new_conversation();
    state.select_conversation(b);
    let (deleted, _) = state.delete_conversation(a);
    assert!(deleted);
    assert_eq!(state.active_conversation().expect("active").id, b);
}

#[test]
fn send_failure_keeps_the_user_message_without_a_reply() {
    let store = TranscriptStore::new("workspace/.patina");
    let driver = LlmDriver::unconfigured("nothing is configured");
    let mut state = AppState::with_store(store, driver, vec![]);
    let outcome = state.send_user_message("still recorded", "mock", "0.5");
    let error = outcome.error.expect("the send fails");
    assert_eq!(error.message, "nothing is configured");
    assert_eq!(outcome.actions.len(), 2, "log line plus derived title");
    let conversation = state.active_conversation().expect("conversation");
    assert_eq!(conversation.messages.len(), 1);
    assert_eq!(conversation.messages[0].role, MessageRole::User);
    assert_eq!(conversation.messages[0].content, "still recorded");
    assert_eq!(conversation.title, "still recorded");
}
