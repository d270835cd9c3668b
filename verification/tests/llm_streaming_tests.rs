use patina_core::llm::{
    completion_to_chat, ChatCompletionResponse, CompletionChoice, CompletionResponseMessage,
    CompletionUsage, LlmDriver,
};
use patina_core::state::{ChatMessage, MessageRole};

#[test]
fn test_mock_provider_streaming() {
    let driver = LlmDriver::fake();

    let messages = vec![ChatMessage::new(MessageRole::User, "Hello, can you help me?")];

    let stream = driver
        .respond_streaming(&messages, Some("mock"), Some("0.7"))
        .expect("Failed to start streaming");

    let mut accumulated = String::new();
    let mut chunk_count = 0;
    let mut done = false;

    for chunk in stream {
        if chunk.done {
            done = true;
            break;
        }
        accumulated.push_str(&chunk.delta);
        chunk_count += 1;
    }

    assert!(done, "Stream should complete with done=true");
    assert!(chunk_count > 0, "Should receive at least one chunk");
    assert!(!accumulated.is_empty(), "Should accumulate content");
    assert!(
        accumulated.contains("Mock"),
        "Mock response should contain 'Mock'"
    );
}

#[test]
fn test_streaming_with_empty_history() {
    let driver = LlmDriver::fake();

    let messages: Vec<ChatMessage> = vec![];

    let stream = driver
        .respond_streaming(&messages, Some("mock"), Some("0.7"))
        .expect("Failed to start streaming");

    let mut done = false;
    for chunk in stream {
        if chunk.done {
            done = true;
            break;
        }
    }

    assert!(done, "Stream should complete even with empty history");
}

#[test]
fn streaming_accumulates_to_the_one_shot_reply() {
    let driver = LlmDriver::fake();
    let messages = vec![ChatMessage::new(MessageRole::User, "compare the two paths")];

    let response = driver
        .respond(&messages, Some("mock"), Some("0.4"))
        .expect("one-shot reply");
    let stream = driver
        .respond_streaming(&messages, Some("mock"), Some("0.4"))
        .expect("streamed reply");

    let mut accumulated = String::new();
    for chunk in &stream {
        if !chunk.done {
            accumulated.push_str(&chunk.delta);
        }
    }
    assert_eq!(accumulated, response.message.content);
}

#[test]
fn stream_ends_with_exactly_one_done_chunk() {
    let driver = LlmDriver::fake();
    let messages = vec![ChatMessage::new(MessageRole::User, "terminal check")];
    let stream = driver
        .respond_streaming(&messages, Some("mock"), Some("0.1"))
        .expect("stream");
    assert!(!stream.is_empty());
    let done_count = stream.iter().filter(|c| c.done).count();
    assert_eq!(done_count, 1);
    assert!(stream.last().unwrap().done);
    assert!(stream.last().unwrap().delta.is_empty());
    for chunk in &stream[..stream.len() - 1] {
        assert!(!chunk.done);
        assert!(chunk.delta.chars().count() <= 5);
    }
}

#[test]
fn mock_reply_embeds_model_and_temperature() {
    let driver = LlmDriver::fake();
    let messages = vec![ChatMessage::new(MessageRole::User, "what model is this?")];
    let response = driver
        .respond(&messages, Some("special-model"), Some("0.9"))
        .expect("reply");
    assert_eq!(response.message.role, MessageRole::Assistant);
    assert!(response.message.content.contains("special-model"));
    assert!(response.message.content.contains("Some(0.9)"));
    assert!(response.message.content.contains("what model is this?"));
    let usage = response.usage.expect("usage counters");
    assert_eq!(usage.prompt_tokens, 10);
    assert_eq!(usage.completion_tokens, 25);
}

#[test]
fn unconfigured_driver_reports_its_reason() {
    let driver = LlmDriver::unconfigured("no credentials found");
    let messages = vec![ChatMessage::new(MessageRole::User, "hi")];
    let err = driver
        .respond(&messages, Some("mock"), None)
        .expect_err("should fail");
    assert_eq!(err.message, "no credentials found");
    let err2 = driver
        .respond_streaming(&messages, Some("mock"), None)
        .expect_err("should fail");
    assert_eq!(err2.message, "no credentials found");
}

#[test]
fn completion_conversion_takes_the_first_choice() {
    let payload = ChatCompletionResponse {
        choices: vec![CompletionChoice {
            message: CompletionResponseMessage {
                role: "assistant".into(),
                content: Some("the reply".into()),
            },
        }],
        usage: Some(CompletionUsage {
            prompt_tokens: Some(7),
            completion_tokens: None,
        }),
    };
    let resp = completion_to_chat(payload).expect("conversion");
    assert_eq!(resp.message.content, "the reply");
    assert_eq!(resp.message.role, MessageRole::Assistant);
    let usage = resp.usage.expect("usage");
    assert_eq!(usage.prompt_tokens, 7);
    assert_eq!(usage.completion_tokens, 0);

    let empty = ChatCompletionResponse {
        choices: vec![],
        usage: None,
    };
    let err = completion_to_chat(empty).expect_err("no choices");
    assert_eq!(err.message, "response contained no choices");
}
