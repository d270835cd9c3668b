use patina_core::llm::StreamChunk;
use patina_core::stream::{AccumState, SseBuffer, SseEvent, StreamAccumulator};

fn delta(text: &str) -> StreamChunk {
    StreamChunk {
        delta: text.into(),
        done: false,
    }
}

fn done() -> StreamChunk {
    StreamChunk {
        delta: String::new(),
        done: true,
    }
}

#[test]
fn accumulator_collects_deltas_until_done() {
    let mut acc = StreamAccumulator::new(1, 2);
    acc.absorb(&delta("Hel"));
    acc.absorb(&delta("lo"));
    assert_eq!(acc.state, AccumState::Streaming);
    assert!(acc.finalize().is_none());
    acc.absorb(&done());
    assert_eq!(acc.state, AccumState::Done);
    let message = acc.finalize().expect("finalized message");
    assert_eq!(message.id, 2);
    assert_eq!(message.content, "Hello");
}

#[test]
fn accumulator_discards_partial_text_on_error() {
    let mut acc = StreamAccumulator::new(1, 2);
    acc.absorb(&delta("partial"));
    acc.fail();
    assert_eq!(acc.state, AccumState::Failed);
    assert!(acc.buffer.is_empty());
    assert!(acc.finalize().is_none());
}

#[test]
fn drain_stops_at_the_first_done_chunk() {
    let mut acc = StreamAccumulator::new(5, 6);
    let chunks = vec![delta("ab"), delta("cd"), done()];
    acc.drain(&chunks);
    assert_eq!(acc.state, AccumState::Done);
    assert_eq!(acc.buffer, "abcd");
}

#[test]
fn sse_buffer_reassembles_lines_across_pushes() {
    let mut buffer = SseBuffer::new();
    let events = buffer.push_text("data: {\"a\"");
    assert!(events.is_empty());
    let events = buffer.push_text(":1}\n\ndata: [DO");
    assert_eq!(events.len(), 1);
    match &events[0] {
        SseEvent::Payload(p) => assert_eq!(p, "{\"a\":1}"),
        SseEvent::Done => panic!("not the end yet"),
    }
    let events = buffer.push_text("NE]\n");
    assert_eq!(events.len(), 1);
    assert!(matches!(events[0], SseEvent::Done));
}

#[test]
fn sse_buffer_ignores_lines_without_the_data_prefix() {
    let mut buffer = SseBuffer::new();
    let events = buffer.push_text("event: ping\n: comment\ndata: x\n");
    assert_eq!(events.len(), 1);
    match &events[0] {
        SseEvent::Payload(p) => assert_eq!(p, "x"),
        SseEvent::Done => panic!("unexpected end"),
    }
}
