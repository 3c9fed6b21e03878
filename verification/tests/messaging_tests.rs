use sentinel::messaging::split_message;
use sentinel::sse::SseAccum;
use sentinel::sse::SseEvent;
use sentinel::sse::SseStep;

#[test]
fn test_split_short_message() {
    let chunks = split_message("hello", 100);
    assert_eq!(chunks, vec!["hello"]);
}

#[test]
fn test_split_long_message() {
    let long = "a".repeat(5000);
    let chunks = split_message(&long, 2000);
    assert_eq!(chunks.len(), 3);
    assert_eq!(chunks[0].len(), 2000);
    assert_eq!(chunks[1].len(), 2000);
    assert_eq!(chunks[2].len(), 1000);
}

#[test]
fn test_split_at_newline() {
    let text = format!("{}line1\n{}line2", "a".repeat(95), "b".repeat(95));
    let chunks = split_message(&text, 105);
    assert_eq!(chunks.len(), 2);
    assert!(chunks[0].ends_with("line1"));
    assert!(chunks[1].ends_with("line2"));
}

#[test]
fn telegram_test_split_short_message() {
    let chunks = split_message("hello", 4096);
    assert_eq!(chunks, vec!["hello"]);
}

#[test]
fn telegram_test_split_long_message() {
    let long = "a".repeat(5000);
    let chunks = split_message(&long, 4096);
    assert_eq!(chunks.len(), 2);
    assert_eq!(chunks[0].len(), 4096);
    assert_eq!(chunks[1].len(), 5000 - 4096);
}

#[test]
fn test_split_smallest_window() {
    let chunks = split_message("abc", 1);
    assert_eq!(chunks, vec!["a", "b", "c"]);
}

#[test]
fn test_sse_event_struct() {
    let event = SseEvent {
        event_type: "message_start".to_string(),
        data: r#"{"type":"message_start"}"#.to_string(),
    };
    assert_eq!(event.event_type, "message_start");
    assert!(event.data.contains("message_start"));
}

#[test]
fn test_sse_accumulates_one_event() {
    let mut acc = SseAccum::new();
    assert!(matches!(acc.feed_line(": comment"), SseStep::KeepReading));
    assert!(matches!(acc.feed_line("event: message_start\r"), SseStep::KeepReading));
    assert!(matches!(acc.feed_line("data: part one"), SseStep::KeepReading));
    assert!(matches!(acc.feed_line("data: part two"), SseStep::KeepReading));
    match acc.feed_line("") {
        SseStep::Emit(e) => {
            assert_eq!(e.event_type, "message_start");
            assert_eq!(e.data, "part one\npart two");
        }
        _ => panic!("expected an event"),
    }
    // Emitting leaves the accumulator fresh: the next empty line is the
    // end of the stream, not a second event.
    assert!(matches!(acc.feed_line(""), SseStep::StreamEnd));
}

#[test]
fn test_sse_end_of_stream() {
    let mut acc = SseAccum::new();
    assert!(matches!(acc.feed_line(""), SseStep::StreamEnd));
}
