use groq_chat::stream::{decode_chunks, line_event_of, StreamDecoder, StreamEvent};

fn event(text: &str) -> Vec<u8> {
    format!("data: {{\"choices\":[{{\"delta\":{{\"content\":\"{}\"}}}}]}}\n", text).into_bytes()
}

#[test]
fn decode_round_trip() {
    let chunks = vec![event("Hel"), event("lo"), b"data: [DONE]\n".to_vec()];
    assert_eq!(decode_chunks(&chunks), "Hello");
}

#[test]
fn malformed_line_is_skipped() {
    let mut one = event("Hel");
    one.extend_from_slice(b"data: {not json at all\n");
    one.extend_from_slice(&event("lo"));
    assert_eq!(decode_chunks(&[one]), "Hello");
    let chunks = vec![event("Hel"), b"data: {\"choices\": [\n".to_vec(), event("lo")];
    assert_eq!(decode_chunks(&chunks), "Hello");
}

#[test]
fn nothing_after_done_is_read() {
    let mut same_chunk = event("a");
    same_chunk.extend_from_slice(b"data: [DONE]\n");
    same_chunk.extend_from_slice(&event("b"));
    let chunks = vec![same_chunk, event("c")];
    assert_eq!(decode_chunks(&chunks), "a");

    let mut d = StreamDecoder::new();
    assert_eq!(d.feed_chunk(&event("x")), vec!["x".to_string()]);
    assert!(!d.is_done());
    assert!(d.feed_chunk(b"data: [DONE]").is_empty());
    assert!(d.is_done());
    assert!(d.feed_chunk(&event("y")).is_empty());
    assert_eq!(d.finish(), "x");
}

#[test]
fn stream_end_without_marker_returns_reply() {
    let chunks = vec![event("  Hi"), event(" there  ")];
    assert_eq!(decode_chunks(&chunks), "Hi there");
    assert_eq!(decode_chunks(&[]), "");
}

#[test]
fn feed_chunk_hands_out_fragments_in_order() {
    let mut d = StreamDecoder::new();
    let mut chunk = event("one");
    chunk.extend_from_slice(b": keep-alive comment\n\n");
    chunk.extend_from_slice(&event(" two"));
    let shown = d.feed_chunk(&chunk);
    assert_eq!(shown, vec!["one".to_string(), " two".to_string()]);
    assert_eq!(d.finish(), "one two");
}

#[test]
fn crlf_lines_and_last_line_without_newline() {
    let mut chunk = b"data: {\"choices\":[{\"delta\":{\"content\":\"A\"}}]}\r\n".to_vec();
    chunk.extend_from_slice(b"data: {\"choices\":[{\"delta\":{\"content\":\"B\"}}]}");
    assert_eq!(decode_chunks(&[chunk]), "AB");
    assert_eq!(decode_chunks(&[b"data: [DONE]\r\n".to_vec(), event("late")]), "");
}

#[test]
fn lines_without_prefix_or_content_are_ignored() {
    assert!(matches!(line_event_of(b"{\"choices\":[{\"delta\":{\"content\":\"x\"}}]}"), StreamEvent::Ignored));
    assert!(matches!(line_event_of(b"data:[DONE]"), StreamEvent::Ignored));
    assert!(matches!(line_event_of(b"data: {\"choices\":[{\"delta\":{}}]}"), StreamEvent::Ignored));
    assert!(matches!(line_event_of(b"data: {\"choices\":[{\"delta\":{\"content\":7}}]}"), StreamEvent::Ignored));
    assert!(matches!(line_event_of(b"data: {\"choices\":[]}"), StreamEvent::Ignored));
    assert!(matches!(line_event_of(b""), StreamEvent::Ignored));
}

#[test]
fn done_and_fragment_events() {
    assert!(matches!(line_event_of(b"data: [DONE]"), StreamEvent::Finished));
    assert!(matches!(line_event_of(b"data: [DONE] "), StreamEvent::Ignored));
    match line_event_of(b"data: {\"choices\":[{\"delta\":{\"content\":\"h\\u00e9\"}}]}") {
        StreamEvent::Fragment(s) => assert_eq!(s, "hé"),
        _ => panic!("expected a fragment"),
    }
}

#[test]
fn invalid_utf8_is_replaced() {
    let mut line = b"data: {\"choices\":[{\"delta\":{\"content\":\"a".to_vec();
    line.push(0xff);
    line.extend_from_slice(b"b\"}}]}");
    match line_event_of(&line) {
        StreamEvent::Fragment(s) => assert_eq!(s, "a\u{FFFD}b"),
        _ => panic!("expected a fragment"),
    }
}

#[test]
fn apply_events_directly() {
    let mut d = StreamDecoder::new();
    assert_eq!(d.apply(StreamEvent::Fragment(" ab".to_string())), Some(" ab".to_string()));
    assert_eq!(d.apply(StreamEvent::Ignored), None);
    assert_eq!(d.apply(StreamEvent::Fragment("c ".to_string())), Some("c ".to_string()));
    assert_eq!(d.apply(StreamEvent::Finished), None);
    assert!(d.is_done());
    assert_eq!(d.apply(StreamEvent::Fragment("d".to_string())), None);
    assert_eq!(d.finish(), "abc");
}

#[test]
fn choices_must_be_an_array() {
    assert!(matches!(line_event_of(b"data: {\"choices\":{\"0\":{\"delta\":{\"content\":\"x\"}}}}"), StreamEvent::Ignored));
    assert!(matches!(line_event_of(b"data: {\"choices\":[{\"delta\":\"content\"}]}"), StreamEvent::Ignored));
    match line_event_of(b"data: {\"choices\":[{\"delta\":{\"content\":\"x\"}},{\"delta\":{\"content\":\"y\"}}]}") {
        StreamEvent::Fragment(s) => assert_eq!(s, "x"),
        _ => panic!("expected the first choice"),
    }
}
