use erudaite_core::relay::{RelayParser, StreamEvent};

fn is_done(e: &StreamEvent) -> bool {
    matches!(e, StreamEvent::Done)
}

fn as_delta(e: &StreamEvent) -> Option<&str> {
    match e {
        StreamEvent::Delta { content } => Some(content.as_str()),
        _ => None,
    }
}

fn as_error(e: &StreamEvent) -> Option<&str> {
    match e {
        StreamEvent::Error { message } => Some(message.as_str()),
        _ => None,
    }
}

/// All events of feeding the chunks in order and closing the stream.
fn run(chunks: &[&str]) -> Vec<StreamEvent> {
    let mut parser = RelayParser::new();
    let mut events: Vec<StreamEvent> = Vec::new();
    for chunk in chunks {
        events.extend(parser.push_chunk(chunk));
    }
    events.extend(parser.finish());
    events
}

#[test]
fn scenario_delta_split_mid_json() {
    let mut parser = RelayParser::new();
    let first = parser.push_chunk("data: {\"content\":\"He");
    assert!(first.is_empty());
    let second = parser.push_chunk("llo\"}\n");
    assert_eq!(second.len(), 1);
    assert_eq!(as_delta(&second[0]), Some("Hello"));
}

#[test]
fn scenario_done_token() {
    let mut parser = RelayParser::new();
    let events = parser.push_chunk("data: [DONE]\n");
    assert_eq!(events.len(), 1);
    assert!(is_done(&events[0]));
    assert!(parser.is_terminated());
    // Nothing may follow the terminal event.
    assert!(parser.push_chunk("data: {\"content\":\"late\"}\n").is_empty());
    assert!(parser.finish().is_empty());
}

#[test]
fn scenario_error_payload() {
    let mut parser = RelayParser::new();
    let events = parser.push_chunk("data: {\"error\":\"rate limited\"}\n");
    assert_eq!(events.len(), 1);
    assert_eq!(as_error(&events[0]), Some("rate limited"));
    assert!(parser.is_terminated());
}

#[test]
fn reassembly_is_chunking_independent() {
    let payload = "data: {\"content\":\"one \"}\n: keep-alive\ndata: {\"content\":\"two\"}\r\ndata: [DONE]\ndata: {\"content\":\"never\"}\n";
    let whole = run(&[payload]);
    // Split the payload at every single byte boundary (the text is ASCII).
    for cut in 0..payload.len() {
        let split = run(&[&payload[..cut], &payload[cut..]]);
        assert_eq!(split.len(), whole.len(), "cut at {cut}");
        for (a, b) in split.iter().zip(whole.iter()) {
            assert_eq!(format!("{a:?}"), format!("{b:?}"), "cut at {cut}");
        }
    }
    // One character at a time.
    let tiny: Vec<String> = payload.chars().map(|c| c.to_string()).collect();
    let refs: Vec<&str> = tiny.iter().map(|s| s.as_str()).collect();
    let trickled = run(&refs);
    assert_eq!(trickled.len(), whole.len());
    for (a, b) in trickled.iter().zip(whole.iter()) {
        assert_eq!(format!("{a:?}"), format!("{b:?}"));
    }
}

#[test]
fn terminal_event_is_last() {
    let events = run(&["data: {\"content\":\"a\"}\ndata: [DONE]\ndata: {\"content\":\"b\"}\n"]);
    assert_eq!(events.len(), 2);
    assert_eq!(as_delta(&events[0]), Some("a"));
    assert!(is_done(&events[1]));
}

#[test]
fn comments_and_blank_payloads_are_ignored() {
    let events = run(&[": comment\n", "event: message\n", "data: \n", "data:\n", "\n"]);
    // Only the closing Done from the stream end.
    assert_eq!(events.len(), 1);
    assert!(is_done(&events[0]));
}

#[test]
fn carriage_return_is_stripped() {
    let events = run(&["data: {\"content\":\"Hi\"}\r\n"]);
    assert_eq!(events.len(), 2);
    assert_eq!(as_delta(&events[0]), Some("Hi"));
    assert!(is_done(&events[1]));
}

#[test]
fn malformed_json_line_is_skipped() {
    let events = run(&["data: {not json}\ndata: {\"content\":\"ok\"}\n"]);
    assert_eq!(events.len(), 2);
    assert_eq!(as_delta(&events[0]), Some("ok"));
    assert!(is_done(&events[1]));
}

#[test]
fn empty_content_with_error_field_reports_the_error() {
    let events = run(&["data: {\"content\":\"\",\"error\":\"boom\"}\n"]);
    assert_eq!(events.len(), 1);
    assert_eq!(as_error(&events[0]), Some("boom"));
}

#[test]
fn empty_content_alone_is_ignored() {
    let events = run(&["data: {\"content\":\"\"}\n"]);
    assert_eq!(events.len(), 1);
    assert!(is_done(&events[0]));
}

#[test]
fn non_string_content_is_ignored() {
    let events = run(&["data: {\"content\": 5}\n", "data: {\"other\": true}\n"]);
    assert_eq!(events.len(), 1);
    assert!(is_done(&events[0]));
}

#[test]
fn stream_end_without_token_is_a_clean_done() {
    let events = run(&["data: {\"content\":\"tail\"}\ndata: {\"content\":\"cut off"]);
    assert_eq!(events.len(), 2);
    assert_eq!(as_delta(&events[0]), Some("tail"));
    assert!(is_done(&events[1]));
}

#[test]
fn stream_failure_emits_one_error() {
    let mut parser = RelayParser::new();
    assert!(parser.push_chunk("data: {\"content\":\"a\"}\n").len() == 1);
    let events = parser.fail("stream error: reset".to_string());
    assert_eq!(events.len(), 1);
    assert_eq!(as_error(&events[0]), Some("stream error: reset"));
    // A later clean close emits nothing further.
    assert!(parser.finish().is_empty());
    assert!(parser.fail("again".to_string()).is_empty());
}

#[test]
fn byte_chunks_decode_like_text() {
    let mut parser = RelayParser::new();
    let mut events = parser.push_bytes(b"data: {\"content\":\"By");
    events.extend(parser.push_bytes(b"tes\"}\n"));
    assert_eq!(events.len(), 1);
    assert_eq!(as_delta(&events[0]), Some("Bytes"));
}
