use qwen_client::{collect_events, Frame, StreamEvent, StreamParser};

fn frame_texts(frames: &[Frame]) -> Vec<String> {
    frames
        .iter()
        .map(|f| match f {
            Frame::Data(s) => format!("data:{}", s),
            Frame::Done => "done".to_string(),
        })
        .collect()
}

fn feed_all(chunks: &[&[u8]]) -> (Vec<Frame>, String) {
    let mut parser = StreamParser::new();
    let mut out = Vec::new();
    for c in chunks {
        out.extend(parser.feed(c));
    }
    let pending = parser.pending();
    (out, pending)
}

fn decode(text: &str) -> Option<StreamEvent> {
    let v: serde_json::Value = serde_json::from_str(text).ok()?;
    let obj = v.as_object()?;
    Some(StreamEvent::Message {
        id: obj.get("id")?.as_str()?.to_string(),
        object: obj.get("object").and_then(|o| o.as_str()).unwrap_or("").to_string(),
        created: obj.get("created").and_then(|c| c.as_i64()).unwrap_or(0),
        model: obj.get("model").and_then(|m| m.as_str()).unwrap_or("").to_string(),
        choices: Vec::new(),
        usage: None,
        system_fingerprint: None,
    })
}

fn events_of(frames: &Vec<Frame>) -> Vec<StreamEvent> {
    let decoded = frames
        .iter()
        .map(|f| match f {
            Frame::Data(s) => decode(s),
            Frame::Done => None,
        })
        .collect();
    collect_events(frames, decoded)
}

fn event_id(e: &StreamEvent) -> Option<String> {
    match e {
        StreamEvent::Message { id, .. } => Some(id.clone()),
        StreamEvent::Terminal => None,
    }
}

const STREAM: &[u8] = b"data: {\"id\":\"1\",\"object\":\"chunk\",\"created\":1,\"model\":\"m\",\"choices\":[]}\n\n: keep-alive\n\ndata: {\"id\":\"2\",\"choices\":[]}\n\ndata: [DONE]\n\n";

#[test]
fn split_chunks_yield_one_data_and_one_terminal_event() {
    let (frames, pending) = feed_all(&[
        b"data: {\"id\":\"1\",\"object\":\"chunk\",",
        b"\"created\":5,\"model\":\"qwen-plus\",\"choices\":[]}\n\n",
        b"data: [DONE]\n\n",
    ]);
    assert_eq!(pending, "");
    assert_eq!(frames.len(), 2);
    let events = events_of(&frames);
    assert_eq!(events.len(), 2);
    assert_eq!(event_id(&events[0]), Some("1".to_string()));
    assert!(matches!(events[1], StreamEvent::Terminal));
}

#[test]
fn byte_by_byte_matches_single_chunk() {
    let (whole, rest_whole) = feed_all(&[STREAM]);
    let singles: Vec<&[u8]> = STREAM.chunks(1).collect();
    let (bytes, rest_bytes) = feed_all(&singles);
    assert_eq!(frame_texts(&whole), frame_texts(&bytes));
    assert_eq!(rest_whole, rest_bytes);
    assert_eq!(
        frame_texts(&whole),
        vec![
            "data:{\"id\":\"1\",\"object\":\"chunk\",\"created\":1,\"model\":\"m\",\"choices\":[]}".to_string(),
            "data:{\"id\":\"2\",\"choices\":[]}".to_string(),
            "done".to_string(),
        ]
    );
}

#[test]
fn uneven_chunks_match_single_chunk() {
    let (whole, _) = feed_all(&[STREAM]);
    let (parts, _) = feed_all(&[&STREAM[..7], &STREAM[7..60], &STREAM[60..61], &STREAM[61..]]);
    assert_eq!(frame_texts(&whole), frame_texts(&parts));
}

#[test]
fn trailing_bytes_are_retained() {
    let mut parser = StreamParser::new();
    let frames = parser.feed(b"data: {\"id\":\"1\"}\n\ndata: {\"id\"");
    assert_eq!(frame_texts(&frames), vec!["data:{\"id\":\"1\"}".to_string()]);
    assert_eq!(parser.pending(), "data: {\"id\"");
    let more = parser.feed(b":\"2\"}\n\n");
    assert_eq!(frame_texts(&more), vec!["data:{\"id\":\"2\"}".to_string()]);
    assert_eq!(parser.pending(), "");
}

#[test]
fn unterminated_chunk_stays_buffered() {
    let mut parser = StreamParser::new();
    let frames = parser.feed(b"data: {\"id\":\"1\"}\n");
    assert!(frames.is_empty());
    assert_eq!(parser.pending(), "data: {\"id\":\"1\"}\n");
}

#[test]
fn done_frame_yields_one_terminal_marker() {
    let mut parser = StreamParser::new();
    let frames = parser.feed(b"data: [DONE]\n\n");
    assert_eq!(frames.len(), 1);
    assert!(matches!(frames[0], Frame::Done));
    let events = events_of(&frames);
    assert_eq!(events.len(), 1);
    assert!(matches!(events[0], StreamEvent::Terminal));
}

#[test]
fn malformed_frame_between_two_good_ones_is_dropped() {
    let (frames, _) = feed_all(&[b"data: {\"id\":\"a\"}\n\ndata: {not json\n\ndata: {\"id\":\"b\"}\n\n"]);
    assert_eq!(frames.len(), 3);
    let events = events_of(&frames);
    assert_eq!(events.len(), 2);
    assert_eq!(event_id(&events[0]), Some("a".to_string()));
    assert_eq!(event_id(&events[1]), Some("b".to_string()));
}

#[test]
fn frames_without_data_prefix_are_ignored() {
    let (frames, _) = feed_all(&[b"event: ping\n\n: comment\n\ndata:{\"x\":1}\n\n"]);
    assert!(frames.is_empty());
}

#[test]
fn empty_frames_are_ignored() {
    let (frames, pending) = feed_all(&[b"\n\n\n\n"]);
    assert!(frames.is_empty());
    assert_eq!(pending, "");
}

#[test]
fn invalid_utf8_is_replaced() {
    let (frames, _) = feed_all(&[b"data: {\"id\":\"\xff\"}\n\n"]);
    assert_eq!(frame_texts(&frames), vec!["data:{\"id\":\"\u{FFFD}\"}".to_string()]);
}

#[test]
fn done_token_anywhere_in_a_data_frame_ends() {
    let (frames, _) = feed_all(&[b"data: {\"content\":\"[DONE]\"}\n\n"]);
    assert_eq!(frame_texts(&frames), vec!["done".to_string()]);
}
