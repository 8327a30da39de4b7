//! Streamed replies and JSON documents.
use transcribe_bot::ai::stream::{ChatStreamAccumulator, StreamError};
use transcribe_bot::json;
use transcribe_bot::json::Json;

#[test]
fn handles_chunk_boundaries_heartbeats_and_done() {
    let mut stream = ChatStreamAccumulator::default();
    stream
        .push(b": keepalive\r\n\r\ndata: {\"choices\":[{\"delta\":{\"content\":\"hel")
        .unwrap();
    stream
        .push(b"lo \"},\"finish_reason\":null}]}\r\n\r\n")
        .unwrap();
    stream
        .push(b"data: {\"choices\":[{\"delta\":{\"content\":\"world\"},\"finish_reason\":\"stop\"}]}\n\ndata: [DONE]\n\n")
        .unwrap();

    assert_eq!(stream.finish().unwrap(), "hello world");
}

#[test]
fn reports_no_text_diagnostics() {
    let mut stream = ChatStreamAccumulator::default();
    stream
        .push(
            b"data: {\"choices\":[{\"delta\":{\"refusal\":\"blocked\"},\"finish_reason\":\"content_filter\"}]}\n\ndata: [DONE]\n\n",
        )
        .unwrap();
    let error = stream
        .finish()
        .expect_err("refusal should not produce text");
    let message = error.message();
    assert!(message.contains("finish_reason=content_filter"));
    assert!(message.contains("refusal=true"));
}

#[test]
fn surfaces_provider_errors_and_incomplete_streams() {
    let mut failed = ChatStreamAccumulator::default();
    let error = failed
        .push(b"data: {\"error\":{\"message\":\"provider unavailable\"}}\n\n")
        .expect_err("provider stream error should fail");
    assert!(error.message().contains("provider unavailable"));

    let mut incomplete = ChatStreamAccumulator::default();
    incomplete
        .push(b"data: {\"choices\":[{\"delta\":{\"content\":\"partial\"}}]}\n\n")
        .unwrap();
    let error = incomplete
        .finish()
        .expect_err("missing done marker should fail");
    assert!(error.message().contains("before [DONE]"));
}

const WHOLE: &[u8] = "event: x\ndata: {\"choices\":[{\"delta\":{\"content\":[{\"text\":\"gr\"},{\"n\":1},{\"text\":\"üß\"}]}}]}\r\n\r\n:c\ndata:{\"choices\":\ndata: [{\"delta\":{\"content\":\" dich\"}}]}\n\ndata: [DONE]\n".as_bytes();

#[test]
fn a_stream_can_be_cut_anywhere() {
    for cut in 0..=WHOLE.len() {
        let mut stream = ChatStreamAccumulator::default();
        stream.push(&WHOLE[..cut]).unwrap();
        stream.push(&WHOLE[cut..]).unwrap();
        assert_eq!(stream.finish().unwrap(), "grüß dich", "cut at {cut}");
    }
    let mut stream = ChatStreamAccumulator::default();
    for byte in WHOLE {
        stream.push(&[*byte]).unwrap();
    }
    assert_eq!(stream.finish().unwrap(), "grüß dich");
}

#[test]
fn a_whole_message_counts_where_no_delta_did() {
    let mut stream = ChatStreamAccumulator::default();
    stream
        .push(b"data: {\"choices\":[{\"message\":{\"content\":\"first\"}}]}\n\n")
        .unwrap();
    stream
        .push(b"data: {\"choices\":[{\"message\":{\"content\":\"second\"}}]}\n\ndata: [DONE]")
        .unwrap();
    assert_eq!(stream.finish().unwrap(), "first");
}

#[test]
fn stream_errors_say_what_went_wrong() {
    let mut stream = ChatStreamAccumulator::default();
    let error = stream.push(b"data: \xff\n").unwrap_err();
    assert!(matches!(error, StreamError::NotUtf8));
    assert_eq!(error.message(), "OpenAI-compatible API stream contained non-UTF-8 data");

    let mut stream = ChatStreamAccumulator::default();
    let error = stream.push(b"data: nope\n\n").unwrap_err();
    assert_eq!(error.message(), "OpenAI-compatible API returned an invalid JSON stream event");

    let mut stream = ChatStreamAccumulator::default();
    let long = format!("data: {{\"message\":\"{}\"}}\n\n", "x".repeat(600));
    let error = stream.push(long.as_bytes()).unwrap_err();
    assert_eq!(
        error.message(),
        format!("OpenAI-compatible API stream returned an error: {}", "x".repeat(500))
    );

    let stream = ChatStreamAccumulator::default();
    assert_eq!(
        stream.finish().unwrap_err().message(),
        "OpenAI-compatible API stream ended before [DONE]"
    );
}

#[test]
fn a_silent_stream_tells_all_it_saw() {
    let mut stream = ChatStreamAccumulator::default();
    let events = format!(
        "data: {{\"promptFeedback\":{{\"blockReason\":\"{}\"}}}}\n\ndata: {{\"choices\":[{{\"finish_reason\":\"stop\",\"delta\":{{\"reasoning_content\":\"r\"}},\"message\":{{\"tool_calls\":[],\"refusal\":null}}}}]}}\n\ndata:  [DONE] \n\n",
        "b".repeat(120)
    );
    stream.push(events.as_bytes()).unwrap();
    assert_eq!(
        stream.finish().unwrap_err().message(),
        format!(
            "OpenAI-compatible API returned no text (finish_reason=stop, block_reason={}, reasoning_without_text=true, tool_calls=true)",
            "b".repeat(100)
        )
    );
}

#[test]
fn reading_goes_on_behind_a_bad_line() {
    let mut stream = ChatStreamAccumulator::default();
    assert!(stream.push(b"data: {\"error\":\"e\"}\n\ndata: [DONE]\n").is_err());
    stream.push(b"\n").unwrap();
    assert_eq!(
        stream.finish().unwrap_err().message(),
        "OpenAI-compatible API returned no text"
    );
}

#[test]
fn events_can_be_handed_over_as_documents() {
    let mut stream = ChatStreamAccumulator::default();
    assert!(matches!(stream.take_event(None), Err(StreamError::InvalidEvent)));
    let event = Json::parse(r#"{"choices":[{"delta":{"content":"x"}}]}"#);
    stream.take_event(event.as_ref()).unwrap();
    stream.push(b"data: [DONE]\n\n").unwrap();
    assert_eq!(stream.finish().unwrap(), "x");
}

// ---------------------------------------------------------------------------
// JSON
// ---------------------------------------------------------------------------

#[test]
fn documents_are_read_with_all_their_parts() {
    let document = Json::parse(r#" {"b":[true,null,1.5,"té"],"a":{"x":"y"}} "#).unwrap();
    let list = json::as_array(json::get(Some(&document), "b")).unwrap();
    assert_eq!(list.len(), 4);
    assert!(matches!(list[0], Json::Bool(true)));
    assert!(matches!(list[1], Json::Null));
    assert!(matches!(list[2], Json::Number));
    assert_eq!(json::as_str(Some(&list[3])), Some("té"));
    let inner = json::get(json::get(Some(&document), "a"), "x");
    assert_eq!(json::as_str(inner), Some("y"));
    assert!(json::is_null(json::get(inner, "z")));
    assert!(json::is_null(json::get(Some(&document), "c")));
    assert!(json::first(json::get(Some(&document), "b")).is_some());
    assert!(json::first(json::get(Some(&document), "a")).is_none());
}

#[test]
fn other_texts_are_no_documents() {
    for text in ["", "{", "[1,]", "nul", "{\"a\":1} x", "\u{feff}{}"] {
        assert!(Json::parse(text).is_none(), "{text}");
    }
    let deep = "[".repeat(200) + &"]".repeat(200);
    assert!(Json::parse(&deep).is_none());
}

#[test]
fn the_last_of_two_equal_keys_counts() {
    let document = Json::parse(r#"{"k":"first","k":"second"}"#).unwrap();
    assert_eq!(json::as_str(json::get(Some(&document), "k")), Some("second"));
}

#[test]
fn values_can_be_built() {
    let mut fields = Vec::new();
    json::push_field(&mut fields, "k", json::text_value("v"));
    let value = json::array(vec![json::object(fields), Json::Null]);
    let first = json::first(Some(&value)).unwrap();
    assert_eq!(json::as_str(json::get(Some(first), "k")), Some("v"));
}
