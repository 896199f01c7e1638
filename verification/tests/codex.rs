use base64::Engine;
use e_agent::codex::{
    connect_retry, is_retryable_http_status, response_usage, retry_backoff_ms, start_call,
    status_error, step_call, CallAction, CallEvent, CallPhase, CodexModel, Fed, LoadedImage,
    ModelCall, ResponsesRequest, StreamError, StreamState, ToolSpec, CONNECT_RETRY_ATTEMPTS,
    RESPONSES_URL,
};
use e_agent::entry::Usage;
use e_agent::image::image_sha256;
use e_agent::json::{json_text, parse_json};
use e_agent::message::{AssistantMessage, ImagePart, Message, ModelDeltaKind, ToolCall};
use serde_json::Value;

fn user(content: &str, images: Vec<ImagePart>) -> Message {
    Message::User {
        content: content.into(),
        images,
    }
}

fn value(request: &ResponsesRequest) -> Value {
    serde_json::from_str(&json_text(&request.body)).unwrap()
}

#[test]
fn responses_wire_flattens_system_tools_and_tool_results() {
    let request = ResponsesRequest::from_internal(
        "codex",
        Some("high"),
        &[
            Message::System {
                content: "first".into(),
            },
            Message::System {
                content: "second".into(),
            },
            user("hello", vec![]),
            Message::Assistant(AssistantMessage {
                content: Some("working".into()),
                tool_calls: vec![ToolCall {
                    id: "call-1".into(),
                    name: "bash".into(),
                    arguments: "{}".into(),
                }],
                reasoning: Some("never replayed".into()),
            }),
            Message::Tool {
                call_id: "call-1".into(),
                name: "bash".into(),
                content: "failed".into(),
                is_error: true,
                synthetic: false,
                images: vec![],
            },
        ],
        &[ToolSpec {
            name: "bash".into(),
            description: "run".into(),
            parameters: parse_json(
                r#"{"type":"object","properties":{"workspace":{"type":"string"},"task":{"type":"string"}}}"#,
            )
            .unwrap(),
        }],
        &vec![],
    );
    let value = value(&request);
    assert_eq!(value["instructions"], "first\n\nsecond");
    assert_eq!(value["input"][0]["content"][0]["type"], "input_text");
    assert_eq!(value["input"][2]["type"], "function_call");
    assert_eq!(value["input"][3]["output"], "ERROR: failed");
    assert_eq!(value["tools"][0]["name"], "bash");
    assert!(value["tools"][0].get("function").is_none());
    // The order of the parameters is kept on the wire.
    let keys = value["tools"][0]["parameters"]["properties"]
        .as_object()
        .unwrap()
        .keys()
        .map(String::as_str)
        .collect::<Vec<_>>();
    assert_eq!(keys, ["workspace", "task"]);
    assert_eq!(value["reasoning"]["effort"], "high");
    assert_eq!(value["include"], Value::Array(vec![]));
    assert!(!json_text(&request.body).contains("never replayed"));
}

#[test]
fn responses_wire_emits_input_image_parts_for_attached_images() {
    let bytes = b"\x89PNG\r\n\x1a\nfake-png";
    let hash = image_sha256(bytes);
    let request = ResponsesRequest::from_internal(
        "codex",
        None,
        &[user(
            "what is this?",
            vec![ImagePart {
                hash: hash.clone(),
                mime: "image/png".into(),
            }],
        )],
        &[],
        &vec![LoadedImage {
            hash,
            bytes: bytes.to_vec(),
        }],
    );
    let value = value(&request);
    let parts = value["input"][0]["content"].as_array().unwrap();
    assert_eq!(parts[0]["type"], "input_text");
    assert_eq!(parts[0]["text"], "what is this?");
    // The image is a bare string, not an object.
    assert_eq!(parts[1]["type"], "input_image");
    let url = parts[1]["image_url"].as_str().unwrap();
    assert_eq!(
        url,
        format!(
            "data:image/png;base64,{}",
            base64::engine::general_purpose::STANDARD.encode(bytes)
        )
    );
}

#[test]
fn responses_wire_degrades_missing_image_to_text_placeholder() {
    let request = ResponsesRequest::from_internal(
        "codex",
        None,
        &[user(
            "hi",
            vec![ImagePart {
                hash: "missing-hash".into(),
                mime: "image/png".into(),
            }],
        )],
        &[],
        &vec![],
    );
    let value = value(&request);
    let parts = value["input"][0]["content"].as_array().unwrap();
    assert_eq!(parts[1]["type"], "input_text");
    assert_eq!(parts[1]["text"], "[image missing: missing-hash]");
}

#[test]
fn usage_requires_completed_usage_fields() {
    assert_eq!(
        response_usage(&parse_json(r#"{"input_tokens": 3, "output_tokens": 4}"#).unwrap()).unwrap(),
        Usage::of(3, 4)
    );
    assert!(response_usage(&parse_json(r#"{"input_tokens": 3}"#).unwrap()).is_err());
}

#[test]
fn retry_backoff_doubles_exponentially_within_a_63s_window() {
    let sleeps: Vec<u64> = (1..CONNECT_RETRY_ATTEMPTS)
        .map(|attempt| retry_backoff_ms(500, attempt))
        .collect();
    assert_eq!(sleeps, [500, 1000, 2000, 4000, 8000, 16000, 32000]);
    let total: u64 = sleeps.iter().sum();
    assert!(
        total >= 60_000,
        "backoff window must be >= 60s, got {total}ms"
    );
    for attempt in 2..CONNECT_RETRY_ATTEMPTS {
        assert_eq!(
            retry_backoff_ms(500, attempt),
            2 * retry_backoff_ms(500, attempt - 1)
        );
    }
}

#[test]
fn only_passing_failures_are_tried_again() {
    assert_eq!(connect_retry(1, true), Some(500));
    assert_eq!(connect_retry(7, true), Some(32000));
    assert_eq!(connect_retry(8, true), None);
    assert_eq!(connect_retry(1, false), None);
    for status in [403, 500, 503, 599] {
        assert!(is_retryable_http_status(status), "{status}");
    }
    for status in [200, 400, 401, 404, 429, 600] {
        assert!(!is_retryable_http_status(status), "{status}");
    }
}

#[test]
fn a_refused_login_is_renewed_once() {
    let (call, action) = start_call();
    assert_eq!(action, CallAction::Send { renew_if_due: true });
    let (call, action) = step_call(call, CallEvent::Answered { status: 401 });
    assert_eq!(action, CallAction::Renew);
    let (call, action) = step_call(call, CallEvent::Renewed);
    assert_eq!(
        action,
        CallAction::Send {
            renew_if_due: false
        }
    );
    let (again, action) = step_call(call, CallEvent::Answered { status: 401 });
    assert_eq!(action, CallAction::FailStatus);
    assert_eq!(again.phase, CallPhase::Over);
    let (call, action) = step_call(call, CallEvent::Answered { status: 200 });
    assert_eq!(action, CallAction::Read);
    let (_, action) = step_call(call, CallEvent::Streamed);
    assert_eq!(action, CallAction::Finish);
}

#[test]
fn overload_is_waited_out_until_the_attempts_are_used_up() {
    let (mut call, _) = start_call();
    for ms in [800, 1600] {
        let (next, action) = step_call(call, CallEvent::Answered { status: 503 });
        assert_eq!(action, CallAction::Pause { ms });
        let (next, action) = step_call(next, CallEvent::Paused);
        assert_eq!(action, CallAction::Send { renew_if_due: true });
        call = next;
    }
    assert_eq!(call.attempt, 3);
    let (_, action) = step_call(call, CallEvent::Answered { status: 503 });
    assert_eq!(action, CallAction::FailStatus);
    let streaming = ModelCall {
        attempt: 1,
        phase: CallPhase::Streaming,
    };
    let (_, action) = step_call(streaming, CallEvent::StreamFailed { broken: true });
    assert_eq!(action, CallAction::Pause { ms: 800 });
    let (_, action) = step_call(streaming, CallEvent::StreamFailed { broken: false });
    assert_eq!(action, CallAction::FailStream);
    assert_eq!(
        status_error("503 Service Unavailable", "busy"),
        "ChatGPT Responses returned HTTP 503 Service Unavailable: busy"
    );
}

#[test]
fn streams_bring_text_reasoning_calls_and_usage() {
    let mut stream = StreamState::new();
    let mut deltas = Vec::new();
    for data in [
        r#"{"type":"response.output_text.delta","delta":"hi"}"#,
        r#"{"type":"response.reasoning_summary_part.added","summary_index":0}"#,
        r#"{"type":"response.reasoning_summary_text.delta","delta":"**Planning**"}"#,
        r#"{"type":"response.reasoning_summary_part.added","summary_index":1}"#,
        r#"{"type":"response.reasoning_summary_text.delta","delta":"**Working**"}"#,
        r#"{"type":"response.output_item.done","item":{"type":"function_call","call_id":"c1","name":"bash","arguments":"{}"}}"#,
        r#"{"type":"response.completed","response":{"usage":{"input_tokens":3,"output_tokens":4}}}"#,
    ] {
        match stream.feed("message", data).unwrap() {
            Fed::More { delta: Some(delta) } => deltas.push((delta.kind, delta.text)),
            Fed::More { delta: None } => {}
            Fed::Done => panic!("the stream is not over"),
        }
    }
    let (message, usage) = stream.finish().unwrap();
    assert_eq!(message.content.as_deref(), Some("hi"));
    assert_eq!(
        message.reasoning.as_deref(),
        Some("**Planning**\n\n**Working**")
    );
    assert_eq!(message.tool_calls[0].id, "c1");
    assert_eq!(usage, Some(Usage::of(3, 4)));
    assert_eq!(
        deltas,
        vec![
            (ModelDeltaKind::Content, "hi".to_string()),
            (ModelDeltaKind::Reasoning, "**Planning**".to_string()),
            (ModelDeltaKind::Reasoning, "\n\n".to_string()),
            (ModelDeltaKind::Reasoning, "**Working**".to_string()),
        ]
    );
}

fn failure(data: &str) -> StreamError {
    StreamState::new().feed("message", data).unwrap_err()
}

#[test]
fn failures_of_the_provider_end_the_stream() {
    for (data, reason) in [
        (
            r#"{"type":"response.failed","error":{"message":"failed reason"}}"#,
            "failed reason",
        ),
        (
            r#"{"type":"response.incomplete","response":{"incomplete_details":{"reason":"max_output_tokens"}}}"#,
            "max_output_tokens",
        ),
        (
            r#"{"type":"error","message":"explicit reason"}"#,
            "explicit reason",
        ),
        (
            r#"{"type":"response.error","error":{"message":"response reason"}}"#,
            "response reason",
        ),
    ] {
        match failure(data) {
            StreamError::Refused { error } => assert!(error.contains(reason), "{error}"),
            other => panic!("expected a refusal, got {other:?}"),
        }
    }
    match failure("{not-json}") {
        StreamError::Broken { error } => {
            assert!(error.starts_with("cannot decode ChatGPT Responses event: "))
        }
        other => panic!("expected a broken stream, got {other:?}"),
    }
}

#[test]
fn a_stream_has_to_be_completed() {
    let mut stream = StreamState::new();
    assert_eq!(stream.feed("message", "[DONE]").unwrap(), Fed::Done);
    assert!(stream
        .finish()
        .unwrap_err()
        .contains("before response.completed"));
    let mut stream = StreamState::new();
    stream
        .feed("response.output_text.delta", r#"{"delta":"partial"}"#)
        .unwrap();
    assert_eq!(stream.content, "partial");
    assert!(stream
        .finish()
        .unwrap_err()
        .contains("before response.completed"));
}

#[test]
fn models_without_vision_refuse_images() {
    let model = CodexModel::new("codex".into(), Some("high".into()));
    assert_eq!(model.name(), "codex");
    assert_eq!(model.endpoint, RESPONSES_URL);
    assert!(!model.supports_vision());
    let messages = [user(
        "look",
        vec![ImagePart {
            hash: "h".into(),
            mime: "image/png".into(),
        }],
    )];
    assert_eq!(
        model.request(&messages, &[], &vec![]).unwrap_err(),
        "model codex does not support image input"
    );
    let model = model.with_vision(true);
    let request = model.request(&messages, &[], &vec![]).unwrap();
    assert_eq!(value(&request)["model"], "codex");
    assert_eq!(value(&request)["reasoning"]["effort"], "high");
}

#[test]
fn images_of_tool_results_are_sent_as_parts() {
    let request = ResponsesRequest::from_internal(
        "codex",
        None,
        &[Message::Tool {
            call_id: "c".into(),
            name: "read_image".into(),
            content: "read".into(),
            is_error: false,
            synthetic: false,
            images: vec![ImagePart {
                hash: "h".into(),
                mime: "image/png".into(),
            }],
        }],
        &[],
        &vec![LoadedImage {
            hash: "h".into(),
            bytes: vec![1, 2, 3],
        }],
    );
    let value = value(&request);
    let output = value["input"][0]["output"].as_array().unwrap();
    assert_eq!(output[0]["text"], "read");
    assert_eq!(output[1]["image_url"], "data:image/png;base64,AQID");
}
