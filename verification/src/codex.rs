//! The responses wire: requests, the event stream that answers them, and when a
//! failed request is sent again.
use vstd::prelude::*;

use crate::encoding::{base64_of, base64_text};
use crate::entry::{plain_usage, Usage, UsageView};
use crate::json::{
    add_item, get, json_parsed, json_text_of, parse_with_text, put, str_of, u64_of, Json, JsonView,
    NumberView,
};
use crate::message::{
    ensure_vision_supported, has_images, vision_error, AssistantMessage, AssistantView, CallView,
    ImagePart, ImageView, Message, MessageView, ModelDeltaKind, ToolCall,
};
use crate::text::{join, joined, preview, previewed, same_text};

verus! {

/// Attempts for a request that no byte came back for.
pub const CONNECT_RETRY_ATTEMPTS: u32 = 8;

/// First pause between such attempts, in milliseconds.
pub const CONNECT_RETRY_BASE_BACKOFF_MS: u64 = 500;

/// Attempts for a request that the server refused or whose stream broke off.
pub const HTTP_RETRY_ATTEMPTS: u32 = 3;

/// First pause between such attempts, in milliseconds.
pub const HTTP_RETRY_BASE_BACKOFF_MS: u64 = 800;

/// Pause before the retry `attempt`, counted from 1: it doubles every time.
pub open spec fn backoff_ms(base: nat, attempt: nat) -> nat
    decreases attempt,
{
    if attempt <= 1 {
        base
    } else {
        2 * backoff_ms(base, (attempt - 1) as nat)
    }
}

proof fn lemma_backoff_grows(base: nat, a: nat, b: nat)
    requires
        1 <= a <= b,
    ensures
        backoff_ms(base, a) <= backoff_ms(base, b),
    decreases b,
{
    if a < b {
        lemma_backoff_grows(base, a, (b - 1) as nat);
    }
}

/// Pause before the retry `attempt`, counted from 1: it doubles every time.
pub fn retry_backoff_ms(base_ms: u64, attempt: u32) -> (r: u64)
    requires
        attempt >= 1,
        backoff_ms(base_ms as nat, attempt as nat) <= u64::MAX,
    ensures
        r == backoff_ms(base_ms as nat, attempt as nat),
{
    let mut ms: u64 = base_ms;
    let mut i: u32 = 1;
    while i < attempt
        invariant
            1 <= i <= attempt,
            ms == backoff_ms(base_ms as nat, i as nat),
            backoff_ms(base_ms as nat, attempt as nat) <= u64::MAX,
        decreases attempt - i,
    {
        proof {
            lemma_backoff_grows(base_ms as nat, (i + 1) as nat, attempt as nat);
        }
        ms = ms * 2;
        i += 1;
    }
    ms
}

/// A pause is the first one times a power of two.
pub proof fn backoff_is_exponential(base: nat, attempt: nat)
    requires
        attempt >= 1,
    ensures
        backoff_ms(base, attempt) == base * vstd::arithmetic::power2::pow2((attempt - 1) as nat),
    decreases attempt,
{
    if attempt > 1 {
        backoff_is_exponential(base, (attempt - 1) as nat);
        vstd::arithmetic::power2::lemma_pow2_unfold((attempt - 1) as nat);
        let p = vstd::arithmetic::power2::pow2((attempt - 2) as nat);
        assert(vstd::arithmetic::power2::pow2((attempt - 1) as nat) == 2 * p);
        assert(2 * (base * p) == base * (2 * p)) by (nonlinear_arith);
    } else {
        vstd::arithmetic::power2::lemma2_to64();
        assert(base * 1 == base) by (nonlinear_arith);
    }
}

/// Refusals of the server that may pass: 403 and every 5xx.
pub open spec fn passing_status(status: u16) -> bool {
    status == 403 || 500 <= status <= 599
}

/// Whether a refusal of the server may pass.
pub fn is_retryable_http_status(status: u16) -> (r: bool)
    ensures
        r == passing_status(status),
{
    status == 403 || (500 <= status && status <= 599)
}

/// What to do about a request that no answer came to: after how many
/// milliseconds it is sent again; nothing where it has failed for good. Only
/// failures that may pass are tried again, and only as long as attempts are
/// left.
pub fn connect_retry(attempt: u32, passing: bool) -> (r: Option<u64>)
    requires
        attempt >= 1,
    ensures
        r is Some <==> passing && attempt < CONNECT_RETRY_ATTEMPTS,
        r matches Some(ms) ==> ms == backoff_ms(
            CONNECT_RETRY_BASE_BACKOFF_MS as nat,
            attempt as nat,
        ),
{
    if !passing || attempt >= CONNECT_RETRY_ATTEMPTS {
        return None;
    }
    proof {
        reveal_with_fuel(backoff_ms, 9);
        lemma_backoff_grows(CONNECT_RETRY_BASE_BACKOFF_MS as nat, attempt as nat, 8);
    }
    Some(retry_backoff_ms(CONNECT_RETRY_BASE_BACKOFF_MS, attempt))
}

/// Where a model call stands.
#[derive(Clone, Copy, Debug, PartialEq, Eq, Structural)]
pub enum CallPhase {
    /// The request was sent; `renewed` says that the login was renewed for it.
    Sent { renewed: bool },
    /// The login is renewed.
    Renewing,
    /// The call waits before the request is sent again.
    Pausing,
    /// The answer streams in.
    Streaming,
    /// The call is over.
    Over,
}

/// A model call with its attempts.
#[derive(Clone, Copy, Debug, PartialEq, Eq, Structural)]
pub struct ModelCall {
    pub attempt: u32,
    pub phase: CallPhase,
}

/// What happened to a model call.
#[derive(Clone, Copy, Debug, PartialEq, Eq, Structural)]
pub enum CallEvent {
    /// The server answered with this status.
    Answered { status: u16 },
    /// The login was renewed.
    Renewed,
    /// The pause is over.
    Paused,
    /// The stream was read to its end.
    Streamed,
    /// The stream failed; `broken` says that it was cut short, as opposed to
    /// the server reporting a failure.
    StreamFailed { broken: bool },
}

/// What a model call does next.
#[derive(Clone, Copy, Debug, PartialEq, Eq, Structural)]
pub enum CallAction {
    /// Send the request; `renew_if_due` says that an old login is renewed first.
    Send { renew_if_due: bool },
    /// Renew the login that the server refused.
    Renew,
    /// Wait.
    Pause { ms: u64 },
    /// Read the stream.
    Read,
    /// Hand over the answer.
    Finish,
    /// Report the refusal of the server.
    FailStatus,
    /// Report the failure of the stream.
    FailStream,
}

/// The answer has a status of success.
pub open spec fn succeeded(status: u16) -> bool {
    200 <= status <= 299
}

/// The event is one that the phase waits for.
pub open spec fn call_expects(call: ModelCall, event: CallEvent) -> bool {
    match (call.phase, event) {
        (CallPhase::Sent { .. }, CallEvent::Answered { .. }) => true,
        (CallPhase::Renewing, CallEvent::Renewed) => true,
        (CallPhase::Pausing, CallEvent::Paused) => true,
        (CallPhase::Streaming, CallEvent::Streamed) => true,
        (CallPhase::Streaming, CallEvent::StreamFailed { .. }) => true,
        _ => false,
    }
}

/// Send the request again after a pause.
pub open spec fn paused_call(attempt: u32) -> (ModelCall, CallAction) {
    (
        ModelCall { attempt, phase: CallPhase::Pausing },
        CallAction::Pause {
            ms: backoff_ms(HTTP_RETRY_BASE_BACKOFF_MS as nat, attempt as nat) as u64,
        },
    )
}

/// The next step of a model call. A refused login is renewed once for each
/// attempt; refusals that may pass and broken streams start another attempt as
/// long as there are any.
pub open spec fn call_stepped(call: ModelCall, event: CallEvent) -> (ModelCall, CallAction) {
    let over = ModelCall { attempt: call.attempt, phase: CallPhase::Over };
    match (call.phase, event) {
        (CallPhase::Sent { renewed }, CallEvent::Answered { status }) => if status == 401
            && !renewed {
            (ModelCall { phase: CallPhase::Renewing, ..call }, CallAction::Renew)
        } else if passing_status(status) && call.attempt < HTTP_RETRY_ATTEMPTS {
            paused_call(call.attempt)
        } else if !succeeded(status) {
            (over, CallAction::FailStatus)
        } else {
            (ModelCall { phase: CallPhase::Streaming, ..call }, CallAction::Read)
        },
        (CallPhase::Renewing, _) => (
            ModelCall { phase: CallPhase::Sent { renewed: true }, ..call },
            CallAction::Send { renew_if_due: false },
        ),
        (CallPhase::Pausing, _) => (
            ModelCall {
                attempt: (call.attempt + 1) as u32,
                phase: CallPhase::Sent { renewed: false },
            },
            CallAction::Send { renew_if_due: true },
        ),
        (CallPhase::Streaming, CallEvent::StreamFailed { broken }) => if broken && call.attempt
            < HTTP_RETRY_ATTEMPTS {
            paused_call(call.attempt)
        } else {
            (over, CallAction::FailStream)
        },
        _ => (over, CallAction::Finish),
    }
}

/// Start a model call.
pub fn start_call() -> (r: (ModelCall, CallAction))
    ensures
        r == (
            ModelCall { attempt: 1, phase: CallPhase::Sent { renewed: false } },
            CallAction::Send { renew_if_due: true },
        ),
{
    (
        ModelCall { attempt: 1, phase: CallPhase::Sent { renewed: false } },
        CallAction::Send { renew_if_due: true },
    )
}

/// The next step of a model call.
pub fn step_call(call: ModelCall, event: CallEvent) -> (r: (ModelCall, CallAction))
    requires
        call_expects(call, event),
        1 <= call.attempt <= HTTP_RETRY_ATTEMPTS,
        call.phase is Pausing ==> call.attempt < HTTP_RETRY_ATTEMPTS,
    ensures
        r == call_stepped(call, event),
{
    let attempt: u32 = call.attempt;
    proof {
        reveal_with_fuel(backoff_ms, 4);
        lemma_backoff_grows(HTTP_RETRY_BASE_BACKOFF_MS as nat, attempt as nat, 3);
    }
    match (call.phase, event) {
        (CallPhase::Sent { renewed }, CallEvent::Answered { status }) => {
            if status == 401 && !renewed {
                return (ModelCall { attempt, phase: CallPhase::Renewing }, CallAction::Renew);
            }
            if is_retryable_http_status(status) && attempt < HTTP_RETRY_ATTEMPTS {
                let ms: u64 = retry_backoff_ms(HTTP_RETRY_BASE_BACKOFF_MS, attempt);
                return (ModelCall { attempt, phase: CallPhase::Pausing }, CallAction::Pause { ms });
            }
            if status < 200 || status > 299 {
                return (ModelCall { attempt, phase: CallPhase::Over }, CallAction::FailStatus);
            }
            (ModelCall { attempt, phase: CallPhase::Streaming }, CallAction::Read)
        },
        (CallPhase::Renewing, _) => (
            ModelCall { attempt, phase: CallPhase::Sent { renewed: true } },
            CallAction::Send { renew_if_due: false },
        ),
        (CallPhase::Pausing, _) => (
            ModelCall { attempt: attempt + 1, phase: CallPhase::Sent { renewed: false } },
            CallAction::Send { renew_if_due: true },
        ),
        (CallPhase::Streaming, CallEvent::StreamFailed { broken }) => {
            if broken && attempt < HTTP_RETRY_ATTEMPTS {
                let ms: u64 = retry_backoff_ms(HTTP_RETRY_BASE_BACKOFF_MS, attempt);
                return (ModelCall { attempt, phase: CallPhase::Pausing }, CallAction::Pause { ms });
            }
            (ModelCall { attempt, phase: CallPhase::Over }, CallAction::FailStream)
        },
        _ => (ModelCall { attempt, phase: CallPhase::Over }, CallAction::Finish),
    }
}

/// A model call with an attempt that it is allowed.
pub open spec fn call_sound(call: ModelCall) -> bool {
    &&& 1 <= call.attempt <= HTTP_RETRY_ATTEMPTS
    &&& call.phase is Pausing ==> call.attempt < HTTP_RETRY_ATTEMPTS
}

/// How many steps a model call can still make.
pub open spec fn steps_left(call: ModelCall) -> nat {
    let rest = 5 * (HTTP_RETRY_ATTEMPTS - call.attempt);
    (rest + match call.phase {
        CallPhase::Sent { renewed } => if renewed {
            3int
        } else {
            5
        },
        CallPhase::Renewing => 4,
        CallPhase::Streaming => 2,
        CallPhase::Pausing => 1,
        CallPhase::Over => 0,
    }) as nat
}

/// Every model call ends: each step leaves fewer to make, no call has more
/// attempts than allowed, and none renews the login twice in one attempt.
pub proof fn model_calls_end(call: ModelCall, event: CallEvent)
    requires
        call_sound(call),
        call_expects(call, event),
    ensures
        call_sound(call_stepped(call, event).0),
        steps_left(call_stepped(call, event).0) < steps_left(call),
        call.phase == (CallPhase::Sent { renewed: true }) ==> call_stepped(call, event).1
            != CallAction::Renew,
{
}

/// A tool as it is offered to the model.
#[derive(Debug, PartialEq)]
pub struct ToolSpec {
    pub name: String,
    pub description: String,
    /// JSON schema of the arguments.
    pub parameters: Json,
}

/// Model of a [`ToolSpec`].
#[verifier::ext_equal]
pub struct SpecView {
    pub name: Seq<char>,
    pub description: Seq<char>,
    pub parameters: JsonView,
}

impl DeepView for ToolSpec {
    type V = SpecView;

    open spec fn deep_view(&self) -> SpecView {
        SpecView {
            name: self.name@,
            description: self.description@,
            parameters: self.parameters.deep_view(),
        }
    }
}

impl Clone for ToolSpec {
    fn clone(&self) -> (r: Self)
        ensures
            r.deep_view() == self.deep_view(),
    {
        ToolSpec {
            name: self.name.clone(),
            description: self.description.clone(),
            parameters: self.parameters.clone(),
        }
    }
}

/// The bytes of an image that could be loaded.
#[derive(Debug, PartialEq)]
pub struct LoadedImage {
    pub hash: String,
    pub bytes: Vec<u8>,
}

/// Model of a [`LoadedImage`].
pub struct LoadedView {
    pub hash: Seq<char>,
    pub bytes: Seq<u8>,
}

impl DeepView for LoadedImage {
    type V = LoadedView;

    open spec fn deep_view(&self) -> LoadedView {
        LoadedView { hash: self.hash@, bytes: self.bytes@ }
    }
}

/// The bytes of an image among those that could be loaded.
pub open spec fn loaded_bytes(loaded: Seq<LoadedView>, hash: Seq<char>) -> Option<Seq<u8>>
    decreases loaded.len(),
{
    if loaded.len() == 0 {
        None
    } else if loaded[0].hash == hash {
        Some(loaded[0].bytes)
    } else {
        loaded_bytes(loaded.drop_first(), hash)
    }
}

/// A text part of a request.
pub open spec fn text_part(text: Seq<char>) -> JsonView {
    JsonView::Object(
        seq![("type"@, JsonView::Str("input_text"@)), ("text"@, JsonView::Str(text))],
    )
}

/// An image part of a request: the image itself, or a note where it is missing.
pub open spec fn image_part_json(image: ImageView, bytes: Option<Seq<u8>>) -> JsonView {
    match bytes {
        Some(bytes) => JsonView::Object(
            seq![
                ("type"@, JsonView::Str("input_image"@)),
                (
                    "image_url"@,
                    JsonView::Str(
                        "data:"@ + image.mime + ";base64,"@ + base64_of(bytes),
                    ),
                ),
            ],
        ),
        None => text_part("[image missing: "@ + image.hash + "]"@),
    }
}

/// A text part followed by one part for each image.
pub open spec fn parts_json(
    text: Seq<char>,
    images: Seq<ImageView>,
    loaded: Seq<LoadedView>,
) -> JsonView {
    JsonView::Array(
        seq![text_part(text)] + images.map_values(
            |image: ImageView| image_part_json(image, loaded_bytes(loaded, image.hash)),
        ),
    )
}

/// A tool call as an input item.
pub open spec fn call_item(call: CallView) -> JsonView {
    JsonView::Object(
        seq![
            ("type"@, JsonView::Str("function_call"@)),
            ("name"@, JsonView::Str(call.name)),
            ("arguments"@, JsonView::Str(call.arguments)),
            ("call_id"@, JsonView::Str(call.id)),
        ],
    )
}

/// An assistant text as an input item.
pub open spec fn answer_item(text: Seq<char>) -> JsonView {
    JsonView::Object(
        seq![
            ("type"@, JsonView::Str("message"@)),
            ("role"@, JsonView::Str("assistant"@)),
            (
                "content"@,
                JsonView::Array(
                    seq![
                        JsonView::Object(
                            seq![
                                ("type"@, JsonView::Str("output_text"@)),
                                ("text"@, JsonView::Str(text)),
                            ],
                        ),
                    ],
                ),
            ),
        ],
    )
}

/// The text of a tool result on the wire; errors are marked.
pub open spec fn output_text(content: Seq<char>, is_error: bool) -> Seq<char> {
    if is_error {
        "ERROR: "@ + content
    } else {
        content
    }
}

/// The input items of a message: none for system messages, which become
/// instructions; one for user messages and tool results; one for the text of an
/// assistant message and one for each of its calls. The output of a tool result
/// is its text, or a list of parts where it carries images.
pub open spec fn message_items(message: MessageView, loaded: Seq<LoadedView>) -> Seq<JsonView> {
    match message {
        MessageView::System { .. } => Seq::empty(),
        MessageView::User { content, images } => seq![
            JsonView::Object(
                seq![
                    ("type"@, JsonView::Str("message"@)),
                    ("role"@, JsonView::Str("user"@)),
                    ("content"@, parts_json(content, images, loaded)),
                ],
            ),
        ],
        MessageView::Assistant(assistant) => {
            let text = match assistant.content {
                Some(content) => seq![answer_item(content)],
                None => Seq::empty(),
            };
            text + assistant.tool_calls.map_values(|call: CallView| call_item(call))
        },
        MessageView::Tool { call_id, content, images, is_error, .. } => {
            let text = output_text(content, is_error);
            let output = if images.len() > 0 {
                parts_json(text, images, loaded)
            } else {
                JsonView::Str(text)
            };
            seq![
                JsonView::Object(
                    seq![
                        ("type"@, JsonView::Str("function_call_output"@)),
                        ("call_id"@, JsonView::Str(call_id)),
                        ("output"@, output),
                    ],
                ),
            ]
        },
    }
}

/// The input items of all messages, in order.
pub open spec fn input_items(messages: Seq<MessageView>, loaded: Seq<LoadedView>) -> Seq<JsonView>
    decreases messages.len(),
{
    if messages.len() == 0 {
        Seq::empty()
    } else {
        input_items(messages.drop_last(), loaded) + message_items(messages.last(), loaded)
    }
}

/// The texts of the system messages, in order.
pub open spec fn system_texts(messages: Seq<MessageView>) -> Seq<Seq<char>>
    decreases messages.len(),
{
    if messages.len() == 0 {
        Seq::empty()
    } else {
        let head = system_texts(messages.drop_last());
        match messages.last() {
            MessageView::System { content } => head.push(content),
            _ => head,
        }
    }
}

/// A tool on the wire.
pub open spec fn tool_json(tool: SpecView) -> JsonView {
    JsonView::Object(
        seq![
            ("type"@, JsonView::Str("function"@)),
            ("name"@, JsonView::Str(tool.name)),
            ("description"@, JsonView::Str(tool.description)),
            ("parameters"@, tool.parameters),
            ("strict"@, JsonView::Bool(false)),
        ],
    )
}

/// The whole request.
pub open spec fn request_json(
    model: Seq<char>,
    reasoning_effort: Option<Seq<char>>,
    messages: Seq<MessageView>,
    tools: Seq<SpecView>,
    loaded: Seq<LoadedView>,
) -> JsonView {
    let fields = seq![
        ("model"@, JsonView::Str(model)),
        ("instructions"@, JsonView::Str(joined(system_texts(messages), "\n\n"@))),
        ("input"@, JsonView::Array(input_items(messages, loaded))),
        ("tools"@, JsonView::Array(tools.map_values(|tool: SpecView| tool_json(tool)))),
        ("tool_choice"@, JsonView::Str("auto"@)),
        ("parallel_tool_calls"@, JsonView::Bool(false)),
        ("store"@, JsonView::Bool(false)),
        ("stream"@, JsonView::Bool(true)),
        ("include"@, JsonView::Array(Seq::empty())),
    ];
    JsonView::Object(
        match reasoning_effort {
            Some(effort) => fields.push(
                (
                    "reasoning"@,
                    JsonView::Object(
                        seq![
                            ("effort"@, JsonView::Str(effort)),
                            ("summary"@, JsonView::Str("auto"@)),
                        ],
                    ),
                ),
            ),
            None => fields,
        },
    )
}

/// Position of an image among those that could be loaded, or their number.
fn find_loaded(loaded: &Vec<LoadedImage>, hash: &str) -> (r: usize)
    ensures
        r <= loaded@.len(),
        loaded_bytes(loaded.deep_view(), hash@) == if r < loaded@.len() {
            Some(loaded@[r as int].bytes@)
        } else {
            None
        },
{
    let ghost views = loaded.deep_view();
    let mut i: usize = 0;
    assert(views.skip(0) =~= views);
    while i < loaded.len()
        invariant
            i <= loaded.len(),
            views == loaded.deep_view(),
            loaded_bytes(views, hash@) == loaded_bytes(views.skip(i as int), hash@),
        decreases loaded.len() - i,
    {
        assert(views.skip(i as int)[0] == loaded@[i as int].deep_view());
        assert(views.skip(i as int).drop_first() =~= views.skip(i + 1));
        if same_text(loaded[i].hash.as_str(), hash) {
            return i;
        }
        i += 1;
    }
    i
}

/// A text part of a request.
fn text_part_of(text: &str) -> (r: Json)
    ensures
        r.deep_view() == text_part(text@),
{
    let mut fields: Vec<(String, Json)> = Vec::new();
    put(&mut fields, "type", Json::string("input_text"));
    put(&mut fields, "text", Json::string(text));
    assert(fields.deep_view() =~= text_part(text@)->Object_0);
    Json::object(fields)
}

/// An image part of a request.
fn image_part_of(image: &ImagePart, loaded: &Vec<LoadedImage>) -> (r: Json)
    ensures
        r.deep_view() == image_part_json(
            image.deep_view(),
            loaded_bytes(loaded.deep_view(), image.hash@),
        ),
{
    let at: usize = find_loaded(loaded, image.hash.as_str());
    if at == loaded.len() {
        let mut text = "[image missing: ".to_owned();
        text.push_str(image.hash.as_str());
        text.push_str("]");
        return text_part_of(text.as_str());
    }
    let mut url = "data:".to_owned();
    url.push_str(image.mime.as_str());
    url.push_str(";base64,");
    url.push_str(base64_text(loaded[at].bytes.as_slice()).as_str());
    let mut fields: Vec<(String, Json)> = Vec::new();
    put(&mut fields, "type", Json::string("input_image"));
    put(&mut fields, "image_url", Json::string(url.as_str()));
    let ghost whole = image_part_json(
        image.deep_view(),
        loaded_bytes(loaded.deep_view(), image.hash@),
    );
    assert(fields.deep_view() =~= whole->Object_0);
    Json::object(fields)
}

/// A text part followed by one part for each image.
fn parts_of(text: &str, images: &Vec<ImagePart>, loaded: &Vec<LoadedImage>) -> (r: Json)
    ensures
        r.deep_view() == parts_json(text@, images.deep_view(), loaded.deep_view()),
{
    let ghost whole = parts_json(text@, images.deep_view(), loaded.deep_view())->Array_0;
    let mut parts: Vec<Json> = Vec::new();
    add_item(&mut parts, text_part_of(text));
    assert(parts.deep_view() =~= whole.take(1));
    let mut i: usize = 0;
    while i < images.len()
        invariant
            i <= images.len(),
            whole == parts_json(text@, images.deep_view(), loaded.deep_view())->Array_0,
            parts.deep_view() == whole.take(i + 1),
        decreases images.len() - i,
    {
        add_item(&mut parts, image_part_of(&images[i], loaded));
        i += 1;
        assert(images.deep_view()[i - 1] == images@[i - 1].deep_view());
        assert(whole.take(i + 1) =~= whole.take(i as int).push(whole[i as int]));
    }
    assert(whole.take(whole.len() as int) =~= whole);
    Json::array(parts)
}

/// A tool call as an input item.
fn call_item_of(call: &ToolCall) -> (r: Json)
    ensures
        r.deep_view() == call_item(call.deep_view()),
{
    let mut fields: Vec<(String, Json)> = Vec::new();
    put(&mut fields, "type", Json::string("function_call"));
    put(&mut fields, "name", Json::string(call.name.as_str()));
    put(&mut fields, "arguments", Json::string(call.arguments.as_str()));
    put(&mut fields, "call_id", Json::string(call.id.as_str()));
    assert(fields.deep_view() =~= call_item(call.deep_view())->Object_0);
    Json::object(fields)
}

/// An assistant text as an input item.
fn answer_item_of(text: &str) -> (r: Json)
    ensures
        r.deep_view() == answer_item(text@),
{
    let mut inner: Vec<(String, Json)> = Vec::new();
    put(&mut inner, "type", Json::string("output_text"));
    put(&mut inner, "text", Json::string(text));
    assert(inner.deep_view() =~= seq![
        ("type"@, JsonView::Str("output_text"@)),
        ("text"@, JsonView::Str(text@)),
    ]);
    let mut parts: Vec<Json> = Vec::new();
    add_item(&mut parts, Json::object(inner));
    let ghost part = JsonView::Object(
        seq![("type"@, JsonView::Str("output_text"@)), ("text"@, JsonView::Str(text@))],
    );
    assert(parts.deep_view() =~= seq![part]);
    let mut fields: Vec<(String, Json)> = Vec::new();
    put(&mut fields, "type", Json::string("message"));
    put(&mut fields, "role", Json::string("assistant"));
    put(&mut fields, "content", Json::array(parts));
    assert(fields.deep_view() =~= answer_item(text@)->Object_0);
    Json::object(fields)
}

/// Append the input items of a message.
fn push_items(items: &mut Vec<Json>, message: &Message, loaded: &Vec<LoadedImage>)
    ensures
        final(items).deep_view() == old(items).deep_view() + message_items(
            message.deep_view(),
            loaded.deep_view(),
        ),
{
    let ghost before = items.deep_view();
    let ghost added = message_items(message.deep_view(), loaded.deep_view());
    match message {
        Message::System { .. } => {
            assert(before + added =~= before);
        },
        Message::User { content, images } => {
            let mut fields: Vec<(String, Json)> = Vec::new();
            put(&mut fields, "type", Json::string("message"));
            put(&mut fields, "role", Json::string("user"));
            put(&mut fields, "content", parts_of(content.as_str(), images, loaded));
            assert(fields.deep_view() =~= added[0]->Object_0);
            add_item(items, Json::object(fields));
            assert(items.deep_view() =~= before + added);
        },
        Message::Assistant(assistant) => {
            if let Some(content) = &assistant.content {
                add_item(items, answer_item_of(content.as_str()));
            }
            let ghost start = items.deep_view();
            let ghost calls = assistant.tool_calls.deep_view();
            let ghost shown = calls.map_values(|call: CallView| call_item(call));
            let mut i: usize = 0;
            assert(start + shown.take(0) =~= start);
            while i < assistant.tool_calls.len()
                invariant
                    i <= assistant.tool_calls.len(),
                    calls == assistant.tool_calls.deep_view(),
                    shown == calls.map_values(|call: CallView| call_item(call)),
                    items.deep_view() == start + shown.take(i as int),
                decreases assistant.tool_calls.len() - i,
            {
                add_item(items, call_item_of(&assistant.tool_calls[i]));
                i += 1;
                assert(start + shown.take(i as int) =~= (start + shown.take(i - 1)).push(
                    shown[i - 1],
                ));
            }
            assert(shown.take(shown.len() as int) =~= shown);
            assert(items.deep_view() =~= before + added);
        },
        Message::Tool { call_id, content, images, is_error, .. } => {
            let text = if *is_error {
                let mut marked = "ERROR: ".to_owned();
                marked.push_str(content.as_str());
                marked
            } else {
                content.clone()
            };
            let output = if images.len() > 0 {
                parts_of(text.as_str(), images, loaded)
            } else {
                Json::string(text.as_str())
            };
            let mut fields: Vec<(String, Json)> = Vec::new();
            put(&mut fields, "type", Json::string("function_call_output"));
            put(&mut fields, "call_id", Json::string(call_id.as_str()));
            put(&mut fields, "output", output);
            assert(fields.deep_view() =~= added[0]->Object_0);
            add_item(items, Json::object(fields));
            assert(items.deep_view() =~= before + added);
        },
    }
}

/// The models of the messages in a slice.
pub open spec fn message_views(messages: Seq<Message>) -> Seq<MessageView> {
    messages.map_values(|message: Message| message.deep_view())
}

/// The models of the tools in a slice.
pub open spec fn spec_views(tools: Seq<ToolSpec>) -> Seq<SpecView> {
    tools.map_values(|tool: ToolSpec| tool.deep_view())
}

/// The texts of the system messages, one after the other.
fn instructions_of(messages: &[Message]) -> (r: String)
    ensures
        r@ == joined(system_texts(message_views(messages@)), "\n\n"@),
{
    let ghost views = message_views(messages@);
    let mut texts: Vec<String> = Vec::new();
    assert(texts.deep_view() =~= Seq::empty());
    let mut i: usize = 0;
    while i < messages.len()
        invariant
            i <= messages@.len(),
            views == message_views(messages@),
            texts.deep_view() == system_texts(views.take(i as int)),
        decreases messages@.len() - i,
    {
        proof {
            let head = views.take(i + 1);
            assert(head.drop_last() =~= views.take(i as int));
            assert(head.last() == messages@[i as int].deep_view());
        }
        if let Message::System { content } = &messages[i] {
            let ghost before = texts.deep_view();
            texts.push(content.clone());
            assert(texts.deep_view() =~= before.push(content@));
        }
        i += 1;
    }
    assert(views.take(views.len() as int) =~= views);
    join(&texts, "\n\n")
}

/// A request of the responses wire, as a JSON document.
#[derive(Debug, PartialEq)]
pub struct ResponsesRequest {
    pub body: Json,
}

impl ResponsesRequest {
    /// The request for a context. `loaded` holds the images that could be
    /// loaded; a missing one is replaced by a note.
    pub fn from_internal(
        model: &str,
        reasoning_effort: Option<&str>,
        messages: &[Message],
        tools: &[ToolSpec],
        loaded: &Vec<LoadedImage>,
    ) -> (r: Self)
        ensures
            r.body.deep_view() == request_json(
                model@,
                reasoning_effort.deep_view(),
                message_views(messages@),
                spec_views(tools@),
                loaded.deep_view(),
            ),
    {
        let ghost views = message_views(messages@);
        let ghost specs = spec_views(tools@);
        let ghost shown = specs.map_values(|tool: SpecView| tool_json(tool));
        let mut items: Vec<Json> = Vec::new();
        assert(items.deep_view() =~= Seq::empty());
        let mut i: usize = 0;
        while i < messages.len()
            invariant
                i <= messages@.len(),
                views == message_views(messages@),
                items.deep_view() == input_items(views.take(i as int), loaded.deep_view()),
            decreases messages@.len() - i,
        {
            proof {
                let head = views.take(i + 1);
                assert(head.drop_last() =~= views.take(i as int));
                assert(head.last() == messages@[i as int].deep_view());
            }
            push_items(&mut items, &messages[i], loaded);
            i += 1;
        }
        assert(views.take(views.len() as int) =~= views);
        let mut offered: Vec<Json> = Vec::new();
        assert(offered.deep_view() =~= shown.take(0));
        let mut k: usize = 0;
        while k < tools.len()
            invariant
                k <= tools@.len(),
                specs == spec_views(tools@),
                shown == specs.map_values(|tool: SpecView| tool_json(tool)),
                offered.deep_view() == shown.take(k as int),
            decreases tools@.len() - k,
        {
            let mut fields: Vec<(String, Json)> = Vec::new();
            put(&mut fields, "type", Json::string("function"));
            put(&mut fields, "name", Json::string(tools[k].name.as_str()));
            put(&mut fields, "description", Json::string(tools[k].description.as_str()));
            put(&mut fields, "parameters", tools[k].parameters.clone());
            put(&mut fields, "strict", Json::Bool(false));
            assert(fields.deep_view() =~= shown[k as int]->Object_0);
            add_item(&mut offered, Json::object(fields));
            k += 1;
            assert(shown.take(k as int) =~= shown.take(k - 1).push(shown[k - 1]));
        }
        assert(shown.take(shown.len() as int) =~= shown);
        let nothing: Vec<Json> = Vec::new();
        assert(nothing.deep_view() =~= Seq::empty());
        let mut fields: Vec<(String, Json)> = Vec::new();
        put(&mut fields, "model", Json::string(model));
        put(&mut fields, "instructions", Json::string(instructions_of(messages).as_str()));
        put(&mut fields, "input", Json::array(items));
        put(&mut fields, "tools", Json::array(offered));
        put(&mut fields, "tool_choice", Json::string("auto"));
        put(&mut fields, "parallel_tool_calls", Json::Bool(false));
        put(&mut fields, "store", Json::Bool(false));
        put(&mut fields, "stream", Json::Bool(true));
        put(&mut fields, "include", Json::array(nothing));
        if let Some(effort) = reasoning_effort {
            let mut inner: Vec<(String, Json)> = Vec::new();
            put(&mut inner, "effort", Json::string(effort));
            put(&mut inner, "summary", Json::string("auto"));
            assert(inner.deep_view() =~= seq![
                ("effort"@, JsonView::Str(effort@)),
                ("summary"@, JsonView::Str("auto"@)),
            ]);
            put(&mut fields, "reasoning", Json::object(inner));
        }
        let ghost whole = request_json(
            model@,
            reasoning_effort.deep_view(),
            views,
            specs,
            loaded.deep_view(),
        );
        assert(fields.deep_view() =~= whole->Object_0);
        ResponsesRequest { body: Json::object(fields) }
    }
}

/// Where requests are sent.
pub const RESPONSES_URL: &'static str = "https://chatgpt.com/backend-api/codex/responses";

/// A model that is reached over the responses wire.
#[derive(Debug, PartialEq)]
pub struct CodexModel {
    pub model: String,
    pub reasoning_effort: Option<String>,
    pub endpoint: String,
    /// The model accepts images.
    pub vision: bool,
}

impl CodexModel {
    /// A model without vision, at the usual place.
    pub fn new(model: String, reasoning_effort: Option<String>) -> (r: Self)
        ensures
            r.model@ == model@,
            r.reasoning_effort.deep_view() == reasoning_effort.deep_view(),
            r.endpoint@ == RESPONSES_URL@,
            !r.vision,
    {
        CodexModel { model, reasoning_effort, endpoint: RESPONSES_URL.to_owned(), vision: false }
    }

    /// Say whether the model accepts images.
    pub fn with_vision(self, vision: bool) -> (r: Self)
        ensures
            r == (CodexModel { vision, ..self }),
    {
        let mut model = self;
        model.vision = vision;
        model
    }

    /// The name of the model.
    pub fn name(&self) -> (r: &str)
        ensures
            r@ == self.model@,
    {
        self.model.as_str()
    }

    /// Whether the model accepts images.
    pub fn supports_vision(&self) -> (r: bool)
        ensures
            r == self.vision,
    {
        self.vision
    }

    /// The request for a context, unless it holds images that the model does not
    /// accept.
    pub fn request(
        &self,
        messages: &[Message],
        tools: &[ToolSpec],
        loaded: &Vec<LoadedImage>,
    ) -> (r: Result<ResponsesRequest, String>)
        ensures
            match r {
                Ok(request) => (self.vision || forall|i: int|
                    0 <= i < messages@.len() ==> !has_images(
                        (#[trigger] messages@[i]).deep_view(),
                    )) && request.body.deep_view() == request_json(
                    self.model@,
                    self.reasoning_effort.deep_view(),
                    message_views(messages@),
                    spec_views(tools@),
                    loaded.deep_view(),
                ),
                Err(error) => !self.vision && (exists|i: int|
                    0 <= i < messages@.len() && has_images((#[trigger] messages@[i]).deep_view()))
                    && error@ == vision_error(self.model@),
            },
    {
        match ensure_vision_supported(self.model.as_str(), self.vision, messages) {
            Ok(_) => {
                let effort: Option<&str> = match &self.reasoning_effort {
                    Some(effort) => Some(effort.as_str()),
                    None => None,
                };
                Ok(
                    ResponsesRequest::from_internal(
                        self.model.as_str(),
                        effort,
                        messages,
                        tools,
                        loaded,
                    ),
                )
            },
            Err(error) => Err(error),
        }
    }
}

/// What the stream has brought so far.
#[derive(Debug, PartialEq)]
pub struct StreamState {
    pub content: String,
    pub reasoning: String,
    pub calls: Vec<ToolCall>,
    pub usage: Option<Usage>,
    pub completed: bool,
}

/// Model of a [`StreamState`].
#[verifier::ext_equal]
pub struct StreamView {
    pub content: Seq<char>,
    pub reasoning: Seq<char>,
    pub calls: Seq<CallView>,
    pub usage: Option<UsageView>,
    pub completed: bool,
}

impl DeepView for StreamState {
    type V = StreamView;

    open spec fn deep_view(&self) -> StreamView {
        StreamView {
            content: self.content@,
            reasoning: self.reasoning@,
            calls: self.calls.deep_view(),
            usage: self.usage.deep_view(),
            completed: self.completed,
        }
    }
}

/// A stream that nothing came from yet.
pub open spec fn empty_stream() -> StreamView {
    StreamView {
        content: Seq::empty(),
        reasoning: Seq::empty(),
        calls: Seq::empty(),
        usage: None,
        completed: false,
    }
}

/// A piece of text for the observer of a stream.
#[derive(Debug, PartialEq)]
pub struct Delta {
    pub kind: ModelDeltaKind,
    pub text: String,
}

/// Model of a [`Delta`].
#[verifier::ext_equal]
pub struct DeltaView {
    pub kind: ModelDeltaKind,
    pub text: Seq<char>,
}

impl DeepView for Delta {
    type V = DeltaView;

    open spec fn deep_view(&self) -> DeltaView {
        DeltaView { kind: self.kind, text: self.text@ }
    }
}

/// The token counts of a finished answer, or what is missing.
pub open spec fn usage_of(json: JsonView) -> Result<UsageView, Seq<char>> {
    match (u64_of(get(json, "input_tokens"@)), u64_of(get(json, "output_tokens"@))) {
        (None, _) => Err("ChatGPT Responses completed without input token usage"@),
        (Some(_), None) => Err("ChatGPT Responses completed without output token usage"@),
        (Some(input), Some(output)) => Ok(plain_usage(input, output)),
    }
}

/// The token counts of a finished answer.
pub fn response_usage(json: &Json) -> (r: Result<Usage, String>)
    ensures
        match r {
            Ok(usage) => usage_of(json.deep_view()) == Ok::<UsageView, Seq<char>>(
                usage.deep_view(),
            ),
            Err(error) => usage_of(json.deep_view()) == Err::<UsageView, Seq<char>>(error@),
        },
{
    let input: u64 = match json.u64_field("input_tokens") {
        Some(n) => n,
        None => return Err("ChatGPT Responses completed without input token usage".to_owned()),
    };
    let output: u64 = match json.u64_field("output_tokens") {
        Some(n) => n,
        None => return Err("ChatGPT Responses completed without output token usage".to_owned()),
    };
    Ok(Usage::of(input, output))
}

/// Width of an error text that comes from the provider.
pub const ERROR_WIDTH: usize = 500;

/// The error text of a provider event: its message, or the whole event as it is
/// `written`.
pub open spec fn error_text(json: JsonView, written: Seq<char>) -> Seq<char> {
    let inner = match get(json, "error"@) {
        Some(error) => get(error, "message"@),
        None => None,
    };
    let message = match inner {
        Some(message) => Some(message),
        None => get(json, "message"@),
    };
    match str_of(message) {
        Some(text) => previewed(text, ERROR_WIDTH as nat),
        None => previewed(written, ERROR_WIDTH as nat),
    }
}

/// The error text of a provider event.
pub fn provider_error(json: &Json, written: &str) -> (r: String)
    ensures
        r@ == error_text(json.deep_view(), written@),
{
    let inner = match json.get("error") {
        Some(error) => error.get("message"),
        None => None,
    };
    let message = match inner {
        Some(message) => Some(message),
        None => json.get("message"),
    };
    match message {
        Some(value) => match value.as_str() {
            Some(text) => preview(text, ERROR_WIDTH),
            None => preview(written, ERROR_WIDTH),
        },
        None => preview(written, ERROR_WIDTH),
    }
}

/// The text of a string field, or an empty text.
pub open spec fn field_or_empty(json: JsonView, key: Seq<char>) -> Seq<char> {
    match str_of(get(json, key)) {
        Some(text) => text,
        None => Seq::empty(),
    }
}

/// A field of an event, or the event itself where it has none.
pub open spec fn field_or_self(json: JsonView, key: Seq<char>) -> JsonView {
    match get(json, key) {
        Some(value) => value,
        None => json,
    }
}

/// The kinds of events that report a failure.
pub open spec fn is_failure(kind: Seq<char>) -> bool {
    kind == "response.failed"@ || kind == "response.incomplete"@ || kind == "error"@ || kind
        == "response.error"@
}

/// The kinds of events that bring reasoning.
pub open spec fn is_reasoning(kind: Seq<char>) -> bool {
    kind == "response.reasoning_summary_text.delta"@ || kind == "response.reasoning_text.delta"@
}

/// What an event adds to the stream and tells its observer, or how it fails.
pub open spec fn streamed(
    stream: StreamView,
    kind: Seq<char>,
    json: JsonView,
    written: Seq<char>,
) -> Result<(StreamView, Option<DeltaView>), Seq<char>> {
    let delta = str_of(get(json, "delta"@));
    if kind == "response.output_text.delta"@ {
        match delta {
            Some(text) => Ok(
                (
                    StreamView { content: stream.content + text, ..stream },
                    Some(DeltaView { kind: ModelDeltaKind::Content, text }),
                ),
            ),
            None => Ok((stream, None)),
        }
    } else if is_reasoning(kind) {
        match delta {
            Some(text) => Ok(
                (
                    StreamView { reasoning: stream.reasoning + text, ..stream },
                    Some(DeltaView { kind: ModelDeltaKind::Reasoning, text }),
                ),
            ),
            None => Ok((stream, None)),
        }
    } else if kind == "response.reasoning_summary_part.added"@ {
        if stream.reasoning.len() > 0 {
            Ok(
                (
                    StreamView { reasoning: stream.reasoning + "\n\n"@, ..stream },
                    Some(DeltaView { kind: ModelDeltaKind::Reasoning, text: "\n\n"@ }),
                ),
            )
        } else {
            Ok((stream, None))
        }
    } else if kind == "response.output_item.done"@ {
        let item = field_or_self(json, "item"@);
        if str_of(get(item, "type"@)) == Some("function_call"@) {
            let call = CallView {
                id: field_or_empty(item, "call_id"@),
                name: field_or_empty(item, "name"@),
                arguments: field_or_empty(item, "arguments"@),
            };
            if call.id.len() == 0 || call.name.len() == 0 {
                Err("ChatGPT Responses returned an incomplete function call"@)
            } else {
                Ok((StreamView { calls: stream.calls.push(call), ..stream }, None))
            }
        } else {
            Ok((stream, None))
        }
    } else if kind == "response.completed"@ {
        match get(field_or_self(json, "response"@), "usage"@) {
            None => Ok((StreamView { usage: None, completed: true, ..stream }, None)),
            Some(usage) => match usage_of(usage) {
                Ok(usage) => Ok(
                    (StreamView { usage: Some(usage), completed: true, ..stream }, None),
                ),
                Err(error) => Err(error),
            },
        }
    } else if is_failure(kind) {
        Err("ChatGPT Responses "@ + kind + ": "@ + error_text(json, written))
    } else {
        Ok((stream, None))
    }
}

/// How a stream fails.
#[derive(Debug, PartialEq)]
pub enum StreamError {
    /// An event cannot be read: the stream was cut short.
    Broken { error: String },
    /// The provider reports a failure, or an event lacks what it must have.
    Refused { error: String },
}

/// What came of one event.
#[derive(Debug, PartialEq)]
pub enum Fed {
    /// The end of the stream.
    Done,
    /// Something for the observer, or nothing.
    More { delta: Option<Delta> },
}

/// The kind of an event: what it says itself, or the name it came under.
pub open spec fn event_kind(json: JsonView, name: Seq<char>) -> Seq<char> {
    match str_of(get(json, "type"@)) {
        Some(kind) => kind,
        None => name,
    }
}

impl StreamState {
    /// A stream that nothing came from yet.
    pub fn new() -> (r: Self)
        ensures
            r.deep_view() == empty_stream(),
    {
        let calls: Vec<ToolCall> = Vec::new();
        assert(calls.deep_view() =~= Seq::empty());
        StreamState {
            content: String::new(),
            reasoning: String::new(),
            calls,
            usage: None,
            completed: false,
        }
    }

    /// Take over one event, which is `written` as this text.
    pub fn apply(&mut self, kind: &str, json: &Json, written: &str) -> (r: Result<
        Option<Delta>,
        String,
    >)
        ensures
            match streamed(old(self).deep_view(), kind@, json.deep_view(), written@) {
                Ok(after) => {
                    &&& final(self).deep_view() == after.0
                    &&& r matches Ok(delta)
                    &&& delta.deep_view() == after.1
                },
                Err(text) => {
                    &&& final(self).deep_view() == old(self).deep_view()
                    &&& r matches Err(error)
                    &&& error@ == text
                },
            },
    {
        if same_text(kind, "response.output_text.delta") {
            return match json.str_field("delta") {
                Some(text) => {
                    self.content.push_str(text.as_str());
                    Ok(Some(Delta { kind: ModelDeltaKind::Content, text }))
                },
                None => Ok(None),
            };
        }
        if same_text(kind, "response.reasoning_summary_text.delta") || same_text(
            kind,
            "response.reasoning_text.delta",
        ) {
            return match json.str_field("delta") {
                Some(text) => {
                    self.reasoning.push_str(text.as_str());
                    Ok(Some(Delta { kind: ModelDeltaKind::Reasoning, text }))
                },
                None => Ok(None),
            };
        }
        if same_text(kind, "response.reasoning_summary_part.added") {
            if self.reasoning.as_str().is_empty() {
                return Ok(None);
            }
            self.reasoning.push_str("\n\n");
            return Ok(
                Some(Delta { kind: ModelDeltaKind::Reasoning, text: "\n\n".to_owned() }),
            );
        }
        if same_text(kind, "response.output_item.done") {
            let item = match json.get("item") {
                Some(item) => item,
                None => json,
            };
            let is_call = match item.str_field("type") {
                Some(text) => same_text(text.as_str(), "function_call"),
                None => false,
            };
            if !is_call {
                return Ok(None);
            }
            let id = text_or_empty(item, "call_id");
            let name = text_or_empty(item, "name");
            let arguments = text_or_empty(item, "arguments");
            if id.as_str().is_empty() || name.as_str().is_empty() {
                return Err("ChatGPT Responses returned an incomplete function call".to_owned());
            }
            let ghost before = self.calls.deep_view();
            let call = ToolCall { id, name, arguments };
            self.calls.push(call);
            assert(self.calls.deep_view() =~= before.push(call.deep_view()));
            return Ok(None);
        }
        if same_text(kind, "response.completed") {
            let response = match json.get("response") {
                Some(response) => response,
                None => json,
            };
            let usage = match response.get("usage") {
                Some(usage) => match response_usage(usage) {
                    Ok(usage) => Some(usage),
                    Err(error) => return Err(error),
                },
                None => None,
            };
            self.usage = usage;
            self.completed = true;
            return Ok(None);
        }
        if same_text(kind, "response.failed") || same_text(kind, "response.incomplete")
            || same_text(kind, "error") || same_text(kind, "response.error") {
            let mut error = "ChatGPT Responses ".to_owned();
            error.push_str(kind);
            error.push_str(": ");
            error.push_str(provider_error(json, written).as_str());
            return Err(error);
        }
        Ok(None)
    }

    /// Take over one event of the stream: the name it came under and its data.
    pub fn feed(&mut self, name: &str, data: &str) -> (r: Result<Fed, StreamError>)
        ensures
            data@ == "[DONE]"@ ==> r == Ok::<Fed, StreamError>(Fed::Done) && final(self).deep_view()
                == old(self).deep_view(),
            data@ != "[DONE]"@ ==> match json_parsed(data@) {
                Err(text) => {
                    &&& final(self).deep_view() == old(self).deep_view()
                    &&& r matches Err(StreamError::Broken { error })
                    &&& error@ == "cannot decode ChatGPT Responses event: "@ + text
                },
                Ok(json) => match streamed(
                    old(self).deep_view(),
                    event_kind(json, name@),
                    json,
                    json_text_of(json),
                ) {
                    Ok(after) => {
                        &&& final(self).deep_view() == after.0
                        &&& r matches Ok(Fed::More { delta })
                        &&& delta.deep_view() == after.1
                    },
                    Err(text) => {
                        &&& final(self).deep_view() == old(self).deep_view()
                        &&& r matches Err(StreamError::Refused { error })
                        &&& error@ == text
                    },
                },
            },
    {
        if same_text(data, "[DONE]") {
            return Ok(Fed::Done);
        }
        let (json, written) = match parse_with_text(data) {
            Ok(parsed) => parsed,
            Err(text) => {
                let mut error = "cannot decode ChatGPT Responses event: ".to_owned();
                error.push_str(text.as_str());
                return Err(StreamError::Broken { error });
            },
        };
        let kind = match json.str_field("type") {
            Some(kind) => kind,
            None => name.to_owned(),
        };
        match self.apply(kind.as_str(), &json, written.as_str()) {
            Ok(delta) => Ok(Fed::More { delta }),
            Err(error) => Err(StreamError::Refused { error }),
        }
    }

    /// The answer that the stream brought; refused unless it was completed.
    pub fn finish(self) -> (r: Result<(AssistantMessage, Option<Usage>), String>)
        ensures
            match r {
                Ok(answer) => self.completed && answer.0.deep_view() == stream_answer(
                    self.deep_view(),
                ) && answer.1 == self.usage,
                Err(error) => !self.completed && error@
                    == "ChatGPT Responses stream ended before response.completed"@,
            },
    {
        if !self.completed {
            return Err("ChatGPT Responses stream ended before response.completed".to_owned());
        }
        let content = if self.content.as_str().is_empty() {
            None
        } else {
            Some(self.content)
        };
        let reasoning = if self.reasoning.as_str().is_empty() {
            None
        } else {
            Some(self.reasoning)
        };
        Ok((AssistantMessage { content, tool_calls: self.calls, reasoning }, self.usage))
    }
}

/// The answer that a stream brought; empty texts count as none.
pub open spec fn stream_answer(stream: StreamView) -> AssistantView {
    AssistantView {
        content: if stream.content.len() == 0 {
            None
        } else {
            Some(stream.content)
        },
        tool_calls: stream.calls,
        reasoning: if stream.reasoning.len() == 0 {
            None
        } else {
            Some(stream.reasoning)
        },
    }
}

/// The text of a string field, or an empty text.
fn text_or_empty(json: &Json, key: &str) -> (r: String)
    ensures
        r@ == field_or_empty(json.deep_view(), key@),
{
    match json.str_field(key) {
        Some(text) => text,
        None => String::new(),
    }
}

/// The error of a request that the server refused.
pub fn status_error(status: &str, body: &str) -> (r: String)
    ensures
        r@ == "ChatGPT Responses returned HTTP "@ + status@ + ": "@ + previewed(
            body@,
            ERROR_WIDTH as nat,
        ),
{
    let mut error = "ChatGPT Responses returned HTTP ".to_owned();
    error.push_str(status);
    error.push_str(": ");
    error.push_str(preview(body, ERROR_WIDTH).as_str());
    error
}

/// The pieces that an observer is told of are exactly what the stream gathers:
/// an event adds to the content what it tells as content, and to the reasoning
/// what it tells as reasoning, and nothing else changes either text.
pub proof fn observers_see_the_whole_text(
    stream: StreamView,
    kind: Seq<char>,
    json: JsonView,
    written: Seq<char>,
)
    ensures
        streamed(stream, kind, json, written) matches Ok(after) ==> match after.1 {
            Some(delta) => match delta.kind {
                ModelDeltaKind::Content => after.0.content == stream.content + delta.text
                    && after.0.reasoning == stream.reasoning,
                ModelDeltaKind::Reasoning => after.0.reasoning == stream.reasoning + delta.text
                    && after.0.content == stream.content,
            },
            None => after.0.content == stream.content && after.0.reasoning == stream.reasoning,
        },
        streamed(stream, kind, json, written) matches Ok(after) ==> stream.calls.is_prefix_of(
            after.0.calls,
        ) && (stream.completed ==> after.0.completed),
{
    if let Ok(after) = streamed(stream, kind, json, written) {
        assert(after.0.calls.take(stream.calls.len() as int) =~= stream.calls);
    }
}

proof fn lemma_kinds_differ()
    ensures
        ({
            let text = "response.output_text.delta"@;
            let summary = "response.reasoning_summary_text.delta"@;
            let reasoning = "response.reasoning_text.delta"@;
            let part = "response.reasoning_summary_part.added"@;
            let item = "response.output_item.done"@;
            let done = "response.completed"@;
            let failed = "response.failed"@;
            let incomplete = "response.incomplete"@;
            let error = "error"@;
            let response_error = "response.error"@;
            &&& text != summary && text != reasoning && text != part && text != item && text != done
            &&& text != failed && text != incomplete && text != error && text != response_error
            &&& summary != reasoning && summary != part && summary != item && summary != done
            &&& summary != failed && summary != incomplete && summary != error && summary
                != response_error
            &&& reasoning != part && reasoning != item && reasoning != done
            &&& reasoning != failed && reasoning != incomplete && reasoning != error && reasoning
                != response_error
            &&& part != item && part != done
            &&& part != failed && part != incomplete && part != error && part != response_error
            &&& item != done
            &&& item != failed && item != incomplete && item != error && item != response_error
            &&& done != failed && done != incomplete && done != error && done != response_error
        }),
{
    reveal_strlit("response.output_text.delta");
    reveal_strlit("response.reasoning_summary_text.delta");
    reveal_strlit("response.reasoning_text.delta");
    reveal_strlit("response.reasoning_summary_part.added");
    reveal_strlit("response.output_item.done");
    reveal_strlit("response.completed");
    reveal_strlit("response.failed");
    reveal_strlit("response.incomplete");
    reveal_strlit("error");
    reveal_strlit("response.error");
    assert("response.reasoning_summary_text.delta"@[27] == 't');
    assert("response.reasoning_summary_part.added"@[27] == 'p');
    assert("response.output_text.delta"@.len() == 26);
    assert("response.reasoning_summary_text.delta"@.len() == 37);
    assert("response.reasoning_text.delta"@.len() == 29);
    assert("response.reasoning_summary_part.added"@.len() == 37);
    assert("response.output_item.done"@.len() == 25);
    assert("response.completed"@.len() == 18);
    assert("response.failed"@.len() == 15);
    assert("response.incomplete"@.len() == 19);
    assert("error"@.len() == 5);
    assert("response.error"@.len() == 14);
}

/// A finished function call is gathered field by field: it adds exactly one call
/// to the stream, with the id, the name and the arguments that the item gives,
/// and nothing else changes. Without an id or a name it is refused.
pub proof fn function_calls_are_gathered_as_they_came(
    stream: StreamView,
    json: JsonView,
    item: JsonView,
    written: Seq<char>,
)
    requires
        get(json, "item"@) == Some(item) || (get(json, "item"@) is None && item == json),
        get(item, "type"@) == Some(JsonView::Str("function_call"@)),
    ensures
        ({
            let after = streamed(stream, "response.output_item.done"@, json, written);
            let given = |key: Seq<char>| match get(item, key) {
                Some(JsonView::Str(text)) => text,
                _ => Seq::<char>::empty(),
            };
            if given("call_id"@).len() > 0 && given("name"@).len() > 0 {
                &&& after matches Ok((next, told))
                &&& told is None
                &&& next.calls.len() == stream.calls.len() + 1
                &&& next.calls.drop_last() == stream.calls
                &&& next.calls.last().id == given("call_id"@)
                &&& next.calls.last().name == given("name"@)
                &&& next.calls.last().arguments == given("arguments"@)
                &&& next.content == stream.content && next.reasoning == stream.reasoning
                &&& next.usage == stream.usage && next.completed == stream.completed
            } else {
                after == Err::<(StreamView, Option<DeltaView>), Seq<char>>(
                    "ChatGPT Responses returned an incomplete function call"@,
                )
            }
        }),
{
    lemma_kinds_differ();
    if let Ok((next, _)) = streamed(stream, "response.output_item.done"@, json, written) {
        assert(next.calls.drop_last() =~= stream.calls);
    }
}

/// Finished items that are no function calls, and events of kinds that mean
/// nothing here, leave the stream as it is.
pub proof fn other_events_change_nothing(
    stream: StreamView,
    kind: Seq<char>,
    json: JsonView,
    item: JsonView,
    written: Seq<char>,
)
    requires
        get(json, "item"@) == Some(item) || (get(json, "item"@) is None && item == json),
        kind == "response.output_item.done"@ ==> get(item, "type"@) != Some(
            JsonView::Str("function_call"@),
        ),
        kind != "response.output_text.delta"@,
        kind != "response.reasoning_summary_text.delta"@,
        kind != "response.reasoning_text.delta"@,
        kind != "response.reasoning_summary_part.added"@,
        kind != "response.completed"@,
        kind != "response.failed"@,
        kind != "response.incomplete"@,
        kind != "error"@,
        kind != "response.error"@,
    ensures
        streamed(stream, kind, json, written) == Ok::<
            (StreamView, Option<DeltaView>),
            Seq<char>,
        >((stream, None)),
{
    lemma_kinds_differ();
    match get(item, "type"@) {
        Some(JsonView::Str(text)) => {
            assert(str_of(get(item, "type"@)) == Some(text));
        },
        _ => {},
    }
}

/// Texts are gathered where they belong: a piece of the answer behind the answer
/// so far, a piece of the reasoning behind the reasoning so far, and a new part of
/// the reasoning behind a blank line. Each is told, and nothing else changes.
pub proof fn texts_are_gathered_as_they_came(
    stream: StreamView,
    json: JsonView,
    text: Seq<char>,
    written: Seq<char>,
)
    requires
        get(json, "delta"@) == Some(JsonView::Str(text)),
    ensures
        ({
            let answer = streamed(stream, "response.output_text.delta"@, json, written);
            &&& answer matches Ok((next, told))
            &&& next.content == stream.content + text
            &&& next.reasoning == stream.reasoning && next.calls == stream.calls && next.usage
                == stream.usage && next.completed == stream.completed
            &&& told == Some(DeltaView { kind: ModelDeltaKind::Content, text })
        }),
        forall|kind: Seq<char>|
            kind == "response.reasoning_summary_text.delta"@ || kind
                == "response.reasoning_text.delta"@ ==> {
                &&& (#[trigger] streamed(stream, kind, json, written)) matches Ok((next, told))
                &&& next.reasoning == stream.reasoning + text
                &&& next.content == stream.content && next.calls == stream.calls && next.usage
                    == stream.usage && next.completed == stream.completed
                &&& told == Some(DeltaView { kind: ModelDeltaKind::Reasoning, text })
            },
        ({
            let part = streamed(stream, "response.reasoning_summary_part.added"@, json, written);
            &&& part matches Ok((next, told))
            &&& next.reasoning == if stream.reasoning.len() == 0 {
                stream.reasoning
            } else {
                stream.reasoning + "\n\n"@
            }
            &&& next.content == stream.content && next.calls == stream.calls && next.usage
                == stream.usage && next.completed == stream.completed
            &&& told is None <==> stream.reasoning.len() == 0
        }),
{
    lemma_kinds_differ();
}

/// An answer is completed by the event that says so, with the token counts that
/// the event gives, each under its own name; counts that lack one are refused.
pub proof fn completions_bring_the_counts(
    stream: StreamView,
    json: JsonView,
    response: JsonView,
    written: Seq<char>,
)
    requires
        get(json, "response"@) == Some(response) || (get(json, "response"@) is None && response
            == json),
    ensures
        ({
            let after = streamed(stream, "response.completed"@, json, written);
            let count = |usage: JsonView, key: Seq<char>| match get(usage, key) {
                Some(JsonView::Number(NumberView::Unsigned(n))) => Some(n),
                _ => None,
            };
            match get(response, "usage"@) {
                None => after matches Ok((next, told)) && next.completed && next.usage is None,
                Some(usage) => if count(usage, "input_tokens"@) is None {
                    after == Err::<(StreamView, Option<DeltaView>), Seq<char>>(
                        "ChatGPT Responses completed without input token usage"@,
                    )
                } else if count(usage, "output_tokens"@) is None {
                    after == Err::<(StreamView, Option<DeltaView>), Seq<char>>(
                        "ChatGPT Responses completed without output token usage"@,
                    )
                } else {
                    &&& after matches Ok((next, told))
                    &&& next.completed
                    &&& next.usage matches Some(counted)
                    &&& counted.input_tokens == count(usage, "input_tokens"@)->0
                    &&& counted.output_tokens == count(usage, "output_tokens"@)->0
                    &&& counted.cache_hit_tokens is None && counted.cache_miss_tokens is None
                    &&& counted.reasoning_tokens is None && counted.finish_reason is None
                },
            }
        }),
        streamed(stream, "response.completed"@, json, written) matches Ok((next, told)) ==> told is None
            && next.content == stream.content && next.reasoning == stream.reasoning && next.calls
            == stream.calls,
{
    lemma_kinds_differ();
}

/// A failure that the provider reports is an error that names the kind of the
/// event and what the provider says, as far as it fits: the message inside the
/// error, else the message of the event, else the event as it is written.
pub proof fn failures_are_reported(
    stream: StreamView,
    kind: Seq<char>,
    json: JsonView,
    written: Seq<char>,
)
    requires
        kind == "response.failed"@ || kind == "response.incomplete"@ || kind == "error"@ || kind
            == "response.error"@,
    ensures
        ({
            let inner = match get(json, "error"@) {
                Some(error) => get(error, "message"@),
                None => None,
            };
            let said = if inner is Some {
                inner
            } else {
                get(json, "message"@)
            };
            let shown = match said {
                Some(JsonView::Str(text)) => text,
                _ => written,
            };
            streamed(stream, kind, json, written) == Err::<
                (StreamView, Option<DeltaView>),
                Seq<char>,
            >("ChatGPT Responses "@ + kind + ": "@ + previewed(shown, 500))
        }),
{
    lemma_kinds_differ();
}

/// An event is of the kind that it names itself, else of the one it came under.
pub proof fn events_name_their_kind(json: JsonView, name: Seq<char>)
    ensures
        get(json, "type"@) matches Some(JsonView::Str(kind)) ==> event_kind(json, name) == kind,
        !(get(json, "type"@) matches Some(JsonView::Str(_))) ==> event_kind(json, name) == name,
{
}

/// The answer is what the stream gathered: all calls in order, and each text
/// unless it is empty.
pub proof fn answers_hold_what_was_gathered(stream: StreamView)
    ensures
        stream_answer(stream).tool_calls == stream.calls,
        stream.content.len() > 0 ==> stream_answer(stream).content == Some(stream.content),
        stream.content.len() == 0 ==> stream_answer(stream).content is None,
        stream.reasoning.len() > 0 ==> stream_answer(stream).reasoning == Some(stream.reasoning),
        stream.reasoning.len() == 0 ==> stream_answer(stream).reasoning is None,
        empty_stream().content.len() == 0 && empty_stream().reasoning.len() == 0
            && empty_stream().calls.len() == 0 && empty_stream().usage is None
            && !empty_stream().completed,
{
}

proof fn lemma_names_differ()
    ensures
        "arguments"@ != "call_id"@,
        "call_id"@ != "output"@,
        "description"@ != "parameters"@,
        "description"@ != "strict"@,
        "effort"@ != "summary"@,
        "include"@ != "reasoning"@,
        "input"@ != "include"@,
        "input"@ != "parallel_tool_calls"@,
        "input"@ != "reasoning"@,
        "input"@ != "store"@,
        "input"@ != "stream"@,
        "input"@ != "tool_choice"@,
        "input"@ != "tools"@,
        "instructions"@ != "include"@,
        "instructions"@ != "input"@,
        "instructions"@ != "parallel_tool_calls"@,
        "instructions"@ != "reasoning"@,
        "instructions"@ != "store"@,
        "instructions"@ != "stream"@,
        "instructions"@ != "tool_choice"@,
        "instructions"@ != "tools"@,
        "model"@ != "include"@,
        "model"@ != "input"@,
        "model"@ != "instructions"@,
        "model"@ != "parallel_tool_calls"@,
        "model"@ != "reasoning"@,
        "model"@ != "store"@,
        "model"@ != "stream"@,
        "model"@ != "tool_choice"@,
        "model"@ != "tools"@,
        "name"@ != "arguments"@,
        "name"@ != "call_id"@,
        "name"@ != "description"@,
        "name"@ != "parameters"@,
        "name"@ != "strict"@,
        "parallel_tool_calls"@ != "include"@,
        "parallel_tool_calls"@ != "reasoning"@,
        "parallel_tool_calls"@ != "store"@,
        "parallel_tool_calls"@ != "stream"@,
        "parameters"@ != "strict"@,
        "role"@ != "content"@,
        "store"@ != "include"@,
        "store"@ != "reasoning"@,
        "store"@ != "stream"@,
        "stream"@ != "include"@,
        "stream"@ != "reasoning"@,
        "tool_choice"@ != "include"@,
        "tool_choice"@ != "parallel_tool_calls"@,
        "tool_choice"@ != "reasoning"@,
        "tool_choice"@ != "store"@,
        "tool_choice"@ != "stream"@,
        "tools"@ != "include"@,
        "tools"@ != "parallel_tool_calls"@,
        "tools"@ != "reasoning"@,
        "tools"@ != "store"@,
        "tools"@ != "stream"@,
        "tools"@ != "tool_choice"@,
        "type"@ != "arguments"@,
        "type"@ != "call_id"@,
        "type"@ != "content"@,
        "type"@ != "description"@,
        "type"@ != "image_url"@,
        "type"@ != "name"@,
        "type"@ != "output"@,
        "type"@ != "parameters"@,
        "type"@ != "role"@,
        "type"@ != "strict"@,
        "type"@ != "text"@,
{
    reveal_strlit("type");
    reveal_strlit("name");
    reveal_strlit("arguments");
    reveal_strlit("call_id");
    reveal_strlit("output");
    reveal_strlit("role");
    reveal_strlit("content");
    reveal_strlit("text");
    reveal_strlit("image_url");
    reveal_strlit("description");
    reveal_strlit("parameters");
    reveal_strlit("strict");
    reveal_strlit("model");
    reveal_strlit("instructions");
    reveal_strlit("input");
    reveal_strlit("tools");
    reveal_strlit("tool_choice");
    reveal_strlit("parallel_tool_calls");
    reveal_strlit("store");
    reveal_strlit("stream");
    reveal_strlit("include");
    reveal_strlit("reasoning");
    reveal_strlit("effort");
    reveal_strlit("summary");
    assert("type"@.len() == 4);
    assert("name"@.len() == 4);
    assert("arguments"@.len() == 9);
    assert("call_id"@.len() == 7);
    assert("output"@.len() == 6);
    assert("role"@.len() == 4);
    assert("content"@.len() == 7);
    assert("text"@.len() == 4);
    assert("image_url"@.len() == 9);
    assert("description"@.len() == 11);
    assert("parameters"@.len() == 10);
    assert("strict"@.len() == 6);
    assert("model"@.len() == 5);
    assert("instructions"@.len() == 12);
    assert("input"@.len() == 5);
    assert("tools"@.len() == 5);
    assert("tool_choice"@.len() == 11);
    assert("parallel_tool_calls"@.len() == 19);
    assert("store"@.len() == 5);
    assert("stream"@.len() == 6);
    assert("include"@.len() == 7);
    assert("reasoning"@.len() == 9);
    assert("effort"@.len() == 6);
    assert("summary"@.len() == 7);
    assert("arguments"@[0] == 'a');
    assert("call_id"@[0] == 'c');
    assert("call_id"@[1] == 'a');
    assert("content"@[0] == 'c');
    assert("content"@[1] == 'o');
    assert("description"@[0] == 'd');
    assert("effort"@[0] == 'e');
    assert("image_url"@[0] == 'i');
    assert("include"@[0] == 'i');
    assert("input"@[0] == 'i');
    assert("model"@[0] == 'm');
    assert("name"@[0] == 'n');
    assert("output"@[0] == 'o');
    assert("reasoning"@[0] == 'r');
    assert("role"@[0] == 'r');
    assert("store"@[0] == 's');
    assert("stream"@[0] == 's');
    assert("stream"@[3] == 'e');
    assert("strict"@[0] == 's');
    assert("strict"@[3] == 'i');
    assert("summary"@[0] == 's');
    assert("text"@[0] == 't');
    assert("text"@[1] == 'e');
    assert("tool_choice"@[0] == 't');
    assert("tools"@[0] == 't');
    assert("type"@[0] == 't');
    assert("type"@[1] == 'y');
}

proof fn lemma_field_at(fields: Seq<(Seq<char>, JsonView)>, at: int)
    requires
        0 <= at < fields.len(),
        forall|i: int| 0 <= i < at ==> (#[trigger] fields[i]).0 != fields[at].0,
    ensures
        get(JsonView::Object(fields), fields[at].0) == Some(fields[at].1),
{
    crate::json::fields_are_found_by_name(fields, fields[at].0, at);
}

proof fn lemma_fields_at(fields: Seq<(Seq<char>, JsonView)>)
    requires
        forall|i: int, j: int|
            0 <= i < j < fields.len() ==> (#[trigger] fields[i]).0 != (#[trigger] fields[j]).0,
    ensures
        forall|at: int|
            0 <= at < fields.len() ==> get(
                JsonView::Object(fields),
                (#[trigger] fields[at]).0,
            ) == Some(fields[at].1),
{
    assert forall|at: int| 0 <= at < fields.len() implies get(
        JsonView::Object(fields),
        (#[trigger] fields[at]).0,
    ) == Some(fields[at].1) by {
        lemma_field_at(fields, at);
    }
}

proof fn lemma_call_item(call: CallView)
    ensures
        get(call_item(call), "type"@) == Some(JsonView::Str("function_call"@)),
        get(call_item(call), "name"@) == Some(JsonView::Str(call.name)),
        get(call_item(call), "arguments"@) == Some(JsonView::Str(call.arguments)),
        get(call_item(call), "call_id"@) == Some(JsonView::Str(call.id)),
{
    lemma_names_differ();
    let fields = call_item(call)->Object_0;
    lemma_fields_at(fields);
    assert(fields[0].0 == "type"@ && fields[1].0 == "name"@ && fields[2].0 == "arguments"@
        && fields[3].0 == "call_id"@);
}

proof fn lemma_text_part(text: Seq<char>)
    ensures
        get(text_part(text), "type"@) == Some(JsonView::Str("input_text"@)),
        get(text_part(text), "text"@) == Some(JsonView::Str(text)),
{
    lemma_names_differ();
    let fields = text_part(text)->Object_0;
    lemma_fields_at(fields);
    assert(fields[0].0 == "type"@ && fields[1].0 == "text"@);
}

/// An assistant message is sent in full: its text as the text of an answer, then
/// every call in order, with its own name, arguments and id.
pub proof fn assistant_messages_are_sent_in_full(
    assistant: AssistantView,
    loaded: Seq<LoadedView>,
    k: int,
)
    requires
        0 <= k < assistant.tool_calls.len(),
    ensures
        ({
            let items = message_items(MessageView::Assistant(assistant), loaded);
            let call = assistant.tool_calls[k];
            let item = items[items.len() - assistant.tool_calls.len() + k];
            &&& get(item, "type"@) == Some(JsonView::Str("function_call"@))
            &&& get(item, "call_id"@) == Some(JsonView::Str(call.id))
            &&& get(item, "name"@) == Some(JsonView::Str(call.name))
            &&& get(item, "arguments"@) == Some(JsonView::Str(call.arguments))
        }),
{
    lemma_call_item(assistant.tool_calls[k]);
}

/// The text of an assistant message comes first, and only where there is one.
pub proof fn answers_are_sent_in_full(assistant: AssistantView, loaded: Seq<LoadedView>)
    ensures
        ({
            let items = message_items(MessageView::Assistant(assistant), loaded);
            match assistant.content {
                None => items.len() == assistant.tool_calls.len(),
                Some(text) => {
                    &&& items.len() == 1 + assistant.tool_calls.len()
                    &&& get(items[0], "type"@) == Some(JsonView::Str("message"@))
                    &&& get(items[0], "role"@) == Some(JsonView::Str("assistant"@))
                    &&& get(items[0], "content"@) matches Some(JsonView::Array(parts))
                    &&& parts.len() == 1
                    &&& get(parts[0], "type"@) == Some(JsonView::Str("output_text"@))
                    &&& get(parts[0], "text"@) == Some(JsonView::Str(text))
                },
            }
        }),
{
    if let Some(text) = assistant.content {
        lemma_names_differ();
        let fields = answer_item(text)->Object_0;
        lemma_fields_at(fields);
        assert(fields[0].0 == "type"@ && fields[1].0 == "role"@ && fields[2].0 == "content"@);
        let inner = fields[2].1->Array_0[0]->Object_0;
        lemma_fields_at(inner);
        assert(inner[0].0 == "type"@ && inner[1].0 == "text"@);
    }
}

/// A list of parts is the text and then every image in order: the image itself
/// where its bytes are there, and a note that names it where they are not.
pub proof fn parts_hold_the_text_and_every_image(
    text: Seq<char>,
    images: Seq<ImageView>,
    loaded: Seq<LoadedView>,
    k: int,
    at: int,
)
    requires
        0 <= k < images.len(),
        0 <= at <= loaded.len(),
        forall|j: int| 0 <= j < at ==> (#[trigger] loaded[j]).hash != images[k].hash,
        at < loaded.len() ==> loaded[at].hash == images[k].hash,
    ensures
        ({
            let parts = parts_json(text, images, loaded);
            &&& parts matches JsonView::Array(parts)
            &&& parts.len() == 1 + images.len()
            &&& get(parts[0], "type"@) == Some(JsonView::Str("input_text"@))
            &&& get(parts[0], "text"@) == Some(JsonView::Str(text))
            &&& if at < loaded.len() {
                &&& get(parts[1 + k], "type"@) == Some(JsonView::Str("input_image"@))
                &&& get(parts[1 + k], "image_url"@) == Some(
                    JsonView::Str(
                        "data:"@ + images[k].mime + ";base64,"@ + base64_of(loaded[at].bytes),
                    ),
                )
            } else {
                &&& get(parts[1 + k], "type"@) == Some(JsonView::Str("input_text"@))
                &&& get(parts[1 + k], "text"@) == Some(
                    JsonView::Str("[image missing: "@ + images[k].hash + "]"@),
                )
            }
        }),
{
    lemma_text_part(text);
    lemma_loaded_at(loaded, images[k].hash, at);
    let parts = parts_json(text, images, loaded)->Array_0;
    assert(parts[1 + k] == image_part_json(
        images[k],
        loaded_bytes(loaded, images[k].hash),
    ));
    if at < loaded.len() {
        lemma_names_differ();
        let fields = parts[1 + k]->Object_0;
        lemma_fields_at(fields);
        assert(fields[0].0 == "type"@ && fields[1].0 == "image_url"@);
    } else {
        lemma_text_part("[image missing: "@ + images[k].hash + "]"@);
    }
}

proof fn lemma_loaded_at(loaded: Seq<LoadedView>, hash: Seq<char>, at: int)
    requires
        0 <= at <= loaded.len(),
        forall|j: int| 0 <= j < at ==> (#[trigger] loaded[j]).hash != hash,
        at < loaded.len() ==> loaded[at].hash == hash,
    ensures
        loaded_bytes(loaded, hash) == if at < loaded.len() {
            Some(loaded[at].bytes)
        } else {
            None
        },
    decreases at,
{
    if at > 0 {
        assert(loaded[0].hash != hash);
        let rest = loaded.drop_first();
        assert forall|j: int| 0 <= j < at - 1 implies (#[trigger] rest[j]).hash != hash by {
            assert(rest[j] == loaded[j + 1]);
        }
        lemma_loaded_at(rest, hash, at - 1);
    }
}

/// A user message is sent as one item of the user with its text and its images.
/// A system message is no item of its own.
pub proof fn prompts_are_sent_in_full(
    content: Seq<char>,
    images: Seq<ImageView>,
    loaded: Seq<LoadedView>,
)
    ensures
        ({
            let items = message_items(MessageView::User { content, images }, loaded);
            &&& items.len() == 1
            &&& get(items[0], "type"@) == Some(JsonView::Str("message"@))
            &&& get(items[0], "role"@) == Some(JsonView::Str("user"@))
            &&& get(items[0], "content"@) == Some(parts_json(content, images, loaded))
            &&& parts_json(content, images, loaded) matches JsonView::Array(parts)
            &&& parts.len() == 1 + images.len()
            &&& get(parts[0], "type"@) == Some(JsonView::Str("input_text"@))
            &&& get(parts[0], "text"@) == Some(JsonView::Str(content))
        }),
        message_items(MessageView::System { content }, loaded).len() == 0,
{
    lemma_names_differ();
    lemma_text_part(content);
    let fields = message_items(MessageView::User { content, images }, loaded)[0]->Object_0;
    lemma_fields_at(fields);
    assert(fields[0].0 == "type"@ && fields[1].0 == "role"@ && fields[2].0 == "content"@);
}

/// A tool result is sent as one item under the id of its call: its text, marked
/// where it is an error, and as a list of parts where it carries images.
pub proof fn results_are_sent_under_their_call(
    call_id: Seq<char>,
    name: Seq<char>,
    content: Seq<char>,
    images: Seq<ImageView>,
    is_error: bool,
    synthetic: bool,
    loaded: Seq<LoadedView>,
)
    ensures
        ({
            let items = message_items(
                MessageView::Tool { call_id, name, content, images, is_error, synthetic },
                loaded,
            );
            let text = if is_error {
                "ERROR: "@ + content
            } else {
                content
            };
            &&& items.len() == 1
            &&& get(items[0], "type"@) == Some(JsonView::Str("function_call_output"@))
            &&& get(items[0], "call_id"@) == Some(JsonView::Str(call_id))
            &&& images.len() == 0 ==> get(items[0], "output"@) == Some(JsonView::Str(text))
            &&& images.len() > 0 ==> {
                &&& get(items[0], "output"@) == Some(parts_json(text, images, loaded))
                &&& parts_json(text, images, loaded) matches JsonView::Array(parts)
                &&& parts.len() == 1 + images.len()
                &&& get(parts[0], "text"@) == Some(JsonView::Str(text))
            }
        }),
{
    let message = MessageView::Tool { call_id, name, content, images, is_error, synthetic };
    let text = if is_error {
        "ERROR: "@ + content
    } else {
        content
    };
    lemma_names_differ();
    lemma_text_part(text);
    let fields = message_items(message, loaded)[0]->Object_0;
    lemma_fields_at(fields);
    assert(fields[0].0 == "type"@ && fields[1].0 == "call_id"@ && fields[2].0 == "output"@);
}

/// The items and the instructions of a conversation follow it: those of its
/// beginning, then those of the rest.
pub proof fn requests_follow_the_conversation(
    first: Seq<MessageView>,
    rest: Seq<MessageView>,
    loaded: Seq<LoadedView>,
)
    ensures
        input_items(first + rest, loaded) == input_items(first, loaded) + input_items(rest, loaded),
        system_texts(first + rest) == system_texts(first) + system_texts(rest),
        rest.len() == 1 ==> input_items(rest, loaded) == message_items(rest[0], loaded),
        rest.len() == 1 ==> system_texts(rest) == match rest[0] {
            MessageView::System { content } => seq![content],
            _ => Seq::empty(),
        },
    decreases rest.len(),
{
    if rest.len() == 0 {
        assert(first + rest =~= first);
        assert(input_items(first, loaded) + input_items(rest, loaded) =~= input_items(
            first,
            loaded,
        ));
        assert(system_texts(first) + system_texts(rest) =~= system_texts(first));
    } else {
        let whole = first + rest;
        assert(whole.drop_last() =~= first + rest.drop_last());
        assert(whole.last() == rest.last());
        requests_follow_the_conversation(first, rest.drop_last(), loaded);
        assert(input_items(whole, loaded) =~= input_items(first, loaded) + input_items(
            rest,
            loaded,
        ));
        assert(system_texts(whole) =~= system_texts(first) + system_texts(rest));
        if rest.len() == 1 {
            assert(rest.drop_last() =~= Seq::empty());
            assert(input_items(rest, loaded) =~= message_items(rest[0], loaded));
            match rest[0] {
                MessageView::System { content } => {
                    assert(system_texts(rest) =~= seq![content]);
                },
                _ => {
                    assert(system_texts(rest) =~= Seq::empty());
                },
            }
        }
    }
}

/// Whether an item of a request stands for a call with this id.
pub open spec fn calls_with_id(item: JsonView, id: Seq<char>) -> bool {
    get(item, "type"@) == Some(JsonView::Str("function_call"@)) && get(item, "call_id"@) == Some(
        JsonView::Str(id),
    )
}

/// Whether a call with this id stands in a message.
pub open spec fn message_calls(message: MessageView, id: Seq<char>) -> bool {
    message matches MessageView::Assistant(assistant) && exists|k: int|
        0 <= k < assistant.tool_calls.len() && (#[trigger] assistant.tool_calls[k]).id == id
}

proof fn lemma_calls_are_items(
    messages: Seq<MessageView>,
    loaded: Seq<LoadedView>,
    m: int,
    id: Seq<char>,
)
    requires
        0 <= m < messages.len(),
        message_calls(messages[m], id),
    ensures
        exists|i: int|
            0 <= i < input_items(messages, loaded).len() && calls_with_id(
                #[trigger] input_items(messages, loaded)[i],
                id,
            ),
    decreases messages.len(),
{
    let head = input_items(messages.drop_last(), loaded);
    let items = input_items(messages, loaded);
    if m == messages.len() - 1 {
        let assistant = messages[m]->Assistant_0;
        let k = choose|k: int|
            0 <= k < assistant.tool_calls.len() && (#[trigger] assistant.tool_calls[k]).id == id;
        assistant_messages_are_sent_in_full(assistant, loaded, k);
        answers_are_sent_in_full(assistant, loaded);
        let last = message_items(messages[m], loaded);
        let at = last.len() - assistant.tool_calls.len() + k;
        assert(items[head.len() + at] == last[at]);
        assert(calls_with_id(items[head.len() + at], id));
    } else {
        lemma_calls_are_items(messages.drop_last(), loaded, m, id);
        let i = choose|i: int| 0 <= i < head.len() && calls_with_id(#[trigger] head[i], id);
        assert(items[i] == head[i]);
    }
}

/// Whether a call with this id stands in one of the first `n` messages.
pub open spec fn called_before(messages: Seq<MessageView>, n: int, id: Seq<char>) -> bool {
    exists|e: int| 0 <= e < n && message_calls(#[trigger] messages[e], id)
}

/// Where every tool result of a conversation answers an earlier call, so does
/// every result of the request: it stands behind a call with its id.
pub proof fn sent_results_answer_sent_calls(
    messages: Seq<MessageView>,
    loaded: Seq<LoadedView>,
    j: int,
)
    requires
        forall|m: int|
            0 <= m < messages.len() ==> match #[trigger] messages[m] {
                MessageView::Tool { call_id, .. } => called_before(messages, m, call_id),
                _ => true,
            },
        0 <= j < input_items(messages, loaded).len(),
        get(input_items(messages, loaded)[j], "type"@) == Some(
            JsonView::Str("function_call_output"@),
        ),
    ensures
        get(input_items(messages, loaded)[j], "call_id"@) matches Some(JsonView::Str(id)) && exists|
            i: int,
        |
            0 <= i < j && calls_with_id(#[trigger] input_items(messages, loaded)[i], id),
    decreases messages.len(),
{
    let items = input_items(messages, loaded);
    let shorter = messages.drop_last();
    let head = input_items(shorter, loaded);
    if j < head.len() {
        assert(items[j] == head[j]);
        assert forall|m: int| 0 <= m < shorter.len() implies match #[trigger] shorter[m] {
            MessageView::Tool { call_id, .. } => called_before(shorter, m, call_id),
            _ => true,
        } by {
            assert(shorter[m] == messages[m]);
            if let MessageView::Tool { call_id, .. } = messages[m] {
                assert(called_before(messages, m, call_id));
                let e = choose|e: int| 0 <= e < m && message_calls(#[trigger] messages[e], call_id);
                assert(shorter[e] == messages[e]);
            }
        }
        sent_results_answer_sent_calls(shorter, loaded, j);
        let id = get(head[j], "call_id"@)->0->Str_0;
        let i = choose|i: int| 0 <= i < j && calls_with_id(#[trigger] head[i], id);
        assert(items[i] == head[i]);
    } else {
        let last = messages[messages.len() - 1];
        let sent = message_items(last, loaded);
        assert(items[j] == sent[j - head.len()]);
        reveal_strlit("message");
        reveal_strlit("function_call");
        reveal_strlit("function_call_output");
        assert("message"@.len() == 7 && "function_call"@.len() == 13
            && "function_call_output"@.len() == 20);
        match last {
            MessageView::System { .. } => {},
            MessageView::User { content, images } => {
                prompts_are_sent_in_full(content, images, loaded);
            },
            MessageView::Assistant(assistant) => {
                answers_are_sent_in_full(assistant, loaded);
                let k = j - head.len() - (sent.len() - assistant.tool_calls.len());
                if k >= 0 {
                    assistant_messages_are_sent_in_full(assistant, loaded, k);
                }
            },
            MessageView::Tool { call_id, name, content, images, is_error, synthetic } => {
                results_are_sent_under_their_call(
                    call_id,
                    name,
                    content,
                    images,
                    is_error,
                    synthetic,
                    loaded,
                );
                assert(called_before(messages, messages.len() - 1, call_id));
                let e = choose|e: int|
                    0 <= e < messages.len() - 1 && message_calls(#[trigger] messages[e], call_id);
                assert(shorter[e] == messages[e]);
                lemma_calls_are_items(shorter, loaded, e, call_id);
                let i = choose|i: int|
                    0 <= i < head.len() && calls_with_id(#[trigger] head[i], call_id);
                assert(items[i] == head[i]);
            },
        }
    }
}

/// A request says what it is made from, each under its name: the model, the
/// system texts with blank lines between them, the items, the tools in order, and
/// the reasoning effort where one is asked for. It is streamed and not stored, and
/// the model is free to call tools, one at a time.
pub proof fn requests_say_what_they_are_made_from(
    model: Seq<char>,
    effort: Option<Seq<char>>,
    messages: Seq<MessageView>,
    tools: Seq<SpecView>,
    loaded: Seq<LoadedView>,
)
    ensures
        ({
            let body = request_json(model, effort, messages, tools, loaded);
            &&& get(body, "model"@) == Some(JsonView::Str(model))
            &&& get(body, "instructions"@) == Some(
                JsonView::Str(joined(system_texts(messages), "\n\n"@)),
            )
            &&& get(body, "input"@) == Some(JsonView::Array(input_items(messages, loaded)))
            &&& get(body, "tools"@) matches Some(JsonView::Array(offered))
            &&& offered.len() == tools.len()
            &&& get(body, "tool_choice"@) == Some(JsonView::Str("auto"@))
            &&& get(body, "parallel_tool_calls"@) == Some(JsonView::Bool(false))
            &&& get(body, "store"@) == Some(JsonView::Bool(false))
            &&& get(body, "stream"@) == Some(JsonView::Bool(true))
            &&& get(body, "include"@) == Some(JsonView::Array(Seq::empty()))
            &&& match effort {
                Some(effort) => get(body, "reasoning"@) matches Some(reasoning) && get(
                    reasoning,
                    "effort"@,
                ) == Some(JsonView::Str(effort)) && get(reasoning, "summary"@) == Some(
                    JsonView::Str("auto"@),
                ),
                None => get(body, "reasoning"@) is None,
            }
        }),
{
    lemma_names_differ();
    let body = request_json(model, effort, messages, tools, loaded);
    let fields = body->Object_0;
    assert(fields[0].0 == "model"@ && fields[1].0 == "instructions"@ && fields[2].0 == "input"@
        && fields[3].0 == "tools"@ && fields[4].0 == "tool_choice"@ && fields[5].0
        == "parallel_tool_calls"@ && fields[6].0 == "store"@ && fields[7].0 == "stream"@
        && fields[8].0 == "include"@);
    match effort {
        Some(effort) => {
            assert(fields.len() == 10 && fields[9].0 == "reasoning"@);
            lemma_fields_at(fields);
            let inner = fields[9].1->Object_0;
            lemma_fields_at(inner);
            assert(inner[0].0 == "effort"@ && inner[1].0 == "summary"@);
        },
        None => {
            lemma_fields_at(fields);
            crate::json::fields_are_found_by_name(fields, "reasoning"@, 9);
        },
    }
}

/// A tool is offered as it is: with its name, its description and its parameters,
/// at its place.
pub proof fn tools_are_offered_as_they_are(
    model: Seq<char>,
    effort: Option<Seq<char>>,
    messages: Seq<MessageView>,
    tools: Seq<SpecView>,
    loaded: Seq<LoadedView>,
    k: int,
)
    requires
        0 <= k < tools.len(),
    ensures
        get(request_json(model, effort, messages, tools, loaded), "tools"@) matches Some(
            JsonView::Array(offered),
        ) && get(offered[k], "type"@) == Some(JsonView::Str("function"@)) && get(
            offered[k],
            "name"@,
        ) == Some(JsonView::Str(tools[k].name)) && get(offered[k], "description"@) == Some(
            JsonView::Str(tools[k].description),
        ) && get(offered[k], "parameters"@) == Some(tools[k].parameters) && get(
            offered[k],
            "strict"@,
        ) == Some(JsonView::Bool(false)),
{
    lemma_names_differ();
    let fields = request_json(model, effort, messages, tools, loaded)->Object_0;
    assert(fields[0].0 == "model"@ && fields[1].0 == "instructions"@ && fields[2].0 == "input"@
        && fields[3].0 == "tools"@);
    lemma_field_at(fields, 3);
    let offered = fields[3].1->Array_0;
    let inner = offered[k]->Object_0;
    assert(offered[k] == tool_json(tools[k]));
    lemma_fields_at(inner);
    assert(inner[0].0 == "type"@ && inner[1].0 == "name"@ && inner[2].0 == "description"@
        && inner[3].0 == "parameters"@ && inner[4].0 == "strict"@);
}

/// What comes of an answer of the server: a refused login is renewed unless it
/// just was; 403 and the errors of the server are tried again at most twice, after
/// 800 milliseconds and then twice as long; an answer of success is read; and
/// everything else fails.
pub proof fn answers_of_the_server_are_handled(attempt: u32, renewed: bool, status: u16)
    requires
        1 <= attempt <= 3,
    ensures
        ({
            let call = ModelCall { attempt, phase: CallPhase::Sent { renewed } };
            let (next, action) = call_stepped(call, CallEvent::Answered { status });
            let again = status == 403 || (500 <= status && status < 600);
            &&& next.attempt == attempt
            &&& status == 401 && !renewed ==> action == CallAction::Renew && next.phase
                == CallPhase::Renewing
            &&& status == 401 && renewed ==> action == CallAction::FailStatus
            &&& again && attempt < 3 ==> next.phase == CallPhase::Pausing && action
                == (CallAction::Pause {
                ms: if attempt == 1 {
                    800
                } else {
                    1600
                },
            })
            &&& again && attempt == 3 ==> action == CallAction::FailStatus
            &&& 200 <= status < 300 ==> action == CallAction::Read && next.phase
                == CallPhase::Streaming
            &&& !again && status != 401 && !(200 <= status < 300) ==> action
                == CallAction::FailStatus
            &&& action == CallAction::FailStatus ==> next.phase == CallPhase::Over
        }),
{
    reveal_with_fuel(backoff_ms, 4);
}

/// A renewed login and a pause lead to the request again, the pause with one more
/// attempt; a stream that breaks off is tried again like a server's error, a
/// failure that the server reports in it is not, and one that was read to its end
/// is the answer.
pub proof fn calls_go_on(attempt: u32, broken: bool)
    requires
        1 <= attempt <= 3,
    ensures
        call_stepped(ModelCall { attempt, phase: CallPhase::Renewing }, CallEvent::Renewed) == (
            ModelCall { attempt, phase: CallPhase::Sent { renewed: true } },
            CallAction::Send { renew_if_due: false },
        ),
        attempt < 3 ==> call_stepped(
            ModelCall { attempt, phase: CallPhase::Pausing },
            CallEvent::Paused,
        ) == (
            ModelCall { attempt: (attempt + 1) as u32, phase: CallPhase::Sent { renewed: false } },
            CallAction::Send { renew_if_due: true },
        ),
        call_stepped(ModelCall { attempt, phase: CallPhase::Streaming }, CallEvent::Streamed) == (
            ModelCall { attempt, phase: CallPhase::Over },
            CallAction::Finish,
        ),
        call_stepped(
            ModelCall { attempt, phase: CallPhase::Streaming },
            CallEvent::StreamFailed { broken },
        ) == if broken && attempt < 3 {
            (
                ModelCall { attempt, phase: CallPhase::Pausing },
                CallAction::Pause {
                    ms: if attempt == 1 {
                        800
                    } else {
                        1600
                    },
                },
            )
        } else {
            (ModelCall { attempt, phase: CallPhase::Over }, CallAction::FailStream)
        },
{
    reveal_with_fuel(backoff_ms, 4);
}

/// A connection that fails in passing is tried eight times in all, after half a
/// second first and twice as long every time.
pub proof fn connections_are_tried_again(attempt: nat)
    requires
        1 <= attempt < 8,
    ensures
        CONNECT_RETRY_ATTEMPTS == 8,
        HTTP_RETRY_ATTEMPTS == 3,
        backoff_ms(CONNECT_RETRY_BASE_BACKOFF_MS as nat, 1) == 500,
        backoff_ms(CONNECT_RETRY_BASE_BACKOFF_MS as nat, attempt + 1) == 2 * backoff_ms(
            CONNECT_RETRY_BASE_BACKOFF_MS as nat,
            attempt,
        ),
        forall|status: u16| #[trigger]
            passing_status(status) <==> status == 403 || 500 <= status < 600,
{
}

/// A request is made from every message and every tool that it is given, in order.
pub proof fn requests_leave_nothing_out(messages: Seq<Message>, tools: Seq<ToolSpec>, i: int)
    ensures
        message_views(messages).len() == messages.len(),
        spec_views(tools).len() == tools.len(),
        0 <= i < messages.len() ==> message_views(messages)[i] == messages[i].deep_view(),
        0 <= i < tools.len() ==> spec_views(tools)[i] == tools[i].deep_view(),
        0 <= i < tools.len() ==> tools[i].deep_view().name == tools[i].name@
            && tools[i].deep_view().description == tools[i].description@
            && tools[i].deep_view().parameters == tools[i].parameters.deep_view(),
{
}

/// The model of a stream shows all that came from it.
pub proof fn streams_are_seen_whole(stream: StreamState)
    ensures
        stream.deep_view().content == stream.content@,
        stream.deep_view().reasoning == stream.reasoning@,
        stream.deep_view().calls == stream.calls.deep_view(),
        stream.deep_view().usage == stream.usage.deep_view(),
        stream.deep_view().completed == stream.completed,
{
}

} // verus!
