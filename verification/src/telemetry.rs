//! The trace and the log record that the harness exports, and their requests on
//! the wire.
use opentelemetry_proto::tonic::collector::logs::v1::ExportLogsServiceRequest;
use opentelemetry_proto::tonic::collector::trace::v1::ExportTraceServiceRequest;
use opentelemetry_proto::tonic::common::v1::any_value::Value;
use opentelemetry_proto::tonic::common::v1::{AnyValue, KeyValue};
use opentelemetry_proto::tonic::logs::v1::{LogRecord, ResourceLogs, ScopeLogs};
use opentelemetry_proto::tonic::resource::v1::Resource;
use opentelemetry_proto::tonic::trace::v1::{ResourceSpans, ScopeSpans, Span};
use prost::Message;
use vstd::prelude::*;

verus! {

/// A name with its value.
#[derive(Debug, PartialEq)]
pub struct Attribute {
    pub key: String,
    pub value: String,
}

/// Model of an [`Attribute`].
#[verifier::ext_equal]
pub struct AttributeView {
    pub key: Seq<char>,
    pub value: Seq<char>,
}

impl DeepView for Attribute {
    type V = AttributeView;

    open spec fn deep_view(&self) -> AttributeView {
        AttributeView { key: self.key@, value: self.value@ }
    }
}

/// What the harness calls itself.
pub open spec fn service_of() -> AttributeView {
    AttributeView { key: "service.name"@, value: "poc-rust-harness"@ }
}

fn service() -> (r: Attribute)
    ensures
        r.deep_view() == service_of(),
{
    Attribute { key: "service.name".to_owned(), value: "poc-rust-harness".to_owned() }
}

/// A step of a traced program.
#[derive(Debug, PartialEq)]
pub struct TraceSpan {
    pub trace_id: Vec<u8>,
    pub span_id: Vec<u8>,
    pub name: String,
    pub kind: i32,
    /// Nanoseconds since the start of 1970.
    pub start: u64,
    pub end: u64,
    pub attribute: Attribute,
}

/// Model of a [`TraceSpan`].
#[verifier::ext_equal]
pub struct SpanView {
    pub trace_id: Seq<u8>,
    pub span_id: Seq<u8>,
    pub name: Seq<char>,
    pub kind: i32,
    pub start: u64,
    pub end: u64,
    pub attribute: AttributeView,
}

impl DeepView for TraceSpan {
    type V = SpanView;

    open spec fn deep_view(&self) -> SpanView {
        SpanView {
            trace_id: self.trace_id@,
            span_id: self.span_id@,
            name: self.name@,
            kind: self.kind,
            start: self.start,
            end: self.end,
            attribute: self.attribute.deep_view(),
        }
    }
}

/// Length of the exported span in nanoseconds.
pub const SPAN_LENGTH: u64 = 1_000_000;

/// The kind of a span inside one program.
pub const SPAN_INTERNAL: i32 = 1;

/// The span that is exported at a point in time.
pub open spec fn span_at(now: u64) -> SpanView {
    SpanView {
        trace_id: Seq::new(16, |i: int| 1u8),
        span_id: Seq::new(8, |i: int| 2u8),
        name: "poc-rust-span"@,
        kind: SPAN_INTERNAL,
        start: now,
        end: (now + SPAN_LENGTH) as u64,
        attribute: AttributeView { key: "test.key"@, value: "test.value"@ },
    }
}

/// The export request for one span of a service, as bytes on the wire.
pub uninterp spec fn trace_request_of(service: AttributeView, span: SpanView) -> Seq<u8>;

/// `prost::Message::encode_to_vec` on an `ExportTraceServiceRequest` with one
/// span and nothing else: the bytes are a function of the service and the span.
#[verifier::external_body]
fn trace_bytes(service: Attribute, span: TraceSpan) -> (r: Vec<u8>)
    ensures
        r@ == trace_request_of(service.deep_view(), span.deep_view()),
{
    let text = |text: String| Some(AnyValue { value: Some(Value::StringValue(text)) });
    let list = |a: Attribute| vec![KeyValue { key: a.key, value: text(a.value), ..Default::default() }];
    let resource = Some(Resource { attributes: list(service), ..Default::default() });
    let spans = vec![Span {
        trace_id: span.trace_id, span_id: span.span_id, name: span.name, kind: span.kind,
        start_time_unix_nano: span.start, end_time_unix_nano: span.end,
        attributes: list(span.attribute), ..Default::default()
    }];
    let scope_spans = vec![ScopeSpans { spans, ..Default::default() }];
    let resource_spans = vec![ResourceSpans { resource, scope_spans, ..Default::default() }];
    ExportTraceServiceRequest { resource_spans }.encode_to_vec()
}

/// Bytes that are all the same.
fn repeated(byte: u8, count: usize) -> (r: Vec<u8>)
    ensures
        r@ == Seq::new(count as nat, |i: int| byte),
{
    let mut out: Vec<u8> = Vec::new();
    let mut i: usize = 0;
    while i < count
        invariant
            i <= count,
            out@ == Seq::new(i as nat, |k: int| byte),
        decreases count - i,
    {
        out.push(byte);
        i += 1;
        assert(out@ =~= Seq::new(i as nat, |k: int| byte));
    }
    out
}

/// The span that is exported at a point in time.
pub fn trace_span(now: u64) -> (r: TraceSpan)
    requires
        now + SPAN_LENGTH <= u64::MAX,
    ensures
        r.deep_view() == span_at(now),
{
    let span = TraceSpan {
        trace_id: repeated(1, 16),
        span_id: repeated(2, 8),
        name: "poc-rust-span".to_owned(),
        kind: SPAN_INTERNAL,
        start: now,
        end: now + SPAN_LENGTH,
        attribute: Attribute { key: "test.key".to_owned(), value: "test.value".to_owned() },
    };
    assert(span.deep_view() =~= span_at(now));
    span
}

/// The export request for the span at a point in time.
pub fn trace_request(now: u64) -> (r: Vec<u8>)
    requires
        now + SPAN_LENGTH <= u64::MAX,
    ensures
        r@ == trace_request_of(service_of(), span_at(now)),
{
    trace_bytes(service(), trace_span(now))
}

/// A line of a log.
#[derive(Debug, PartialEq)]
pub struct LogLine {
    /// Nanoseconds since the start of 1970.
    pub time: u64,
    /// When the line was seen, likewise.
    pub observed: u64,
    pub severity: i32,
    pub severity_text: String,
    pub message: String,
    pub attribute: Attribute,
}

/// Model of a [`LogLine`].
#[verifier::ext_equal]
pub struct LogView {
    pub time: u64,
    pub observed: u64,
    pub severity: i32,
    pub severity_text: Seq<char>,
    pub message: Seq<char>,
    pub attribute: AttributeView,
}

impl DeepView for LogLine {
    type V = LogView;

    open spec fn deep_view(&self) -> LogView {
        LogView {
            time: self.time,
            observed: self.observed,
            severity: self.severity,
            severity_text: self.severity_text@,
            message: self.message@,
            attribute: self.attribute.deep_view(),
        }
    }
}

/// The severity of a log line that only informs.
pub const SEVERITY_INFO: i32 = 9;

/// The log line that is exported at a point in time.
pub open spec fn log_at(now: u64) -> LogView {
    LogView {
        time: now,
        observed: now,
        severity: SEVERITY_INFO,
        severity_text: "INFO"@,
        message: "poc rust log message\nwith newline"@,
        attribute: AttributeView { key: "test.attr"@, value: "log_value"@ },
    }
}

/// The export request for one log line of a service, as bytes on the wire.
pub uninterp spec fn log_request_of(service: AttributeView, line: LogView) -> Seq<u8>;

/// `prost::Message::encode_to_vec` on an `ExportLogsServiceRequest` with one
/// record and nothing else: the bytes are a function of the service and the line.
#[verifier::external_body]
fn log_bytes(service: Attribute, line: LogLine) -> (r: Vec<u8>)
    ensures
        r@ == log_request_of(service.deep_view(), line.deep_view()),
{
    let text = |text: String| Some(AnyValue { value: Some(Value::StringValue(text)) });
    let list = |a: Attribute| vec![KeyValue { key: a.key, value: text(a.value), ..Default::default() }];
    let resource = Some(Resource { attributes: list(service), ..Default::default() });
    let log_records = vec![LogRecord {
        time_unix_nano: line.time, observed_time_unix_nano: line.observed,
        severity_number: line.severity, severity_text: line.severity_text,
        body: text(line.message), attributes: list(line.attribute), ..Default::default()
    }];
    let scope_logs = vec![ScopeLogs { log_records, ..Default::default() }];
    let resource_logs = vec![ResourceLogs { resource, scope_logs, ..Default::default() }];
    ExportLogsServiceRequest { resource_logs }.encode_to_vec()
}

/// The log line that is exported at a point in time.
pub fn log_line(now: u64) -> (r: LogLine)
    ensures
        r.deep_view() == log_at(now),
{
    LogLine {
        time: now,
        observed: now,
        severity: SEVERITY_INFO,
        severity_text: "INFO".to_owned(),
        message: "poc rust log message\nwith newline".to_owned(),
        attribute: Attribute { key: "test.attr".to_owned(), value: "log_value".to_owned() },
    }
}

/// The export request for the log line at a point in time.
pub fn log_request(now: u64) -> (r: Vec<u8>)
    ensures
        r@ == log_request_of(service_of(), log_at(now)),
{
    log_bytes(service(), log_line(now))
}

/// What is exported tells of its own time: the span begins now and lasts its
/// length, and the line is written and observed now.
pub proof fn exports_tell_their_time(now: u64)
    requires
        now + SPAN_LENGTH <= u64::MAX,
    ensures
        span_at(now).start == now,
        span_at(now).end == now + SPAN_LENGTH,
        span_at(now).trace_id.len() == 16 && span_at(now).span_id.len() == 8,
        log_at(now).time == now && log_at(now).observed == now,
{
}

} // verus!
