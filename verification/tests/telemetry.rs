use e_agent::telemetry::{log_line, log_request, trace_request, trace_span, SPAN_LENGTH};
use opentelemetry_proto::tonic::collector::logs::v1::ExportLogsServiceRequest;
use opentelemetry_proto::tonic::collector::trace::v1::ExportTraceServiceRequest;
use opentelemetry_proto::tonic::common::v1::any_value::Value;
use opentelemetry_proto::tonic::common::v1::{AnyValue, KeyValue};
use opentelemetry_proto::tonic::resource::v1::Resource;
use prost::Message;

const NOW: u64 = 1_785_170_100_000_000_000;

fn texts(attributes: &[KeyValue]) -> Vec<(String, String)> {
    attributes
        .iter()
        .map(|attribute| (attribute.key.clone(), text(&attribute.value)))
        .collect()
}

fn text(value: &Option<AnyValue>) -> String {
    match value.as_ref().unwrap().value.as_ref().unwrap() {
        Value::StringValue(text) => text.clone(),
        other => panic!("{other:?}"),
    }
}

fn is_the_harness(resource: &Option<Resource>) {
    assert_eq!(
        texts(&resource.as_ref().unwrap().attributes),
        [("service.name".to_string(), "poc-rust-harness".to_string())]
    );
}

#[test]
fn traces_are_exported_with_one_span() {
    let request = ExportTraceServiceRequest::decode(trace_request(NOW).as_slice()).unwrap();
    assert_eq!(request.resource_spans.len(), 1);
    is_the_harness(&request.resource_spans[0].resource);
    let spans = &request.resource_spans[0].scope_spans[0].spans;
    assert_eq!(spans.len(), 1);
    let span = trace_span(NOW);
    assert_eq!(spans[0].trace_id, vec![1; 16]);
    assert_eq!(spans[0].span_id, vec![2; 8]);
    assert_eq!(spans[0].name, "poc-rust-span");
    assert_eq!(spans[0].kind, span.kind);
    assert_eq!(spans[0].start_time_unix_nano, NOW);
    assert_eq!(spans[0].end_time_unix_nano, NOW + SPAN_LENGTH);
    assert_eq!(
        texts(&spans[0].attributes),
        [("test.key".to_string(), "test.value".to_string())]
    );
    assert_eq!(span.start, NOW);
}

#[test]
fn logs_are_exported_with_one_record() {
    let request = ExportLogsServiceRequest::decode(log_request(NOW).as_slice()).unwrap();
    assert_eq!(request.resource_logs.len(), 1);
    is_the_harness(&request.resource_logs[0].resource);
    let records = &request.resource_logs[0].scope_logs[0].log_records;
    assert_eq!(records.len(), 1);
    assert_eq!(records[0].time_unix_nano, NOW);
    assert_eq!(records[0].observed_time_unix_nano, NOW);
    assert_eq!(records[0].severity_number, 9);
    assert_eq!(records[0].severity_text, "INFO");
    assert_eq!(text(&records[0].body), "poc rust log message\nwith newline");
    assert_eq!(
        texts(&records[0].attributes),
        [("test.attr".to_string(), "log_value".to_string())]
    );
    assert_eq!(log_line(NOW).message, text(&records[0].body));
}
