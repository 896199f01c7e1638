use e_agent::harness::{
    agent_role, batch_message, count_query, difference, dropped_line, entry_kind, escape,
    fetched_count, fetched_payload, import_rows, insert_outcome, insert_statements, is_error,
    log_table_line, log_tables, metric_line, payload_query, row_time, test_payloads, CHUNK_ROWS, INSERT_HEAD,
};
use e_agent::json::{is_plain, json_text, parse_json, Json, JsonNumber};

fn json(text: &str) -> Json {
    parse_json(text).unwrap()
}

#[test]
fn stored_entries_have_a_kind_and_an_error_flag() {
    assert_eq!(entry_kind(&json(r#"{"type":"compaction"}"#)), "compaction");
    assert_eq!(entry_kind(&json(r#"{"type":"notice"}"#)), "notice");
    assert_eq!(entry_kind(&json(r#"{"type":"goal_updated"}"#)), "message");
    assert_eq!(entry_kind(&json("[]")), "message");
    assert!(is_error(&json(r#"{"message":{"Tool":{"is_error":true}}}"#)));
    assert!(!is_error(&json(r#"{"message":{"Tool":{"is_error":1}}}"#)));
    assert!(!is_error(&json("null")));
    assert_eq!(agent_role("sub-1"), "subagent");
    assert_eq!(agent_role("subagent-1"), "subagent");
    assert_eq!(agent_role("main-1"), "main");
}

#[test]
fn rows_count_blank_lines_and_double_quotes() {
    let content = "{\"type\":\"notice\",\"text\":\"it's\"}\r\n\n  {\"type\":\"message\"}\n";
    let rows = import_rows("f", "sub-1", content, 100).unwrap();
    assert_eq!(
        rows,
        vec![
            "('sub-1', 0, 100, 'notice', '{\"type\":\"notice\",\"text\":\"it''s\"}', 1, 'subagent', false)".to_string(),
            "('sub-1', 2, 102, 'message', '{\"type\":\"message\"}', 1, 'subagent', false)".to_string(),
        ]
    );
    assert!(import_rows("f", "s", "", 0).unwrap().is_empty());
    let error = import_rows("dir/f.jsonl", "s", "{}\nnope\n", 0).unwrap_err();
    assert!(error.starts_with("dir/f.jsonl:2: bad JSON: "), "{error}");
    assert_eq!(escape("'a''"), "''a''''");
}

#[test]
fn rows_are_inserted_in_chunks() {
    let rows: Vec<String> = (0..CHUNK_ROWS + 1).map(|i| format!("({i})")).collect();
    let statements = insert_statements(&rows);
    assert_eq!(statements.len(), 2);
    assert_eq!(statements[0].1, CHUNK_ROWS);
    assert_eq!(statements[1], (format!("{INSERT_HEAD}(200)"), 1));
    assert!(statements[0].0.starts_with(&format!("{INSERT_HEAD}(0),\n(1),\n")));
    assert!(insert_statements(&vec![]).is_empty());
    assert_eq!(insert_statements(&rows[..CHUNK_ROWS].to_vec()).len(), 1);
    assert!(insert_outcome("s", "{\"output\":[]}").is_ok());
    assert_eq!(
        insert_outcome("s", "an error").unwrap_err(),
        "import failed for s: an error"
    );
}

#[test]
fn answers_hold_payloads_and_counts() {
    assert_eq!(
        payload_query("s", -1),
        "SELECT payload FROM session_entries WHERE session_id='s' AND seq=-1"
    );
    let answer = json(r#"{"data":[{"payload":"p"},{"payload":"q"}]}"#);
    assert_eq!(fetched_payload(&answer, "s", 3).unwrap(), "p");
    for text in [r#"{"data":[]}"#, r#"{"data":[{}]}"#, "{}"] {
        assert_eq!(
            fetched_payload(&json(text), "s", 3).unwrap_err(),
            "no row for s/3"
        );
    }
    assert_eq!(count_query("t"), "SELECT COUNT(*) AS n FROM t");
    let answer = json(r#"{"data":[{"n":5}]}"#);
    assert_eq!(fetched_count(&answer, "", "t").unwrap(), 5);
    let answer = json(r#"{"data":[{"n":"5"}]}"#);
    assert_eq!(
        fetched_count(&answer, &json_text(&answer), "t").unwrap_err(),
        r#"no count from t: {"data":[{"n":"5"}]}"#
    );
    assert_eq!(metric_line("t", &Ok(2)), "  t: 2 rows");
    assert_eq!(metric_line("t", &Err("e".into())), "  t: NOT FOUND (e)");
    assert!(dropped_line(&Ok(0)).contains("0 rows"));
    assert_eq!(log_tables(), ["opentelemetry_logs", "greptime_logs", "logs"]);
    assert_eq!(
        log_table_line("logs", &Ok(2)),
        (Some("  logs: 2 rows".to_string()), true)
    );
    assert_eq!(
        log_table_line("logs", &Ok(0)),
        (Some("  logs: 0 rows".to_string()), false)
    );
    assert_eq!(log_table_line("logs", &Err("e".into())), (None, false));
    assert_eq!(dropped_line(&Ok(3)), "  UNEXPECTED: 3 rows found");
    assert!(dropped_line(&Err("e".into())).contains("does not exist"));
}

#[test]
fn payloads_are_compared_byte_by_byte() {
    assert_eq!(
        difference(b"abcdef", b"abXdef").unwrap(),
        format!(
            "    first diff at byte 2: got {:02x?} want {:02x?}",
            b"abcde", b"abXde"
        )
    );
    assert_eq!(
        difference(b"a", b"b").unwrap(),
        "    first diff at byte 0: got [61] want [62]"
    );
    assert_eq!(difference(b"abc", b"abcd"), None);
    assert_eq!(difference(b"", b""), None);
    let payloads = test_payloads();
    assert_eq!(payloads.len(), 9);
    assert_eq!(payloads[8], "A".repeat(1_000_000));
    assert_eq!(payloads[7], "backslash \\ and \\\\ more");
    assert_eq!(row_time(7), "2026-07-29 12:00:00.000000007");
    assert_eq!(row_time(1234567890), "2026-07-29 12:00:00.1234567890");
    assert_eq!(
        batch_message(103),
        format!("batch message 103 {}", "x".repeat(3))
    );
}

#[test]
fn plain_documents_are_told_apart() {
    for text in ["null", "[1,-2,{}]", r#"{"a":{"b":[]},"c":"x"}"#] {
        let document = parse_json(text).unwrap();
        assert!(is_plain(&document));
        assert_eq!(json_text(&document), text);
    }
    assert!(!is_plain(&parse_json("[0.5]").unwrap()));
    assert!(!is_plain(&Json::Number(JsonNumber::Negative(3))));
    let twice = Json::Object(vec![("a".into(), Json::Null), ("a".into(), Json::Bool(true))]);
    assert!(!is_plain(&Json::Array(vec![Json::Null, twice])));
}
