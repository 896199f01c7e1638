use e_agent::config::SessionBackend;
use e_agent::entry::SessionEntry;
use e_agent::import_jsonl::{
    begin_import, confirm_import, connection, entries_in_seq_order, imported_line,
    is_session_name, legacy_session, missing_file, parse_args_from, plan_import, session_file,
    verify_db_matches, ArgsError, ImportAction, ImportPlan, NO_CONNECTION,
};
use e_agent::message::{AssistantMessage, Message};

fn error_text(error: ArgsError) -> String {
    match error {
        ArgsError::Help => "help".to_string(),
        ArgsError::Invalid { error } => error,
    }
}

fn msg(content: &str) -> SessionEntry {
    Message::User {
        content: content.to_owned(),
        images: vec![],
    }
    .into()
}

fn assistant(content: &str) -> SessionEntry {
    Message::Assistant(AssistantMessage {
        content: Some(content.to_owned()),
        tool_calls: vec![],
        reasoning: None,
    })
    .into()
}

fn entries(strings: &[&str]) -> Vec<SessionEntry> {
    strings.iter().map(|s| msg(s)).collect()
}


#[test]
fn plan_unchanged() {
    let db = entries(&["a", "b", "c"]);
    let jsonl = entries(&["a", "b", "c"]);
    assert_eq!(plan_import(&db, &jsonl), ImportPlan::Unchanged);
}

#[test]
fn plan_empty_both() {
    let db: Vec<SessionEntry> = vec![];
    let jsonl: Vec<SessionEntry> = vec![];
    assert_eq!(plan_import(&db, &jsonl), ImportPlan::Unchanged);
}

#[test]
fn plan_append_tail() {
    let db = entries(&["a", "b"]);
    let jsonl = entries(&["a", "b", "c", "d"]);
    match plan_import(&db, &jsonl) {
        ImportPlan::Append { missing, db_len } => {
            assert_eq!(db_len, 2);
            assert_eq!(missing, &entries(&["c", "d"]));
        }
        other => panic!("expected Append, got {other:?}"),
    }
}

#[test]
fn plan_append_from_empty_db() {
    let db: Vec<SessionEntry> = vec![];
    let jsonl = entries(&["a", "b"]);
    match plan_import(&db, &jsonl) {
        ImportPlan::Append { missing, db_len } => {
            assert_eq!(db_len, 0);
            assert_eq!(missing, &entries(&["a", "b"]));
        }
        other => panic!("expected Append, got {other:?}"),
    }
}

#[test]
fn plan_db_longer() {
    let db = entries(&["a", "b", "c"]);
    let jsonl = entries(&["a", "b"]);
    match plan_import(&db, &jsonl) {
        ImportPlan::DbLonger { db_len, jsonl_len } => {
            assert_eq!(db_len, 3);
            assert_eq!(jsonl_len, 2);
        }
        other => panic!("expected DbLonger, got {other:?}"),
    }
}

#[test]
fn plan_diverged_at_start() {
    let db = entries(&["x", "b"]);
    let jsonl = entries(&["a", "b"]);
    match plan_import(&db, &jsonl) {
        ImportPlan::Diverged { at } => assert_eq!(at, 0),
        other => panic!("expected Diverged, got {other:?}"),
    }
}

#[test]
fn plan_diverged_in_middle() {
    let db = entries(&["a", "x", "c"]);
    let jsonl = entries(&["a", "b", "c"]);
    match plan_import(&db, &jsonl) {
        ImportPlan::Diverged { at } => assert_eq!(at, 1),
        other => panic!("expected Diverged, got {other:?}"),
    }
}

#[test]
fn plan_diverged_at_last() {
    let db = entries(&["a", "b", "x"]);
    let jsonl = entries(&["a", "b", "c"]);
    match plan_import(&db, &jsonl) {
        ImportPlan::Diverged { at } => assert_eq!(at, 2),
        other => panic!("expected Diverged, got {other:?}"),
    }
}

#[test]
fn plan_diverged_variants_still_compared() {
    // Different entry types at the same position must also diverge.
    let db = vec![assistant("hello")];
    let jsonl = entries(&["hello"]);
    match plan_import(&db, &jsonl) {
        ImportPlan::Diverged { at } => assert_eq!(at, 0),
        other => panic!("expected Diverged, got {other:?}"),
    }
}


#[test]
fn seq_continuity_ok() {
    let data: Vec<(i64, SessionEntry)> = (0..5).map(|i| (i, msg("x"))).collect();
    assert!(entries_in_seq_order(&data).is_ok());
}

#[test]
fn canonical_event_time_order_rebuilds_jsonl_seq_order() {
    let data = vec![(2, msg("c")), (0, msg("a")), (1, msg("b"))];
    let rebuilt = entries_in_seq_order(&data).unwrap();
    let jsonl = entries(&["a", "b", "c"]);
    assert_eq!(rebuilt, jsonl);
    assert_eq!(plan_import(&rebuilt, &jsonl), ImportPlan::Unchanged);
}

#[test]
fn seq_continuity_empty() {
    let data: Vec<(i64, SessionEntry)> = vec![];
    assert!(entries_in_seq_order(&data).is_ok());
}

#[test]
fn seq_continuity_gap() {
    let data: Vec<(i64, SessionEntry)> = vec![
        (0, msg("a")),
        (2, msg("b")), // gap: seq 1 missing
    ];
    let err = entries_in_seq_order(&data).unwrap_err();
    assert!(err.contains("seq discontinuity: expected seq 1"));
}

#[test]
fn seq_continuity_wrong_start() {
    let data: Vec<(i64, SessionEntry)> = vec![
        (1, msg("a")), // should start at 0
    ];
    let err = entries_in_seq_order(&data).unwrap_err();
    assert!(err.contains("seq discontinuity: expected seq 0"));
}

#[test]
fn seq_continuity_duplicate_seq() {
    let data: Vec<(i64, SessionEntry)> = vec![
        (0, msg("a")),
        (0, msg("b")), // duplicate
    ];
    // Dedup handled in load_with_seq, but verify catches if duplicates
    // somehow survive.
    let err = entries_in_seq_order(&data).unwrap_err();
    assert!(err.contains("seq discontinuity: expected seq 1"));
}


#[test]
fn parse_basic_workspace_and_session() {
    let raw = vec![
        "--workspace".into(),
        "/my/ws".into(),
        "--session".into(),
        "my-session_01".into(),
    ];
    let args = parse_args_from(&raw, "/here").unwrap();
    assert_eq!(args.workspace, "/my/ws");
    assert_eq!(args.session, "my-session_01");
    assert!(args.conn.is_none());
    assert!(!args.dry_run);
}

#[test]
fn parse_dry_run() {
    let raw = vec!["--session".into(), "s1".into(), "--dry-run".into()];
    let args = parse_args_from(&raw, "/here").unwrap();
    assert!(args.dry_run);
    assert_eq!(args.session, "s1");
}

#[test]
fn parse_conn_provided() {
    let raw = vec![
        "--session".into(),
        "s1".into(),
        "--conn".into(),
        "host=10.0.0.1 port=4002".into(),
    ];
    let args = parse_args_from(&raw, "/here").unwrap();
    assert_eq!(args.conn.as_deref(), Some("host=10.0.0.1 port=4002"));
}

#[test]
fn parse_session_missing() {
    let raw: Vec<String> = vec!["--workspace".into(), "/tmp".into()];
    let err = parse_args_from(&raw, "/here").unwrap_err();
    assert!(error_text(err).contains("--session is required"));
}

#[test]
fn parse_session_missing_value() {
    let raw: Vec<String> = vec!["--session".into()];
    let err = parse_args_from(&raw, "/here").unwrap_err();
    assert!(error_text(err).contains("--session requires a value"));
}

#[test]
fn parse_unknown_arg() {
    let raw: Vec<String> = vec!["--session".into(), "s1".into(), "--foobar".into()];
    let err = parse_args_from(&raw, "/here").unwrap_err();
    assert!(error_text(err).contains("unexpected argument"));
}

#[test]
fn default_workspace_is_the_current_directory() {
    let raw: Vec<String> = vec!["--session".into(), "s1".into()];
    let args = parse_args_from(&raw, "/here").unwrap();
    assert_eq!(args.workspace, "/here");
}

#[test]
fn parse_rejects_removed_replace_flag() {
    let raw = vec![
        "--session".into(),
        "s1".into(),
        "--replace-divergent-tail".into(),
    ];
    let err = parse_args_from(&raw, "/here").unwrap_err();
    let msg = error_text(err);
    assert!(
        msg.contains("--replace-divergent-tail has been removed"),
        "expected removal message, got: {msg}"
    );
}

#[test]
fn help_is_asked_for_by_name_or_by_silence() {
    assert_eq!(parse_args_from(&[], "/here").unwrap_err(), ArgsError::Help);
    let raw = vec!["--session".to_string(), "s".to_string(), "-h".to_string()];
    assert_eq!(parse_args_from(&raw, "/here").unwrap_err(), ArgsError::Help);
    let raw = vec!["--bogus".to_string(), "--help".to_string()];
    assert_eq!(parse_args_from(&raw, "/here").unwrap_err(), ArgsError::Help);
}

#[test]
fn later_values_win_and_missing_values_are_named() {
    let raw: Vec<String> = vec![
        "--session".into(),
        "a".into(),
        "--conn".into(),
        "one".into(),
        "--session".into(),
        "b".into(),
    ];
    let args = parse_args_from(&raw, "/here").unwrap();
    assert_eq!(args.session, "b");
    assert_eq!(args.conn.as_deref(), Some("one"));
    for switch in ["--workspace", "--conn"] {
        let raw: Vec<String> = vec!["--session".into(), "a".into(), switch.into()];
        assert_eq!(
            error_text(parse_args_from(&raw, "/here").unwrap_err()),
            format!("{switch} requires a value")
        );
    }
}

#[test]
fn session_names_and_files() {
    assert!(is_session_name("my-session_01"));
    assert!(is_session_name("A"));
    assert!(!is_session_name(""));
    assert!(!is_session_name("a/b"));
    assert!(!is_session_name("ü"));
    assert_eq!(session_file("/ws", "s1"), "/ws/.e-agent/sessions/s1.jsonl");
    assert_eq!(
        missing_file("/ws/x"),
        "JSONL session file not found: /ws/x; only .e-agent/sessions/<id>.jsonl is supported (no legacy .json)"
    );
    assert_eq!(
        legacy_session("s1"),
        "session 's1' is in legacy JSON format; launch e-agent once to migrate it before importing"
    );
}

#[test]
fn the_given_connection_wins_over_the_configured_one() {
    let greptime = SessionBackend::Greptime {
        conn: "configured".into(),
    };
    assert_eq!(connection(Some("given"), Some(&greptime), "").unwrap(), "given");
    assert_eq!(connection(None, Some(&greptime), "").unwrap(), "configured");
    assert_eq!(connection(None, None, "").unwrap_err(), NO_CONNECTION);
    assert_eq!(
        connection(None, Some(&SessionBackend::Jsonl), "Jsonl").unwrap_err(),
        "config [session] backend is 'Jsonl', not 'greptime'; provide --conn to override"
    );
}

#[test]
fn imports_append_only_what_is_missing() {
    let db = entries(&["a", "b"]);
    let jsonl = entries(&["a", "b", "c", "d"]);
    let (lines, action) = begin_import(&db, &jsonl, false);
    assert_eq!(lines, vec!["append: 2 entries (positions 2..4)".to_string()]);
    assert_eq!(action, ImportAction::Recheck { from: 2 });
    let (lines, action) = begin_import(&db, &jsonl, true);
    assert_eq!(lines.len(), 2);
    assert!(lines[1].starts_with("dry-run: would append 2 entries, not writing."));
    assert_eq!(action, ImportAction::Finish);
    let (lines, action) = begin_import(&jsonl, &jsonl, false);
    assert_eq!(
        lines,
        vec!["unchanged — all 4 entries already present in DB".to_string()]
    );
    assert_eq!(action, ImportAction::Finish);
    let (lines, action) = begin_import(&jsonl, &db, false);
    assert!(lines.is_empty());
    assert_eq!(
        action,
        ImportAction::Refuse {
            error: "DB has 4 entries but JSONL has only 2; refusing to truncate".into()
        }
    );
    let (_, action) = begin_import(&entries(&["a", "x"]), &jsonl, false);
    match action {
        ImportAction::Refuse { error } => {
            assert!(error.starts_with("DB and JSONL diverge at entry 1; refusing"))
        }
        other => panic!("expected a refusal, got {other:?}"),
    }
    assert_eq!(
        imported_line(2, 4),
        "appended 2 entries — DB now matches JSONL (4 entries)"
    );
}

#[test]
fn a_database_that_changed_is_not_written_to() {
    let db = entries(&["a", "b"]);
    let same = vec![(1, msg("b")), (0, msg("a"))];
    assert_eq!(confirm_import(&db, &same).unwrap(), 2);
    let grown = vec![(0, msg("a")), (1, msg("b")), (2, msg("c"))];
    assert_eq!(
        confirm_import(&db, &grown).unwrap_err(),
        "DB changed between initial read and pre-write check (2 entries vs 3). Target session may not be idle. Re-run when session is idle."
    );
    let gap = vec![(0, msg("a")), (3, msg("b"))];
    assert_eq!(
        confirm_import(&db, &gap).unwrap_err(),
        "DB seq continuity check failed before write (TOCTOU): seq discontinuity: expected seq 1, got 3; DB has gaps or duplicates that dedup cannot resolve"
    );
    let negative = vec![(-1, msg("a"))];
    assert_eq!(
        entries_in_seq_order(&negative).unwrap_err(),
        "seq discontinuity: expected seq 0, got -1; DB has gaps or duplicates that dedup cannot resolve"
    );
}

#[test]
fn the_written_database_is_compared_with_the_file() {
    let expected = entries(&["a", "b"]);
    let rows = |texts: &[&str]| -> Vec<(i64, SessionEntry)> {
        texts
            .iter()
            .enumerate()
            .map(|(i, text)| (i as i64, msg(text)))
            .collect()
    };
    assert!(verify_db_matches(&rows(&["a", "b"]), &expected).is_ok());
    assert!(verify_db_matches(&rows(&["a"]), &expected)
        .unwrap_err()
        .starts_with("verification FAILED: reloaded DB has 1 entries, expected 2;"));
    assert!(verify_db_matches(&rows(&["a", "x"]), &expected)
        .unwrap_err()
        .starts_with("verification FAILED at position 1: DB entry content differs"));
    assert!(verify_db_matches(&[(5, msg("a"))], &expected)
        .unwrap_err()
        .starts_with("verification FAILED — seq discontinuity: expected seq 0, got 5;"));
}
