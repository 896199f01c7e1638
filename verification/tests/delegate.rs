use e_agent::compaction::CompactionMode;
use e_agent::config::SessionBackend;
use e_agent::delegate::{
    btw_fork_entries, btw_question, plan_btw, read_only_policy, read_request, result_output,
    runner_result, session_output, start_agent, started_text, subagent_instructions, sync_result,
    task_label, BtwContext, Delegate, DelegateCleanup, DelegateStep, Errand, ForkWrite,
    RecordPlace, Registers, Report, RoleTemplate, Route, SessionEntry, SessionResult, Sessions, SpawnPlan,
    AGENTS_HEAD, BACKGROUND_NOTE, FORK_NOTICE, NO_PERSISTENCE, NO_ROLES, NO_WORKSPACE, READ_ONLY_NOTE,
};
use e_agent::entry;
use e_agent::json::{json_text, parse_json, Json};
use e_agent::message::{AssistantMessage, Message};
use e_agent::sandbox::Sandbox;
use e_agent::table::Table;

fn json(text: &str) -> Json {
    parse_json(text).unwrap()
}

fn live(id: &str) -> SessionEntry {
    SessionEntry {
        model: "m".into(),
        role: None,
        cwd: "/ws".into(),
        session_id: id.into(),
        context_window: None,
    }
}

/// A program without live subagents.
fn none() -> Registers {
    let mut registers = Registers::new();
    Sessions::new(&mut registers);
    registers
}

fn delegate() -> Delegate {
    Delegate::new("kimi/k3".into(), "/ws".into(), &mut Registers::new())
}

fn sandbox() -> Sandbox {
    Sandbox {
        enabled: true,
        network: true,
        workspace_writable: true,
        writable_paths: vec!["/w".into()],
        readable_paths: vec!["/r".into()],
        readable_mounts: vec![("/r".into(), "/r".into())],
        writable_mounts: vec![("/w".into(), "/w".into())],
    }
}

fn refusal(step: DelegateStep) -> String {
    match step {
        DelegateStep::Refuse { error } => error,
        other => panic!("expected a refusal, got {other:?}"),
    }
}

fn awaits(step: DelegateStep) -> (e_agent::delegate::Delegation, Errand) {
    match step {
        DelegateStep::Await { delegation, errand } => (delegation, errand),
        other => panic!("expected an errand, got {other:?}"),
    }
}

fn started(step: DelegateStep) -> SpawnPlan {
    match step {
        DelegateStep::Start { plan } => plan,
        other => panic!("expected a start, got {other:?}"),
    }
}

fn history() -> Vec<entry::SessionEntry> {
    vec![
        Message::User {
            content: "q".into(),
            images: vec![],
        }
        .into(),
        Message::Assistant(AssistantMessage {
            content: Some("a".into()),
            tool_calls: vec![],
            reasoning: None,
        })
        .into(),
        entry::SessionEntry::Notice { text: "n".into() },
    ]
}

#[test]
fn the_register_holds_one_subagent_a_task() {
    let mut registers = Registers::default();
    let sessions = Sessions::new(&mut registers);
    sessions.insert(&mut registers, 1, live("a"));
    sessions.insert(&mut registers, 2, live("b"));
    sessions.insert(&mut registers, 1, live("c"));
    assert_eq!(sessions.get(&registers, 1), Some(live("c")));
    assert_eq!(sessions.get(&registers, 2), Some(live("b")));
    assert_eq!(sessions.get(&registers, 3), None);
    assert_eq!(sessions.list(&registers).len(), 2);
    assert!(sessions.is_live(&registers, "c") && !sessions.is_live(&registers, "a"));
    sessions.remove(&mut registers, 1);
    assert_eq!(sessions.get(&registers, 1), None);
    assert_eq!(sessions.get(&registers, 2), Some(live("b")));
    assert_eq!(sessions.list(&registers), vec![(2, live("b"))]);
}

#[test]
fn clones_share_one_register() {
    let mut registers = Registers::new();
    let sessions = Sessions::new(&mut registers);
    let copy = sessions.clone();
    let apart = Sessions::new(&mut registers);
    sessions.insert(&mut registers, 1, live("a"));
    copy.insert(&mut registers, 2, live("b"));
    apart.insert(&mut registers, 1, live("other"));
    assert_eq!(copy.get(&registers, 1), Some(live("a")));
    assert_eq!(sessions.get(&registers, 2), Some(live("b")));
    let listed = copy.list(&registers);
    sessions.remove(&mut registers, 1);
    assert_eq!(sessions.get(&registers, 1), None);
    assert_eq!(copy.get(&registers, 1), None);
    assert_eq!(copy.get(&registers, 2), Some(live("b")));
    assert_eq!(apart.get(&registers, 1), Some(live("other")));
    assert_eq!(listed.len(), 2);
    sessions.remove(&mut registers, 7);
    assert_eq!(copy.list(&registers), vec![(2, live("b"))]);
}

#[test]
fn cleanup_is_done_once() {
    let mut registers = Registers::new();
    let sessions = Sessions::new(&mut registers);
    sessions.insert(&mut registers, 4, live("a"));
    sessions.insert(&mut registers, 5, live("b"));
    let mut cleanup = DelegateCleanup::new(Some(4), sessions.clone(), true);
    assert_eq!(cleanup.cleanup(&mut registers), Some(4));
    assert_eq!(sessions.get(&registers, 4), None);
    sessions.insert(&mut registers, 4, live("other"));
    assert_eq!(cleanup.cleanup(&mut registers), None);
    assert_eq!(sessions.get(&registers, 4), Some(live("other")));
    assert_eq!(
        DelegateCleanup::new(Some(5), sessions.clone(), false).finish(&mut registers),
        None
    );
    assert_eq!(sessions.get(&registers, 5), None);
    assert_eq!(
        DelegateCleanup::new(None, sessions, true).finish(&mut registers),
        None
    );
}

#[test]
fn titles_fall_back_to_role_and_task() {
    assert_eq!(
        task_label(Some("  two \n lines "), Some("oracle"), "task"),
        "two lines"
    );
    assert_eq!(task_label(Some("  "), Some("oracle  x"), "task"), "oracle x");
    assert_eq!(task_label(None, None, "short\ttask"), "short task");
    let long = task_label(None, None, &"x".repeat(100));
    assert_eq!(long.chars().count(), 40);
    assert!(long.contains('…'));
}

#[test]
fn results_are_told_under_the_session() {
    let failed = || SessionResult::Failed {
        error: "boom".into(),
    };
    assert_eq!(
        result_output(failed()),
        (false, "subagent failed: boom".to_string())
    );
    assert_eq!(
        result_output(SessionResult::Completed { answer: None }),
        (true, String::new())
    );
    assert_eq!(
        sync_result(
            "sub-1",
            SessionResult::Completed {
                answer: Some("yes".into())
            }
        )
        .unwrap(),
        "subagent session: sub-1\nyes"
    );
    assert_eq!(
        sync_result("sub-1", SessionResult::Cancelled).unwrap_err(),
        "subagent session: sub-1\nsubagent cancelled"
    );
    assert_eq!(
        sync_result("sub-1", SessionResult::Closed).unwrap_err(),
        "subagent session: sub-1\nsubagent closed"
    );
    assert_eq!(
        session_output("btw", "btw-1", "x"),
        "btw session: btw-1\nx"
    );
    assert_eq!(
        started_text("started background task 1: x", "sub-1"),
        "started background task 1: x\nsubagent session: sub-1"
    );
    assert_eq!(
        runner_result(Some("panicked".into()), Some(SessionResult::Cancelled)),
        SessionResult::Failed {
            error: "panicked".into()
        }
    );
    assert_eq!(runner_result(None, None), SessionResult::Closed);
    assert_eq!(
        runner_result(None, Some(SessionResult::Cancelled)),
        SessionResult::Cancelled
    );
}

#[test]
fn instructions_name_the_model_and_the_limits() {
    let plain = subagent_instructions(None, false, false, "m", None);
    assert!(plain.starts_with("You are a subagent inside the e-agent coding assistant (running on the `m` model)."));
    assert!(plain.ends_with(BACKGROUND_NOTE));
    let role = subagent_instructions(Some("Be terse."), false, true, "m", Some("rules"));
    assert!(role.starts_with("Be terse.\n\nYou are running as a subagent"));
    assert!(role.contains(READ_ONLY_NOTE));
    assert!(role.ends_with(&format!("{AGENTS_HEAD}rules")));
    let fork = subagent_instructions(None, true, false, "m", Some("  \n"));
    assert!(fork.starts_with("You are a persistent subagent in a btw fork"));
    assert!(fork.ends_with(BACKGROUND_NOTE));
    let agent = start_agent(Some(9), plain.clone(), false, Some(history()));
    assert_eq!(agent.context_window, Some(9));
    assert_eq!(agent.context_prefix, Some(plain));
    assert_eq!(agent.history().len(), 3);
    assert_eq!(agent.compaction_mode, CompactionMode::SingleTask);
    let side = start_agent(None, "x".into(), true, None);
    assert!(side.history().is_empty());
    assert_eq!(side.compaction_mode, CompactionMode::Main);
}

#[test]
fn arguments_are_checked_in_order() {
    let error = |text: &str, delivery: bool| read_request(&json(text), delivery).unwrap_err();
    assert_eq!(
        error(r#"{"task":1,"bogus":2}"#, true),
        "unknown delegate parameter `bogus` (known: task, role, label, background, resume, workspace)"
    );
    assert_eq!(error(r#"{"task":1}"#, true), "`task` must be a string");
    assert_eq!(error("[]", true), "`task` must be a string");
    assert_eq!(error(r#"{"task":" "}"#, true), "`task` must not be empty");
    assert_eq!(
        error(r#"{"task":"t","background":null}"#, true),
        "`background` must be a boolean"
    );
    assert_eq!(
        error(r#"{"task":"t"}"#, false),
        "background task delivery is unavailable"
    );
    let request = read_request(
        &json(r#"{"task":" t ","background":false,"workspace":" . ","role":3}"#),
        false,
    )
    .unwrap();
    assert_eq!(request.task, " t ");
    assert!(!request.background);
    assert_eq!(request.workspace.as_deref(), Some("."));
    assert_eq!(request.role, None);
}

#[test]
fn a_plain_delegation_needs_a_workspace() {
    let delegate = delegate().with_sandbox(Some(sandbox()));
    assert_eq!(
        refusal(delegate.execute(&none(), &json(r#"{"task":"t"}"#), true)),
        NO_WORKSPACE
    );
    let (delegation, errand) =
        awaits(delegate.execute(&none(), &json(r#"{"task":"t","workspace":"sub"}"#), true));
    assert_eq!(
        errand,
        Errand::Reroot {
            path: "/ws/sub".into()
        }
    );
    let plan = started(delegate.go_on(
        &none(),
        delegation,
        Report::Rerooted {
            root: Ok("/ws/sub".into()),
        },
    ));
    assert_eq!(plan.task, "t");
    assert_eq!(plan.label, "t");
    assert_eq!(plan.choice.model, "kimi/k3");
    assert!(plan.choice.protect_git && !plan.choice.read_only);
    assert_eq!(plan.sandbox, Some(sandbox()));
    assert_eq!(plan.shown_workspace, "sub");
    assert_eq!(plan.workspace, "/ws/sub");
    assert!(plan.background);
    assert_eq!(plan.meta_label.as_deref(), Some("t"));
    let storage = delegate.storage(&plan, "/tmp/subagents", "sub-9");
    assert_eq!(storage.root, "/tmp/subagents");
    assert_eq!(storage.session_id, "sub-9");
    let (delegation, errand) =
        awaits(delegate.execute(&none(), &json(r#"{"task":"t","workspace":"/abs"}"#), true));
    assert_eq!(errand, Errand::Reroot { path: "/abs".into() });
    assert_eq!(
        refusal(delegate.go_on(
            &none(),
            delegation,
            Report::Rerooted {
                root: Err("outside".into())
            }
        )),
        "invalid `workspace` path `/abs`: outside"
    );
}

fn role_read(
    delegate: &Delegate,
    template: Result<Option<RoleTemplate>, String>,
    routed: Option<Route>,
) -> DelegateStep {
    let arguments = json(r#"{"task":"t","workspace":".","role":"oracle"}"#);
    let (delegation, errand) = awaits(delegate.execute(&none(), &arguments, true));
    assert_eq!(
        errand,
        Errand::ReadRole {
            root: "/roles".into(),
            role: "oracle".into()
        }
    );
    delegate.go_on(
        &none(),
        delegation,
        Report::RoleRead {
            template,
            available: vec!["fixer".into(), "judge".into()],
            routed,
        },
    )
}

fn template(read_only: bool) -> Result<Option<RoleTemplate>, String> {
    Ok(Some(RoleTemplate {
        prompt: "You are the oracle.".into(),
        read_only,
        protect_git: false,
    }))
}

fn rerooted(delegate: &Delegate, step: DelegateStep) -> SpawnPlan {
    let (delegation, _) = awaits(step);
    started(delegate.go_on(
        &none(),
        delegation,
        Report::Rerooted {
            root: Ok("/ws".into()),
        },
    ))
}

#[test]
fn roles_choose_model_prompt_and_sandbox() {
    let arguments = json(r#"{"task":"t","role":"oracle"}"#);
    assert_eq!(refusal(delegate().execute(&none(), &arguments, true)), NO_ROLES);
    let mut models = Table::new();
    models.insert("oracle".to_string(), "big".to_string());
    let mut windows = Table::new();
    windows.insert("oracle".to_string(), Some(1000));
    let delegate = delegate()
        .with_roles_root("/roles".into())
        .with_role_models(models)
        .with_role_context_windows(windows)
        .with_subagent_context_window(Some(5))
        .with_sandbox(Some(sandbox()));
    assert_eq!(
        refusal(role_read(&delegate, Err("bad frontmatter".into()), None)),
        "cannot read role `oracle`: bad frontmatter"
    );
    assert_eq!(
        refusal(role_read(&delegate, Ok(None), None)),
        "unknown role `oracle` (available: fixer, judge)"
    );
    let plan = rerooted(&delegate, role_read(&delegate, template(true), None));
    assert_eq!(plan.choice.model, "big");
    assert_eq!(plan.choice.context_window, Some(1000));
    assert_eq!(
        plan.choice.role_prompt.as_deref(),
        Some("You are the oracle.")
    );
    assert!(!plan.choice.protect_git);
    assert_eq!(plan.label, "oracle");
    // A read-only role cannot write.
    let narrow = plan.sandbox.unwrap();
    assert!(!narrow.network && !narrow.workspace_writable);
    assert!(narrow.writable_paths.is_empty() && narrow.writable_mounts.is_empty());
    assert_eq!(narrow.readable_paths, vec!["/r".to_string()]);
    assert_eq!(narrow, read_only_policy(&sandbox()));
    assert_eq!(
        delegate.with_sandbox(None).read_only_sandbox(),
        None
    );
}

#[test]
fn live_routes_win_over_the_tables() {
    let mut models = Table::new();
    models.insert("oracle".to_string(), "big".to_string());
    let delegate = delegate()
        .with_roles_root("/roles".into())
        .with_role_models(models)
        .with_role_model_source()
        .with_subagent_model("small".into());
    let routed = Some(Route {
        model: "routed".into(),
        context_window: Some(7),
    });
    let plan = rerooted(&delegate, role_read(&delegate, template(false), routed));
    assert_eq!(plan.choice.model, "routed");
    assert_eq!(plan.choice.context_window, Some(7));
    let plan = rerooted(&delegate, role_read(&delegate, template(false), None));
    assert_eq!(plan.choice.model, "small");
}

fn resume(delegate: &Delegate) -> DelegateStep {
    delegate.execute(
        &none(),
        &json(r#"{"task":"t","workspace":".","resume":"sub-1","label":"again"}"#),
        true,
    )
}

#[test]
fn sessions_are_continued_with_what_they_missed() {
    assert_eq!(refusal(resume(&delegate())), NO_PERSISTENCE);
    let delegate = delegate()
        .persist_sessions("/store".into())
        .with_persist_store(SessionBackend::Jsonl)
        .with_finalize_wait(Some(600))
        .record_background_tasks_in("/ws".into(), "main-1");
    let (delegation, errand) = awaits(resume(&delegate));
    assert_eq!(
        errand,
        Errand::Load {
            root: "/store".into(),
            id: "sub-1".into()
        }
    );
    let (delegation, errand) = awaits(delegate.go_on(
        &none(),
        delegation,
        Report::Loaded {
            history: Ok(history()),
        },
    ));
    assert_eq!(
        errand,
        Errand::Take {
            root: "/store".into(),
            id: "sub-1".into()
        }
    );
    let (delegation, errand) = awaits(delegate.go_on(
        &none(),
        delegation,
        Report::Taken {
            unfinished: Ok(vec!["1: make".into(), "2: test".into()]),
        },
    ));
    let notice = entry::SessionEntry::Notice {
        text: "[e-agent exited with 2 background task(s) still running; they were killed with the process. Re-run them if still needed:]\n1: make\n2: test".into(),
    };
    assert_eq!(
        errand,
        Errand::Append {
            root: "/store".into(),
            id: "sub-1".into(),
            notice: notice.clone()
        }
    );
    let step = delegate.go_on(&none(), delegation, Report::Appended { outcome: Ok(()) });
    let plan = rerooted(&delegate, step);
    let entries = plan.entries.as_ref().unwrap();
    assert_eq!(entries[..3], history());
    assert_eq!(entries[3], notice);
    assert_eq!(plan.resume.as_deref(), Some("sub-1"));
    assert_eq!(plan.meta_label, None);
    assert_eq!(plan.label, "again");
    assert_eq!(plan.parent_session.as_deref(), Some("main-1"));
    assert_eq!(plan.recorded.as_ref().unwrap().root, "/ws");
    assert_eq!(plan.finalize_wait, Some(600));
    let storage = delegate.storage(&plan, "/tmp", "sub-9");
    assert_eq!(storage.root, "/store");
    assert_eq!(storage.session_id, "sub-1");
    assert_eq!(storage.backend, SessionBackend::Jsonl);
}

#[test]
fn failures_on_the_way_refuse_the_delegation() {
    let delegate = delegate().persist_sessions("/store".into());
    let load = || awaits(resume(&delegate)).0;
    assert_eq!(
        refusal(delegate.go_on(
            &none(),
            load(),
            Report::Loaded {
                history: Err("corrupt".into())
            }
        )),
        "cannot resume session `sub-1`: corrupt"
    );
    assert_eq!(
        refusal(delegate.go_on(&none(), load(), Report::Loaded { history: Ok(vec![]) })),
        "no such subagent session: `sub-1`"
    );
    let take = || {
        awaits(delegate.go_on(
            &none(),
            load(),
            Report::Loaded {
                history: Ok(history()),
            },
        ))
        .0
    };
    assert_eq!(
        refusal(delegate.go_on(
            &none(),
            take(),
            Report::Taken {
                unfinished: Err("locked".into())
            }
        )),
        "cannot load unfinished tasks for session `sub-1`: locked"
    );
    let step = delegate.go_on(
        &none(),
        take(),
        Report::Taken {
            unfinished: Ok(vec![]),
        },
    );
    assert_eq!(rerooted(&delegate, step).entries, Some(history()));
    let append = awaits(delegate.go_on(
        &none(),
        take(),
        Report::Taken {
            unfinished: Ok(vec!["1".into()]),
        },
    ))
    .0;
    assert_eq!(
        refusal(delegate.go_on(
            &none(),
            append,
            Report::Appended {
                outcome: Err("full".into())
            }
        )),
        "cannot persist resume notice for session `sub-1`: full"
    );
}

#[test]
fn a_live_session_is_not_resumed() {
    let mut registers = Registers::new();
    let other = Delegate::new("kimi/k3".into(), "/ws".into(), &mut registers);
    let delegate = Delegate::new("kimi/k3".into(), "/ws".into(), &mut registers)
        .persist_sessions("/store".into());
    delegate.sessions().insert(&mut registers, 1, live("sub-1"));
    let arguments = json(r#"{"task":"t","workspace":".","resume":"sub-1"}"#);
    assert_eq!(
        refusal(delegate.execute(&registers, &arguments, true)),
        "cannot resume session `sub-1`: it is still running as a live subagent; wait for it to finish or cancel its task first"
    );
    assert!(delegate.sessions().is_live(&registers, "sub-1"));
    assert!(!other.sessions().is_live(&registers, "sub-1"));
    assert_eq!(delegate.persist_backend, SessionBackend::Jsonl);
    delegate.sessions().remove(&mut registers, 1);
    awaits(delegate.execute(&registers, &arguments, true));
}

#[test]
fn the_tool_is_offered_with_its_roles() {
    let bare = delegate().spec(vec!["ignored".into()]);
    assert_eq!(bare.name, "delegate");
    assert!(bare
        .description
        .contains("The subagent runs on the `kimi/k3` model."));
    assert!(!bare.description.contains("resume:") && !bare.description.contains("available roles"));
    assert!(!json_text(&bare.parameters).contains("enum"));
    let full = delegate()
        .with_roles_root("/roles".into())
        .persist_sessions("/store".into())
        .spec(vec!["fixer".into(), "oracle".into()]);
    assert!(full.description.contains("available roles: fixer, oracle."));
    assert!(full
        .description
        .contains("With `resume: \"<session-id>\"` the subagent continues"));
    let schema: serde_json::Value = serde_json::from_str(&json_text(&full.parameters)).unwrap();
    let keys: Vec<&str> = schema["properties"]
        .as_object()
        .unwrap()
        .keys()
        .map(String::as_str)
        .collect();
    assert_eq!(
        keys,
        ["workspace", "role", "label", "background", "resume", "task"]
    );
    assert_eq!(schema["properties"]["role"]["enum"][1], "oracle");
    assert_eq!(schema["properties"]["background"]["default"], true);
    assert_eq!(schema["required"][0], "workspace");
    assert_eq!(schema["required"][1], "task");
}

fn btw(backend: SessionBackend) -> BtwContext {
    BtwContext {
        model: "m".into(),
        context_window: Some(5),
        workspace: "/ws".into(),
        sandbox: Some(sandbox()),
        read_only: true,
        persist_root: "/store".into(),
        backend,
        record_in: Some(RecordPlace {
            root: "/work".into(),
            session: "main-1".into(),
        }),
    }
}

#[test]
fn side_conversations_start_from_the_completed_turns() {
    let entries = btw_fork_entries("main-1", &history()).unwrap();
    assert_eq!(entries.len(), 4);
    assert_eq!(entries[..2], history()[..2]);
    assert_eq!(
        entries[2],
        entry::SessionEntry::ForkedFrom {
            source: "main-1".into(),
            at: 2,
            event_time: None,
            seq: None
        }
    );
    assert_eq!(
        entries[3],
        entry::SessionEntry::Notice {
            text: FORK_NOTICE.into()
        }
    );
    let plan = plan_btw(
        "main-1",
        " why? ",
        &history(),
        btw(SessionBackend::Jsonl),
        "btw-1",
    )
    .unwrap();
    assert_eq!(plan.task, "why?");
    assert_eq!(plan.label, "btw: why?");
    assert_eq!(plan.entries, entries);
    assert_eq!(plan.write, ForkWrite::Rewrite);
    assert_eq!(plan.persist.session_id, "btw-1");
    assert_eq!(plan.live.context_window, Some(5));
    assert!(plan.read_only && plan.protect_git);
    assert_eq!(plan.parent_session.as_deref(), Some("main-1"));
    assert_eq!(plan.recorded.unwrap().root, "/work");
    let other = plan_btw(
        "main-1",
        "why?",
        &history(),
        btw(SessionBackend::Sqlite { path: None }),
        "btw-2",
    )
    .unwrap();
    assert_eq!(other.write, ForkWrite::Append);
    assert_eq!(
        plan_btw("main-1", " ", &history(), btw(SessionBackend::Jsonl), "b").unwrap_err(),
        "prompt must not be empty"
    );
    assert_eq!(
        plan_btw("main-1", "q", &[], btw(SessionBackend::Jsonl), "b").unwrap_err(),
        "cannot fork session main-1: no completed turn in session"
    );
    assert_eq!(btw_question(" q ").unwrap(), "q");
}

#[test]
fn only_background_tasks_are_recorded() {
    let delegate = delegate().record_background_tasks_in("/ws".into(), "main-1");
    for background in [true, false] {
        let arguments = format!(r#"{{"task":"t","workspace":".","background":{background}}}"#);
        let plan = rerooted(&delegate, delegate.execute(&none(), &json(&arguments), true));
        assert_eq!(plan.background, background);
        assert_eq!(plan.recorded.is_some(), background);
        assert_eq!(plan.parent_session.as_deref(), Some("main-1"));
    }
}
