use e_agent::agent::{
    delta_event, is_background_call, is_detached_background_call, resolve_call, started_task_id,
    Agent, AgentEvent, CompactionStep,
};
use e_agent::compaction::{
    finish_compaction, Attempt, CompactionMode, Verdict, COMPACTION_SUMMARY_PROMPT,
};
use e_agent::context::{project_item, EntryLocation, FieldId};
use e_agent::entry::{add_usage, SessionEntry, Usage};
use e_agent::goal::create_goal;
use e_agent::message::{
    ensure_vision_supported, is_poll_guard_terminate, tool_error_content, AssistantMessage,
    ImagePart, Message, ModelDeltaKind, ToolCall, ToolOutput, POLL_GUARD_ERROR,
    POLL_GUARD_SENTINEL,
};

fn call(id: &str, name: &str, arguments: &str) -> ToolCall {
    ToolCall {
        id: id.into(),
        name: name.into(),
        arguments: arguments.into(),
    }
}

fn user(content: &str) -> Message {
    Message::User {
        content: content.into(),
        images: vec![],
    }
}

fn picture(content: &str) -> Message {
    Message::User {
        content: content.into(),
        images: vec![ImagePart {
            hash: "h".into(),
            mime: "image/png".into(),
        }],
    }
}

fn assistant(content: &str) -> Message {
    Message::Assistant(AssistantMessage {
        content: Some(content.into()),
        tool_calls: vec![],
        reasoning: None,
    })
}

fn calling(id: &str) -> Message {
    Message::Assistant(AssistantMessage {
        content: None,
        tool_calls: vec![call(id, "bash", "{}")],
        reasoning: None,
    })
}

fn result(id: &str, content: &str) -> Message {
    Message::Tool {
        call_id: id.into(),
        name: "bash".into(),
        content: content.into(),
        images: vec![],
        is_error: false,
        synthetic: false,
    }
}

fn completed(id: u64, label: Option<&str>) -> AgentEvent {
    AgentEvent::BackgroundCompleted {
        id,
        output: format!("output {id}"),
        label: label.map(|text| text.to_string()),
        started_at_ms: Some(1),
        duration_ms: None,
        exit_code: Some(0),
        signal: None,
        status: None,
        kind: None,
    }
}

fn key(text: &str) -> EntryLocation {
    EntryLocation { key: text.into() }
}

#[test]
fn entries_are_appended_with_their_keys() {
    let mut agent = Agent::new();
    agent.push_message(user("a"));
    agent.apply_entry_located(assistant("b").into(), Some(key("k")));
    agent.push_entry(SessionEntry::Notice { text: "n".into() });
    assert_eq!(agent.history().len(), 3);
    assert_eq!(agent.entry_locations.len(), 3);
    assert_eq!(agent.entry_locations[1], Some(key("k")));
    agent.restore_located(vec![user("x").into()], vec![Some(key("z"))]);
    assert_eq!(agent.history().len(), 1);
    assert_eq!(agent.entry_locations, vec![Some(key("z"))]);
    // A list of keys of another length is fitted.
    agent.restore_locations(vec![]);
    assert_eq!(agent.entry_locations, vec![None]);
}

#[test]
fn the_prefix_and_the_goal_stand_in_front_of_the_context() {
    let mut agent = Agent::new();
    agent.set_context_prefix("be kind".into());
    agent.push_message(user("hi"));
    let context = agent.context();
    assert_eq!(
        context[0],
        Message::System {
            content: "be kind".into()
        }
    );
    assert_eq!(context.last(), Some(&user("hi")));
    assert_eq!(agent.history().len(), 1);
}

#[test]
fn completions_wait_for_their_place_in_the_history() {
    let mut agent = Agent::new();
    let started = agent.after_tool_entry(
        &call("c", "bash", r#"{"command":"make","background":true}"#),
        &Ok(ToolOutput::text("started background task 7: make")),
    );
    let started = started.unwrap();
    assert_eq!(started.id, 7);
    assert_eq!(started.command, "make");
    assert!(agent.has_blocking_background());
    assert!(agent.background_task_ids().contains(&7));
    assert_eq!(
        agent.queue_background(completed(7, Some("make"))),
        Some(completed(7, Some("make")))
    );
    assert_eq!(agent.queue_background(AgentEvent::PromptConsumed), None);
    assert!(agent.needs_follow_up());
    assert!(matches!(
        agent.peek_background_entry(),
        Some(SessionEntry::BackgroundCompletion { id: 7, .. })
    ));
    assert!(agent.has_blocking_background());
    agent.inject_pending_background();
    assert!(!agent.needs_follow_up());
    assert!(!agent.has_blocking_background());
    assert_eq!(agent.history().len(), 1);
    assert_eq!(
        agent.context(),
        vec![user("[background task 7 completed: make]\noutput 7")]
    );
}

#[test]
fn acknowledged_completions_leave_the_queue() {
    let mut agent = Agent::new();
    agent.queue_background(completed(1, None));
    agent.queue_background(completed(2, None));
    agent.ack_background_entry();
    assert!(matches!(
        agent.peek_background_entry(),
        Some(SessionEntry::BackgroundCompletion { id: 2, .. })
    ));
    agent.ack_background_entry();
    assert_eq!(agent.peek_background_entry(), None);
}

#[test]
fn only_blocking_background_calls_are_tracked() {
    let background = call("c", "bash", r#"{"command":"x","background":true}"#);
    let detached = call(
        "c",
        "bash",
        r#"{"command":"x","background":true,"detached":true}"#,
    );
    assert!(is_background_call(&background));
    assert!(!is_background_call(&call("c", "bash", "not json")));
    assert!(is_detached_background_call(&detached));
    assert_eq!(
        started_task_id("started background task 12: make"),
        Some(12)
    );
    assert_eq!(started_task_id("started background task x"), None);
    let ok = Ok(ToolOutput::text("started background task 3: x"));
    let mut agent = Agent::new();
    assert_eq!(agent.after_tool_entry(&detached, &ok), None);
    assert_eq!(
        agent.after_tool_entry(&call("c", "grep", r#"{"background":true}"#), &ok),
        None
    );
    assert_eq!(
        agent.after_tool_entry(&background, &Err("failed".into())),
        None
    );
    assert!(!agent.has_blocking_background());
    agent.after_tool_entry(&background, &ok);
    assert_eq!(
        agent.background_record_failed(3, "disk full"),
        "cannot record background task owner: disk full"
    );
    assert!(!agent.has_blocking_background());
}

#[test]
fn calls_find_their_tool() {
    let tools = vec!["echo".to_string(), "bash".to_string()];
    let (index, _) = resolve_call(&call("c", "bash", "{}"), &tools).unwrap();
    assert_eq!(index, 1);
    assert_eq!(
        resolve_call(&call("c", "nope", "{}"), &tools).unwrap_err(),
        "unknown tool: nope"
    );
    assert!(resolve_call(&call("c", "bash", "{"), &tools)
        .unwrap_err()
        .starts_with("invalid JSON arguments: "));
}

#[test]
fn a_full_window_asks_for_one_compaction() {
    let mut agent = Agent::new();
    agent.set_context_window(100);
    assert!(agent.record_usage(Some(Usage::of(79, 5)), true).is_some());
    assert!(!agent.take_auto_compact_request());
    agent.record_usage(Some(Usage::of(80, 5)), true);
    assert!(agent.take_auto_compact_request());
    assert!(!agent.take_auto_compact_request());
    agent.record_usage(Some(Usage::of(90, 5)), true);
    assert!(!agent.take_auto_compact_request());
    agent.clear_auto_compacted();
    agent.record_usage(Some(Usage::of(90, 5)), true);
    assert!(agent.take_auto_compact_request());
    assert_eq!(agent.session_input_tokens, 79 + 80 + 90 + 90);
    assert_eq!(agent.session_output_tokens, 20);
    assert_eq!(agent.record_usage(None, true), None);
    match agent.record_usage(Some(Usage::of(1, 1)), false) {
        Some(AgentEvent::Usage { context_input, .. }) => assert_eq!(context_input, 90),
        other => panic!("expected usage, got {other:?}"),
    }
}

#[test]
fn requests_bound_old_fields_and_keep_the_prompt() {
    let mut agent = Agent::new();
    agent.restore_located(
        vec![
            user("old question").into(),
            assistant("old answer").into(),
            user("new question").into(),
        ],
        vec![Some(key("1")), Some(key("2")), Some(key("3"))],
    );
    let requests = agent.bound_requests();
    assert_eq!(requests[0].as_ref().unwrap().field, FieldId::UserContent);
    assert_eq!(requests[0].as_ref().unwrap().text, "old question");
    assert_eq!(requests[0].as_ref().unwrap().total, 12);
    assert_eq!(
        requests[1].as_ref().unwrap().field,
        FieldId::AssistantContent
    );
    assert_eq!(requests[2], None);
    let copies = agent.context_request(&vec![Some("cut".into()), None, None], true);
    assert_eq!(copies[0], user("cut"));
    assert_eq!(copies[1], assistant("old answer"));
    assert_eq!(copies[2], user("new question"));
    // Nothing bounded: the copies are the context.
    let full = agent.context_request(&vec![None, None, None], true);
    assert_eq!(full, agent.context());
    let items = agent.repaired_items();
    assert_eq!(project_item(&items[0], &Some("x".into())), user("x"));
}

#[test]
fn models_without_vision_get_no_images() {
    let mut agent = Agent::new();
    agent.push_message(picture("look"));
    let request = agent.context_request(&vec![None], false);
    assert_eq!(
        request,
        vec![user("look（当前模型不支持图片，已跳过附加）")]
    );
    assert!(ensure_vision_supported("m", false, &request).is_ok());
    assert_eq!(
        ensure_vision_supported("m", false, &agent.context()).unwrap_err(),
        "model m does not support image input"
    );
    assert!(ensure_vision_supported("m", true, &agent.context()).is_ok());
    assert_eq!(agent.history().len(), 1);
}

const SUMMARY: &str = "The user asked fifteen short questions and got an answer to each; the build in src/main.rs is fixed and the tests pass.";

#[test]
fn a_compaction_keeps_the_prompt_and_a_recent_tail() {
    let mut agent = Agent::new();
    assert_eq!(
        agent.plan_compaction().unwrap_err(),
        "nothing to compact"
    );
    for i in 0..15 {
        agent.push_message(user(&format!("q{i}")));
        agent.push_message(assistant(&format!("a{i}")));
    }
    agent.push_message(user("current"));
    for i in 0..30 {
        let id = format!("c{i}");
        agent.push_message(calling(&id));
        agent.push_message(result(&id, "ok"));
    }
    let items = agent.repaired_items();
    let plan = agent.plan_compaction().unwrap();
    assert_eq!(plan.retained[0], user("current"));
    assert!(plan.split > 30);
    assert_eq!(plan.retained.len(), 1 + items.len() - plan.split);
    let none = vec![None; items.len()];
    let request = agent.compaction_request(&plan, &none, true);
    assert_eq!(plan.summarised, plan.split);
    assert_eq!(request.len(), plan.summarised + 1);
    assert_eq!(request.last(), Some(&user(COMPACTION_SUMMARY_PROMPT)));
    let before = agent.history().len();
    let step = agent.accept_compaction(
        &plan.retained,
        &request,
        Attempt::first(),
        AssistantMessage {
            content: Some(SUMMARY.into()),
            tool_calls: vec![],
            reasoning: None,
        },
        Some(Usage::of(10, 2)),
    );
    assert!(matches!(step, CompactionStep::Done { summary, event: Some(_) } if summary == SUMMARY));
    assert_eq!(agent.history().len(), before + 1);
    let context = agent.context();
    assert_eq!(
        context[0],
        user(&format!("[compacted summary of earlier conversation]\n{SUMMARY}"))
    );
    assert_eq!(context[1], user("current"));
    assert!(context.len() < items.len());
}

#[test]
fn compaction_answers_need_a_summary() {
    let answer = |content: Option<&str>, calls: Vec<ToolCall>| AssistantMessage {
        content: content.map(|text| text.to_string()),
        tool_calls: calls,
        reasoning: None,
    };
    let finish = |response: AssistantMessage| {
        finish_compaction(
            CompactionMode::SingleTask,
            &vec![user("t")],
            &vec![user("q"), user(COMPACTION_SUMMARY_PROMPT)],
            Attempt::first(),
            response,
            None,
        )
    };
    assert_eq!(
        finish(answer(Some("s"), vec![call("c", "bash", "{}")])),
        Verdict::Failed {
            error: "compaction response contains tool calls".into()
        }
    );
    for content in [None, Some(" \n")] {
        assert_eq!(
            finish(answer(content, vec![])),
            Verdict::Failed {
                error: "compaction produced empty summary".into()
            }
        );
    }
    let spaced = format!(" {SUMMARY} ");
    let Verdict::Accepted { output } = finish(answer(Some(&spaced), vec![])) else {
        panic!("the summary is in order");
    };
    assert_eq!(output.summary, spaced);
    assert_eq!(
        output.entry,
        SessionEntry::Compaction {
            summary: spaced.clone(),
            retained: vec![user("t")],
            current_prompt_at: None,
            no_current_prompt: true,
        }
    );
}

#[test]
fn single_tasks_keep_recent_activity_only() {
    let mut agent = Agent::new().with_compaction_mode(CompactionMode::SingleTask);
    agent.push_message(user("the task"));
    for i in 0..40 {
        let id = format!("c{i}");
        agent.push_message(calling(&id));
        agent.push_message(result(&id, "ok"));
    }
    let plan = agent.plan_compaction().unwrap();
    assert_eq!(plan.current_prompt, None);
    assert!(!plan.retained.contains(&user("the task")));
    assert!(plan.retained.len() <= 21);
    assert!(matches!(plan.retained[0], Message::Assistant(_)));
}

#[test]
fn the_usage_of_two_calls_is_their_sum() {
    let mut first = Usage::of(1, 2);
    first.cache_hit_tokens = Some(3);
    first.finish_reason = Some("length".into());
    let mut second = Usage::of(10, 20);
    second.cache_hit_tokens = Some(30);
    second.reasoning_tokens = Some(4);
    let total = add_usage(Some(first), Some(second)).unwrap();
    assert_eq!((total.input_tokens, total.output_tokens), (11, 22));
    assert_eq!(total.cache_hit_tokens, Some(33));
    assert_eq!(total.cache_miss_tokens, None);
    assert_eq!(total.reasoning_tokens, Some(4));
    assert_eq!(total.finish_reason.as_deref(), Some("length"));
    assert_eq!(add_usage(None, Some(Usage::of(1, 2))), Some(Usage::of(1, 2)));
    assert_eq!(add_usage(Some(Usage::of(1, 2)), None), Some(Usage::of(1, 2)));
    assert_eq!(add_usage(None, None), None);
}

#[test]
fn poll_guard_errors_stay_readable() {
    assert!(is_poll_guard_terminate(&Err(POLL_GUARD_SENTINEL.into())));
    assert!(!is_poll_guard_terminate(&Ok(ToolOutput::text("other"))));
    assert_eq!(tool_error_content(POLL_GUARD_SENTINEL), POLL_GUARD_ERROR);
    assert_eq!(tool_error_content("other"), "other");
    assert_eq!(
        delta_event(ModelDeltaKind::Content, "x"),
        AgentEvent::AssistantDelta("x".into())
    );
    assert_eq!(
        delta_event(ModelDeltaKind::Reasoning, "x"),
        AgentEvent::ReasoningDelta("x".into())
    );
}

#[test]
fn a_turn_opens_with_its_prompt() {
    let mut agent = Agent::new();
    agent.auto_compacted = true;
    agent.open_turn(String::new());
    assert!(agent.history().is_empty());
    assert!(!agent.auto_compacted);
    agent.open_turn("hi".into());
    assert_eq!(agent.context(), vec![user("hi")]);
}

#[test]
fn a_pushed_goal_takes_effect() {
    let goal = create_goal(None, "goal-1".into(), "ship it".into(), vec!["ok".into()]).unwrap();
    let mut agent = Agent::new();
    agent.push_entry(SessionEntry::GoalUpdated {
        goal: Some(goal.clone()),
    });
    assert_eq!(agent.goal(), Some(goal));
    assert!(!agent.goal_cleared());
    agent.push_entry(SessionEntry::GoalUpdated { goal: None });
    assert_eq!(agent.goal(), None);
    assert!(agent.goal_cleared());
    assert_eq!(agent.history().len(), 2);
}

#[test]
fn what_is_kept_full_is_sent_in_full() {
    let mut agent = Agent::new();
    for (at, message) in [user("old"), assistant("answer"), user("current")]
        .into_iter()
        .enumerate()
    {
        agent.apply_entry_located(
            SessionEntry::Message { message },
            Some(key(&format!("k{at}"))),
        );
    }
    let cut: Vec<Option<String>> = vec![Some("cut".into()); 3];
    assert_eq!(agent.bound_requests()[2], None);
    assert_eq!(
        agent.context_request(&cut, true),
        vec![user("cut"), assistant("cut"), user("current")]
    );
    let mut unstored = Agent::new();
    unstored.push_message(assistant("answer"));
    assert_eq!(
        unstored.context_request(&vec![Some("cut".into())], true),
        vec![assistant("answer")]
    );
}

fn page(id: &str) -> Message {
    Message::Tool {
        call_id: id.into(),
        name: "read_output".into(),
        content: "page".into(),
        images: vec![],
        is_error: false,
        synthetic: false,
    }
}

#[test]
fn the_newest_page_is_sent_in_full() {
    let mut agent = Agent::new();
    for (at, message) in [calling("a"), page("a"), calling("b"), page("b"), assistant("x")]
        .into_iter()
        .enumerate()
    {
        agent.apply_entry_located(
            SessionEntry::Message { message },
            Some(key(&format!("k{at}"))),
        );
    }
    let requests = agent.bound_requests();
    assert_eq!(requests[1].as_ref().unwrap().text, "page");
    assert_eq!(requests[3], None);
    assert_eq!(requests[4].as_ref().unwrap().location, key("k4"));
}

#[test]
fn after_a_single_task_nothing_retained_is_the_prompt() {
    for (mode, kept) in [(CompactionMode::SingleTask, false), (CompactionMode::Main, true)] {
        let verdict = finish_compaction(
            mode,
            &vec![user("looks like a prompt")],
            &vec![user("q"), user(COMPACTION_SUMMARY_PROMPT)],
            Attempt::first(),
            AssistantMessage {
                content: Some(SUMMARY.into()),
                tool_calls: vec![],
                reasoning: None,
            },
            None,
        );
        let Verdict::Accepted { output } = verdict else {
            panic!("the summary is in order");
        };
        let mut agent = Agent::new();
        agent.apply_entry_located(output.entry, Some(key("k")));
        let requests = agent.bound_requests();
        assert_eq!(requests[1].is_none(), kept);
    }
}
