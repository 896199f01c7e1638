use e_agent::agent::{Agent, CompactionStep};
use e_agent::compaction::{
    finish_compaction, retry_request, Attempt, CompactionMode, CompactionOutput, Verdict,
    RETAIN_TAIL,
};
use e_agent::entry::{SessionEntry, Usage};
use e_agent::gate::{gate_error, summary_flaw, Flaw};
use e_agent::message::{AssistantMessage, ImagePart, Message, ToolCall};

fn call(id: &str, name: &str, arguments: &str) -> ToolCall {
    ToolCall {
        id: id.into(),
        name: name.into(),
        arguments: arguments.into(),
    }
}

fn user(content: &str) -> Message {
    Message::User {
        content: content.into(),
        images: vec![],
    }
}

fn picture(content: &str, hash: &str, mime: &str) -> Message {
    Message::User {
        content: content.into(),
        images: vec![ImagePart {
            hash: hash.into(),
            mime: mime.into(),
        }],
    }
}

fn reply(content: &str) -> AssistantMessage {
    AssistantMessage {
        content: Some(content.into()),
        tool_calls: vec![],
        reasoning: None,
    }
}

fn assistant(content: &str) -> Message {
    Message::Assistant(reply(content))
}

fn tool(call_id: &str, name: &str, content: &str) -> Message {
    Message::Tool {
        call_id: call_id.into(),
        name: name.into(),
        content: content.into(),
        images: vec![],
        is_error: false,
        synthetic: false,
    }
}

fn restored(messages: Vec<Message>) -> Agent {
    let mut agent = Agent::new();
    agent.restore_history(
        messages
            .into_iter()
            .map(|message| SessionEntry::Message { message })
            .collect(),
    );
    agent
}

fn conversation(answer: &str, current: &str) -> Agent {
    restored(vec![user("old question"), assistant(answer), user(current)])
}

/// What a compaction gives with a model that gives these replies, and the
/// requests that the model saw.
fn prepare(
    agent: &Agent,
    replies: Vec<(AssistantMessage, Option<Usage>)>,
    vision: bool,
) -> (Result<CompactionOutput, String>, Vec<Vec<Message>>) {
    let plan = match agent.plan_compaction() {
        Ok(plan) => plan,
        Err(error) => return (Err(error), vec![]),
    };
    let none: Vec<Option<String>> = agent.bound_requests().iter().map(|_| None).collect();
    let mut request = agent.compaction_request(&plan, &none, vision);
    let mut attempt = Attempt::first();
    let mut requests = vec![];
    for (response, usage) in replies {
        requests.push(request.clone());
        let verdict = finish_compaction(
            agent.compaction_mode,
            &plan.retained,
            &request,
            attempt,
            response,
            usage,
        );
        match verdict {
            Verdict::Accepted { output } => return (Ok(output), requests),
            Verdict::Failed { error } => return (Err(error), requests),
            Verdict::Retry { attempt: next } => {
                attempt = next;
                request = retry_request(request);
            }
        }
    }
    panic!("the model was asked once more")
}

/// The same on the session itself, which keeps an accepted summary.
fn compact(
    agent: &mut Agent,
    replies: Vec<&str>,
    vision: bool,
) -> (Result<String, String>, Vec<Vec<Message>>) {
    let plan = match agent.plan_compaction() {
        Ok(plan) => plan,
        Err(error) => return (Err(error), vec![]),
    };
    let none: Vec<Option<String>> = agent.bound_requests().iter().map(|_| None).collect();
    let mut request = agent.compaction_request(&plan, &none, vision);
    let mut attempt = Attempt::first();
    let mut requests = vec![];
    for content in replies {
        requests.push(request.clone());
        let step = agent.accept_compaction(&plan.retained, &request, attempt, reply(content), None);
        match step {
            CompactionStep::Done { summary, .. } => return (Ok(summary), requests),
            CompactionStep::Failed { error } => return (Err(error), requests),
            CompactionStep::Retry { attempt: next } => {
                attempt = next;
                request = retry_request(request);
            }
        }
    }
    panic!("the model was asked once more")
}

fn last_text(request: &[Message]) -> &str {
    match request.last() {
        Some(Message::User { content, .. }) => content,
        _ => panic!("a request ends with its prompt"),
    }
}

/// The refusal of a summary that the model gives twice.
fn refused(agent: &mut Agent, summary: &str) -> String {
    let before = agent.history().len();
    let (outcome, requests) = compact(agent, vec![summary, summary], true);
    assert_eq!(requests.len(), 2);
    assert_eq!(agent.history().len(), before);
    let error = outcome.unwrap_err();
    assert!(error.contains("compaction summary rejected by sanity gate"));
    error
}

/// The model's first summary is accepted as it is.
fn accepted(agent: &Agent, summary: &str) {
    let (outcome, requests) = prepare(agent, vec![(reply(summary), None)], true);
    let output = outcome.unwrap();
    assert_eq!(output.summary, summary);
    assert!(matches!(
        output.entry,
        SessionEntry::Compaction { summary: s, .. } if s == summary
    ));
    assert_eq!(requests.len(), 1);
}

const BUILD: &str = "The user's original goal was to build the project; the assistant ran the make build and its tests through bash before moving on to the latest user turn.";

const IMAGES: &str = "The user shared an image about an older topic; the assistant responded early in the conversation, and the work now continues with a fresh image request.";

#[test]
fn compacts_everything_before_the_current_turn() {
    let tool_call = call("call-1", "echo", r#"{"value":"old"}"#);
    let current_turn = vec![
        user("recent request"),
        Message::Assistant(AssistantMessage {
            content: None,
            tool_calls: vec![
                call("call-2", "bash", r#"{"command":"make"}"#),
                call("call-3", "bash", r#"{"command":"make test"}"#),
            ],
            reasoning: None,
        }),
        tool("call-2", "bash", "building"),
        tool("call-3", "bash", "still building"),
        assistant("recent answer"),
    ];
    let mut transcript = vec![
        user("original goal"),
        Message::Assistant(AssistantMessage {
            content: None,
            tool_calls: vec![tool_call],
            reasoning: None,
        }),
        tool("call-1", "echo", "old result"),
        user("follow up"),
        assistant("noted"),
    ];
    transcript.extend(current_turn.clone());
    let mut agent = restored(transcript);
    let (outcome, requests) = compact(&mut agent, vec![BUILD], true);
    assert_eq!(outcome.unwrap(), BUILD);
    assert_eq!(agent.history().len(), 11);
    assert!(matches!(
        agent.history().last().unwrap(),
        SessionEntry::Compaction { summary, retained, .. }
            if summary == BUILD && *retained == current_turn
    ));
    let context = agent.context();
    assert_eq!(context.len(), current_turn.len() + 1);
    assert_eq!(
        context[0],
        user(&format!("[compacted summary of earlier conversation]\n{BUILD}"))
    );
    assert_eq!(&context[1..], current_turn.as_slice());
    assert_eq!(requests[0].len(), 6);
    assert!(last_text(&requests[0]).contains("Summarize the earlier conversation"));
}

#[test]
fn context_repairs_unanswered_tool_calls_from_interrupted_turns() {
    let agent = restored(vec![
        user("do things"),
        Message::Assistant(AssistantMessage {
            content: None,
            tool_calls: vec![
                call("call-1", "bash", r#"{"command":"make"}"#),
                call("call-2", "bash", r#"{"command":"make test"}"#),
            ],
            reasoning: None,
        }),
        tool("call-1", "bash", "built"),
    ]);
    let context = agent.context();
    assert_eq!(context.len(), 4);
    assert!(matches!(
        &context[3],
        Message::Tool { call_id, is_error: true, content, .. }
            if call_id == "call-2" && content.contains("interrupted")
    ));
}

#[test]
fn refuses_to_compact_a_too_short_transcript() {
    let mut agent = restored(vec![user("short")]);
    let (outcome, requests) = compact(&mut agent, vec![], true);
    assert!(outcome.unwrap_err().contains("nothing to compact"));
    assert!(requests.is_empty());
}

fn pictured() -> Agent {
    restored(vec![
        picture("old with image", "beef", "image/png"),
        assistant("early answer"),
        picture("current with image", "cafe", "image/jpeg"),
    ])
}

fn keeps_the_current_image(agent: &Agent) -> bool {
    let retained = agent
        .history()
        .iter()
        .find_map(|entry| match entry {
            SessionEntry::Compaction { retained, .. } => Some(retained),
            _ => None,
        })
        .expect("compaction entry");
    retained.iter().any(|message| {
        matches!(
            message,
            Message::User { content, images }
                if content == "current with image" && !images.is_empty()
        )
    })
}

#[test]
fn non_vision_compaction_strips_request_but_keeps_retained_images() {
    let mut agent = pictured();
    let (outcome, requests) = compact(&mut agent, vec![IMAGES], false);
    assert_eq!(outcome.unwrap(), IMAGES);
    assert!(requests[0].iter().all(|message| !matches!(
        message,
        Message::User { images, .. } if !images.is_empty()
    )));
    assert!(keeps_the_current_image(&agent));
}

#[test]
fn vision_compaction_keeps_images_in_request_and_retained_tail() {
    let mut agent = pictured();
    let (outcome, requests) = compact(&mut agent, vec![IMAGES], true);
    assert_eq!(outcome.unwrap(), IMAGES);
    assert!(requests[0].iter().any(|message| matches!(
        message,
        Message::User { content, images } if content == "old with image" && !images.is_empty()
    )));
    assert!(keeps_the_current_image(&agent));
}

#[test]
fn compaction_rejects_summary_with_tool_call_markup() {
    let error = refused(
        &mut conversation("old answer", "current question"),
        "<invoke name=\"bash\">\n<parameter name=\"command\">make</parameter>\n</invoke>",
    );
    assert!(error.contains("tool-call/DSML markup"));
}

#[test]
fn compaction_rejects_summary_echoing_retained_first_message() {
    let stub = "The user asked to build the feature and run the full test suite to verify everything passes before committing.";
    let error = refused(&mut conversation("old answer", stub), stub);
    assert!(error.contains("echoes the retained context"));
}

#[test]
fn compaction_rejects_too_short_summary() {
    let error = refused(&mut conversation("old answer", "current question"), "ok");
    assert!(error.contains("too short"));
}

#[test]
fn compaction_accepts_a_normal_summary() {
    let summary = "The user's original goal was to build the project with make; the assistant ran the build and its tests through bash, and no unfinished work remains before the latest user turn.";
    let agent = conversation("old answer", "current question");
    accepted(&agent, summary);
    let (_, requests) = prepare(&agent, vec![(reply(summary), None)], true);
    assert!(last_text(&requests[0]).contains("Output a plain-text summary only"));
    assert!(last_text(&requests[0])
        .contains("no tool calls, no XML/DSML/function-call markup, no code blocks"));
}

#[test]
fn compaction_rejects_summary_echoing_request_tail_assistant() {
    let stub = "The user asked for a detailed plan to refactor the legacy module, and the assistant outlined the steps and ran the initial checks before reporting back.";
    let error = refused(&mut conversation(stub, "current question"), stub);
    assert!(error.contains("echoes"));
}

#[test]
fn compaction_accepts_summary_quoting_retained_user_message_in_longer_summary() {
    let request = "Please fix the sidebar collapse state";
    let summary = format!(
        "The user's current request — \"{request}\" — is the sidebar collapse bug. \
         Root cause: the collapse handler toggles the same flag that the resize observer \
         reads, so a programmatic collapse races the observer's re-open. Decision: split \
         the state into `collapsed` (user intent) and `width` (observed), and gate the \
         observer on the collapsed flag. Files touched: src/components/sidebar.rs, \
         src/components/sidebar.css, src/state.rs, tests/sidebar_test.rs. The fix adds a \
         guard so the observer never re-opens a user-collapsed sidebar, plus a regression \
         test that resizes after a collapse and asserts the panel stays closed. \
         Unfinished: run the full test suite and update the changelog before committing."
    );
    assert!(summary.chars().count() > 400);
    accepted(&conversation("old answer", request), &summary);
}

#[test]
fn compaction_rejects_summary_that_is_mostly_echo_of_retained() {
    let retained = "The user reported that the sidebar collapses whenever the window resizes, and they want the collapse state to persist across resize events so the panel stays closed until they explicitly reopen it. The report also notes that the mobile layout never reproduces the issue, which points at the desktop resize observer as the culprit, and they asked to keep the fix minimal.";
    assert!(retained.chars().count() > 200);
    let probe: String = retained.chars().take(200).collect();
    let summary = format!("Summary: {probe} Minor cleanup.");
    assert!(summary.chars().count() < probe.chars().count() * 2);
    let error = refused(&mut conversation("old answer", retained), &summary);
    assert!(error.contains("echoes the retained context"));
}

#[test]
fn compaction_accepts_summary_quoting_request_tail_in_longer_summary() {
    let tail = "The assistant outlined a three-step plan for the legacy module refactor: first extract the shared validation into its own crate, then replace the duplicated checks in the callers, and finally run the full test suite before committing.";
    let probe: String = tail.chars().take(200).collect();
    assert_eq!(probe.chars().count(), 200);
    let summary = format!(
        "Work so far: the legacy module refactor started with an extraction plan — \"{probe}\" \
         — and the extraction itself landed. Decision: keep the new crate dependency-free so \
         the CLI stays lean. Files touched: src/legacy/validation.rs, src/legacy/main.rs, \
         Cargo.toml, tests/validation_test.rs. The duplicated checks in the callers were \
         replaced and the new crate compiles cleanly. Unfinished: run the full test suite, \
         update the changelog, and verify the CLI output is unchanged before committing."
    );
    assert!(summary.chars().count() > 400);
    accepted(&conversation(tail, "current question"), &summary);
}

#[test]
fn compaction_rejects_metadiscourse_stub_chinese() {
    let stub = "这是一个 compaction 请求(系统提示触发的摘要生成)。但注意:我是一个编排 agent,我的职责是管理这个会话的进程,不是真正去压缩。按照 e-agent 的语义,prepare_compaction 会调用我生成摘要,然后持久化为 Compaction 条目。我需要生成一份完整的会话摘要,保留用户目标、决策、文件改动、未完成工作。会话很长,覆盖了 8 月 7 日到 8 月 11 日的多轮工作。让我按时间线整理。";
    let error = refused(&mut conversation("old answer", "current question"), stub);
    assert!(error.contains("metadiscourse stub"));
}

#[test]
fn compaction_rejects_metadiscourse_stub_english() {
    let stub = "This is a compaction request triggered by the system prompt. I need to generate a complete session summary. Let me organize the timeline first.";
    let error = refused(&mut conversation("old answer", "current question"), stub);
    assert!(error.contains("metadiscourse stub"));
}

#[test]
fn compaction_rejects_planning_only_summary_without_content_signals() {
    let stub = "Let me organize this. I will structure a summary of the long conversation. The work covered several days of activity. I need to produce the complete summary now.";
    let error = refused(&mut conversation("old answer", "current question"), stub);
    assert!(error.contains("lacks content signals"));
}

#[test]
fn compaction_accepts_summary_with_file_path_and_content_words() {
    let summary = "Fixed the compaction gate in src/agent.rs, decided to retry once, files: agent.rs";
    accepted(&conversation("old answer", "current question"), summary);
}

#[test]
fn compaction_accepts_normal_chinese_summary() {
    let summary = "用户的目标是修复会话压缩的问题。我们做了决策:先检测元话语 stub,再检查内容信号,失败后重试一次。改动了配置和测试文件,修复了错误,验证通过,没有未完成的工作,下一步是提交。";
    accepted(&conversation("old answer", "current question"), summary);
}

#[test]
fn compaction_retries_once_when_gate_rejects_first_attempt() {
    let rejected = "这是一个 compaction 请求,我需要生成一份完整的会话摘要,让我按时间线整理,系统提示触发的摘要生成。会话很长,覆盖了多轮工作,保留用户目标、决策、文件改动、未完成工作。";
    let accepted =
        "Fixed the compaction gate in src/agent.rs, decided to retry once, files: agent.rs";
    let agent = conversation("old answer", "current question");
    let (outcome, requests) =
        prepare(&agent, vec![(reply(rejected), None), (reply(accepted), None)], true);
    assert_eq!(outcome.unwrap().summary, accepted);
    assert_eq!(requests.len(), 2);
    let first = last_text(&requests[0]);
    assert!(first.contains("Start directly with the summary content"));
    assert!(!first.contains("Your previous attempt was rejected"));
    assert!(last_text(&requests[1]).contains("Your previous attempt was rejected"));
}

#[test]
fn compaction_accepts_conceptual_english_summary_without_artifacts() {
    let summary = "The user asked how Rust ownership and borrowing interact. The assistant explained moves, shared references, mutable references, and lifetime constraints with examples.";
    accepted(&conversation("old answer", "current question"), summary);
}

#[test]
fn compaction_accepts_conceptual_chinese_summary_without_artifacts() {
    let summary = "用户询问所有权与借用的关系。助手解释了移动、共享引用、可变引用和生命周期约束,并给出了示例,讨论已经结束。这些内容涵盖了 Rust 的核心内存安全模型。整体属于概念性的知识讲解。";
    accepted(&conversation("old answer", "current question"), summary);
}

#[test]
fn compaction_accepts_single_metadiscourse_phrase_with_content_signals() {
    let part = "gate";
    let summary = format!("This is a compaction request. We fixed the {part} in src/agent.rs and the tests pass afterwards.");
    accepted(&conversation("old answer", "current question"), &summary);
}

#[test]
fn compaction_rejects_single_metadiscourse_phrase_without_content_signals() {
    let stub = "This is a compaction request. I am preparing the summary of the earlier conversation for the session record.";
    let error = refused(&mut conversation("old answer", "current question"), stub);
    assert!(error.contains("metadiscourse stub"));
    assert!(error.contains("lacks content signals"));
}

#[test]
fn compaction_accepts_chinese_overlap_phrase_with_content() {
    let summary = "我需要生成一份完整的会话摘要。修复了 src/agent.rs 中的压缩门禁,验证通过,测试全部成功,没有未完成的工作。改动已提交,构建通过,下一步是推送并合并到主分支。";
    accepted(&conversation("old answer", "current question"), summary);
}

#[test]
fn compaction_rejects_chinese_overlap_phrase_without_content() {
    let stub = "我需要生成一份完整的会话摘要。这是为了记录之前的会话内容,方便以后回顾整个对话的经过。整个对话包含了多个主题,时间跨度比较长。需要把关键信息都保留下来。现在开始整理。";
    let error = refused(&mut conversation("old answer", "current question"), stub);
    assert!(error.contains("metadiscourse stub"));
    assert!(error.contains("lacks content signals"));
}

#[test]
fn compaction_accepts_hash_signal_summary() {
    let summary = "This is a compaction request. The commit hash is deadbeef and the build passed afterwards.";
    accepted(&conversation("old answer", "current question"), summary);
}

#[test]
fn compaction_rejects_feedback_not_a_hash_signal() {
    let stub = "This is a compaction request. The feedback was noted and the discussion continued for a while.";
    let error = refused(&mut conversation("old answer", "current question"), stub);
    assert!(error.contains("lacks content signals"));
}

#[test]
fn compaction_rejects_pure_numeric_date_not_a_hash() {
    let stub = "This is a compaction request. The date was 20240812 and the session continued for some time.";
    let error = refused(&mut conversation("old answer", "current question"), stub);
    assert!(error.contains("lacks content signals"));
}

#[test]
fn compaction_accumulates_usage_across_the_retry() {
    let rejected = "This is a compaction request triggered by the system prompt. I need to generate a complete session summary. Let me organize the timeline first.";
    let accepted = "The user asked to fix the compaction gate in src/agent.rs; the assistant implemented the change, ran the test suite, and verified the build passes.";
    let agent = conversation("old answer", "current question");
    let (outcome, requests) = prepare(
        &agent,
        vec![
            (reply(rejected), Some(Usage::of(1_000, 200))),
            (reply(accepted), Some(Usage::of(500, 60))),
        ],
        true,
    );
    let output = outcome.unwrap();
    assert_eq!(output.summary, accepted);
    assert_eq!(output.usage, Some(Usage::of(1_500, 260)));
    assert_eq!(requests.len(), 2);
}

#[test]
fn a_rejected_summary_is_charged_with_the_accepted_one() {
    let mut agent = conversation("old answer", "current question");
    let plan = agent.plan_compaction().unwrap();
    let request = agent.compaction_request(&plan, &vec![None; 3], true);
    assert_eq!(request.len(), 3);
    let step = agent.accept_compaction(
        &plan.retained,
        &request,
        Attempt::first(),
        reply("ok"),
        Some(Usage::of(10, 2)),
    );
    let CompactionStep::Retry { attempt } = step else {
        panic!("a short summary is asked for again");
    };
    assert!(attempt.retried);
    assert_eq!(attempt.spent, Some(Usage::of(10, 2)));
    assert_eq!(agent.session_input_tokens, 0);
    assert_eq!(agent.history().len(), 3);
    let request = retry_request(request);
    let step = agent.accept_compaction(
        &plan.retained,
        &request,
        attempt,
        reply(BUILD),
        Some(Usage::of(5, 1)),
    );
    assert!(matches!(step, CompactionStep::Done { summary, event: Some(_) } if summary == BUILD));
    assert_eq!(agent.session_input_tokens, 15);
    assert_eq!(agent.session_output_tokens, 3);
    assert_eq!(agent.history().len(), 4);
    assert_eq!(agent.context()[1..], [user("current question")]);
}

#[test]
fn flaws_are_named() {
    let request = [user("old question"), assistant("old answer"), user("summarise")].to_vec();
    let retained = vec![user("current question")];
    assert_eq!(summary_flaw("ok", &retained, &request), Some(Flaw::Short { chars: 2 }));
    assert_eq!(summary_flaw(BUILD, &retained, &request), None);
    let tail = vec![user("q"), assistant(BUILD), user("summarise")];
    assert_eq!(summary_flaw(BUILD, &retained, &tail), Some(Flaw::EchoesRequest));
    assert_eq!(
        summary_flaw(BUILD, &vec![user(BUILD)], &request),
        Some(Flaw::EchoesRetained)
    );
    assert_eq!(
        gate_error(Flaw::Short { chars: 2 }),
        "compaction summary rejected by sanity gate: too short (2 characters)"
    );
    assert_eq!(
        gate_error(Flaw::Stub),
        "compaction summary rejected by sanity gate: metadiscourse stub"
    );
}

/// Every call has its result and every result its call.
fn assert_complete_tool_pairs(messages: &[Message]) {
    let mut outstanding: Vec<String> = Vec::new();
    for message in messages {
        match message {
            Message::Assistant(assistant) => {
                outstanding.extend(assistant.tool_calls.iter().map(|call| call.id.clone()));
            }
            Message::Tool { call_id, .. } => {
                let position = outstanding
                    .iter()
                    .position(|id| id == call_id)
                    .expect("a result follows its call");
                outstanding.remove(position);
            }
            _ => {}
        }
    }
    assert!(outstanding.is_empty());
}

/// A session on one task, with so many tool calls.
fn single_task(task: &str, pairs: usize, arguments: &str) -> Agent {
    let mut messages = vec![user(task)];
    for i in 0..pairs {
        messages.push(Message::Assistant(AssistantMessage {
            content: None,
            tool_calls: vec![call(&format!("call-{i}"), "bash", arguments)],
            reasoning: None,
        }));
        messages.push(tool(&format!("call-{i}"), "bash", &format!("result {i}")));
    }
    let mut agent = Agent::new().with_compaction_mode(CompactionMode::SingleTask);
    agent.restore_history(
        messages
            .into_iter()
            .map(|message| SessionEntry::Message { message })
            .collect(),
    );
    agent
}

#[test]
fn single_user_session_compacts_tool_history() {
    let summary = "The initial task was to implement the subagent compaction fix and verify it with the four required commands. The session then executed many tool calls through bash, building the project, running the linter and the test suite, and iterating on failures until the final checks passed.";
    let agent = single_task("initial subagent task", 30, r#"{"cmd":"x"}"#);
    let (outcome, requests) = prepare(&agent, vec![(reply(summary), None)], true);
    let output = outcome.unwrap();
    assert_eq!(output.summary, summary);
    let SessionEntry::Compaction { summary: s, retained, .. } = output.entry else {
        panic!("expected compaction entry");
    };
    assert_eq!(s, summary);
    assert!(matches!(retained.first(), Some(Message::Assistant(_))));
    assert!(retained.len() <= RETAIN_TAIL);
    assert_complete_tool_pairs(&retained);
    assert_eq!(requests.len(), 1);
    assert_eq!(requests[0].first(), Some(&user("initial subagent task")));
    assert!(last_text(&requests[0]).contains("Summarize the earlier conversation"));
}

#[test]
fn single_user_retained_tail_adjusts_onto_an_assistant_boundary() {
    let summary = "The initial task asked for the compaction change; the assistant ran the full verification loop through bash, building and testing repeatedly, and the final assistant turn reported the results without further tool calls.";
    let mut agent = single_task("task", 21, r#"{}"#);
    agent.push_message(assistant("done"));
    let (outcome, _) = prepare(&agent, vec![(reply(summary), None)], true);
    let SessionEntry::Compaction { retained, .. } = outcome.unwrap().entry else {
        panic!("expected compaction entry");
    };
    assert!(matches!(
        retained.first(),
        Some(Message::Assistant(assistant))
            if assistant.tool_calls == vec![call("call-12", "bash", r#"{}"#)]
    ));
    assert_complete_tool_pairs(&retained);
}

#[test]
fn single_user_session_too_short_still_refuses() {
    let mut agent = single_task("short task", 3, r#"{}"#);
    let (outcome, requests) = compact(&mut agent, vec![], true);
    assert!(outcome.unwrap_err().contains("nothing to compact"));
    assert!(requests.is_empty());
    let mut agent = agent.with_compaction_mode(CompactionMode::Main);
    let (outcome, _) = compact(&mut agent, vec![], true);
    assert!(outcome.unwrap_err().contains("nothing to compact"));
}
