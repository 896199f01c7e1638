use e_agent::agent::{Agent, AgentEvent};
use e_agent::entry::Usage;
use e_agent::message::{
    AssistantMessage, Message, ToolCall, ToolOutput, POLL_GUARD_ERROR, POLL_GUARD_SENTINEL,
    POLL_GUARD_TERMINATION_NOTICE,
};
use e_agent::turn::{
    start, step, Phase, Turn, TurnAction, TurnEvent, AUTO_COMPACTED, AUTO_COMPACTING,
};

fn call(id: &str, name: &str) -> ToolCall {
    ToolCall {
        id: id.into(),
        name: name.into(),
        arguments: "{}".into(),
    }
}

fn answer(content: Option<&str>, calls: Vec<ToolCall>) -> TurnEvent {
    TurnEvent::Answered {
        assistant: AssistantMessage {
            content: content.map(|text| text.to_string()),
            tool_calls: calls,
            reasoning: None,
        },
        usage: None,
        produced_delta: false,
    }
}

fn done(text: &str) -> TurnEvent {
    TurnEvent::ToolDone {
        result: Ok(ToolOutput::text(text)),
    }
}

fn asked(agent: &mut Agent) -> Turn {
    agent.open_turn("do it".into());
    let (turn, first) = start(agent);
    assert_eq!(first.action, TurnAction::Inject);
    let (turn, next) = step(agent, turn, TurnEvent::Injected);
    assert_eq!(next.action, TurnAction::AskModel);
    turn
}

#[test]
fn answers_without_calls_end_the_turn() {
    let mut agent = Agent::new();
    let turn = asked(&mut agent);
    let (turn, last) = step(&mut agent, turn, answer(Some("done"), vec![]));
    assert_eq!(
        last.action,
        TurnAction::Finish {
            answer: "done".into()
        }
    );
    assert_eq!(turn.phase, Phase::Finished);
    assert_eq!(agent.history().len(), 2);
}

#[test]
fn calls_run_in_order_and_their_results_go_back() {
    let mut agent = Agent::new();
    let turn = asked(&mut agent);
    let (turn, next) = step(
        &mut agent,
        turn,
        answer(Some("working"), vec![call("1", "a"), call("2", "b")]),
    );
    assert_eq!(
        next.action,
        TurnAction::RunTool {
            call: call("1", "a")
        }
    );
    assert_eq!(
        next.events[0],
        AgentEvent::AssistantText("working".into())
    );
    let (turn, next) = step(&mut agent, turn, done("one"));
    assert_eq!(
        next.action,
        TurnAction::RunTool {
            call: call("2", "b")
        }
    );
    let (turn, next) = step(
        &mut agent,
        turn,
        TurnEvent::ToolDone {
            result: Err("two failed".into()),
        },
    );
    assert_eq!(next.action, TurnAction::Inject);
    let context = agent.context();
    assert_eq!(context.len(), 4);
    assert!(matches!(
        &context[2],
        Message::Tool { call_id, content, is_error: false, .. }
            if call_id == "1" && content == "one"
    ));
    assert!(matches!(
        &context[3],
        Message::Tool { call_id, content, is_error: true, .. }
            if call_id == "2" && content == "two failed"
    ));
    let (turn, next) = step(&mut agent, turn, TurnEvent::Injected);
    assert_eq!(next.action, TurnAction::AskModel);
    let (_, last) = step(&mut agent, turn, answer(Some("end"), vec![]));
    assert_eq!(
        last.action,
        TurnAction::Finish {
            answer: "end".into()
        }
    );
}

#[test]
fn the_poll_guard_ends_the_turn_after_the_batch() {
    let mut agent = Agent::new();
    let turn = asked(&mut agent);
    let (turn, _) = step(
        &mut agent,
        turn,
        answer(None, vec![call("1", "poll"), call("2", "b")]),
    );
    let (turn, next) = step(
        &mut agent,
        turn,
        TurnEvent::ToolDone {
            result: Err(POLL_GUARD_SENTINEL.into()),
        },
    );
    assert!(matches!(next.action, TurnAction::RunTool { .. }));
    let (turn, last) = step(&mut agent, turn, done("two"));
    assert!(matches!(last.action, TurnAction::Finish { .. }));
    assert_eq!(turn.phase, Phase::Finished);
    let shown = format!("{:?}", agent.context());
    assert!(!shown.contains(POLL_GUARD_SENTINEL));
    assert!(shown.contains(POLL_GUARD_ERROR));
    let told = format!("{:?} {:?}", last.events, agent.history());
    assert!(told.contains(POLL_GUARD_TERMINATION_NOTICE));
}

#[test]
fn rounds_are_limited() {
    let mut agent = Agent::new().max_tool_rounds(1);
    let turn = asked(&mut agent);
    let (turn, _) = step(&mut agent, turn, answer(None, vec![call("1", "a")]));
    let (turn, last) = step(&mut agent, turn, done("one"));
    assert_eq!(
        last.action,
        TurnAction::Fail {
            error: "tool call limit (1) reached".into()
        }
    );
    assert_eq!(turn.phase, Phase::Finished);
    let none = Agent::new().max_tool_rounds(0);
    let (_, first) = start(&none);
    assert_eq!(
        first.action,
        TurnAction::Fail {
            error: "tool call limit (0) reached".into()
        }
    );
}

#[test]
fn a_full_window_is_compacted_before_the_answer_is_taken() {
    let mut agent = Agent::new();
    agent.set_context_window(100);
    let turn = asked(&mut agent);
    let event = TurnEvent::Answered {
        assistant: AssistantMessage {
            content: Some("done".into()),
            tool_calls: vec![],
            reasoning: None,
        },
        usage: Some(Usage::of(90, 1)),
        produced_delta: true,
    };
    let (turn, next) = step(&mut agent, turn, event);
    assert_eq!(next.action, TurnAction::Compact);
    assert!(next
        .events
        .contains(&AgentEvent::Notice(AUTO_COMPACTING.into())));
    assert_eq!(agent.history().len(), 1);
    let (_, last) = step(&mut agent, turn, TurnEvent::Compacted { failure: None });
    assert!(last
        .events
        .contains(&AgentEvent::Notice(AUTO_COMPACTED.into())));
    assert_eq!(
        last.action,
        TurnAction::Finish {
            answer: "done".into()
        }
    );
}

#[test]
fn a_failed_step_fails_the_turn() {
    let mut agent = Agent::new();
    let turn = asked(&mut agent);
    let before = agent.history().len();
    let (turn, last) = step(
        &mut agent,
        turn,
        TurnEvent::Failed {
            error: "no network".into(),
        },
    );
    assert_eq!(
        last.action,
        TurnAction::Fail {
            error: "no network".into()
        }
    );
    assert_eq!(turn.phase, Phase::Finished);
    assert_eq!(agent.history().len(), before);
}
