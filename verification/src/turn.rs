//! The turn loop: ask the model, run the tools that it calls, and ask again,
//! until it answers without a tool call. Every decision of the loop is made
//! here; asking, running and storing is the driver's part.
use vstd::prelude::*;

use crate::agent::{Agent, AgentEvent, AgentView, EventView};
use crate::entry::{EntryView, Usage, UsageView};
use crate::message::{
    asks_to_terminate, is_poll_guard_terminate, shown_error, tool_error_content, AssistantMessage,
    AssistantView, CallView, ImageView, Message, MessageView, ToolCall, ToolOutput,
    POLL_GUARD_TERMINATION_NOTICE,
};
use crate::pairs::{distinct_calls, paired, paired_after};
use crate::text::{decimal, decimal_text};

verus! {

/// Notice in front of an automatic compaction.
pub const AUTO_COMPACTING: &'static str = "──── auto-compacting… ────";

/// Notice behind an automatic compaction.
pub const AUTO_COMPACTED: &'static str = "──── auto-compaction ────";

/// What the loop waits for.
#[derive(Debug, PartialEq)]
pub enum Phase {
    /// Queued background completions are moved into the history.
    Injecting,
    /// The model is asked.
    Asking,
    /// The context is compacted before the answer is taken.
    Compacting { assistant: AssistantMessage, produced_delta: bool },
    /// The tool call `next` of the answer runs; `terminate` says that an
    /// earlier one asked to end the turn.
    Running { assistant: AssistantMessage, next: usize, terminate: bool },
    /// The turn is over.
    Finished,
}

/// Model of a [`Phase`].
#[verifier::ext_equal]
pub enum PhaseView {
    Injecting,
    Asking,
    Compacting { assistant: AssistantView, produced_delta: bool },
    Running { assistant: AssistantView, next: nat, terminate: bool },
    Finished,
}

impl DeepView for Phase {
    type V = PhaseView;

    open spec fn deep_view(&self) -> PhaseView {
        match self {
            Phase::Injecting => PhaseView::Injecting,
            Phase::Asking => PhaseView::Asking,
            Phase::Compacting { assistant, produced_delta } => PhaseView::Compacting {
                assistant: assistant.deep_view(),
                produced_delta: *produced_delta,
            },
            Phase::Running { assistant, next, terminate } => PhaseView::Running {
                assistant: assistant.deep_view(),
                next: *next as nat,
                terminate: *terminate,
            },
            Phase::Finished => PhaseView::Finished,
        }
    }
}

/// One turn of the loop.
#[derive(Debug, PartialEq)]
pub struct Turn {
    /// Rounds that were opened.
    pub rounds: usize,
    pub phase: Phase,
}

/// Model of a [`Turn`].
#[verifier::ext_equal]
pub struct TurnView {
    pub rounds: usize,
    pub phase: PhaseView,
}

impl DeepView for Turn {
    type V = TurnView;

    open spec fn deep_view(&self) -> TurnView {
        TurnView { rounds: self.rounds, phase: self.phase.deep_view() }
    }
}

/// What the driver reports to the loop.
#[derive(Debug, PartialEq)]
pub enum TurnEvent {
    /// The queued completions are in the history.
    Injected,
    /// The model answered; `produced_delta` says that it streamed content.
    Answered { assistant: AssistantMessage, usage: Option<Usage>, produced_delta: bool },
    /// The compaction ended, with the text of its error if it failed.
    Compacted { failure: Option<String> },
    /// The tool call ended.
    ToolDone { result: Result<ToolOutput, String> },
    /// The step could not be performed.
    Failed { error: String },
}

/// What the driver has to do next.
#[derive(Debug, PartialEq)]
pub enum TurnAction {
    /// Move the queued background completions into the history.
    Inject,
    /// Ask the model with the current context.
    AskModel,
    /// Compact the context.
    Compact,
    /// Run a tool call.
    RunTool { call: ToolCall },
    /// The turn is over with this answer.
    Finish { answer: String },
    /// The turn is over with this error.
    Fail { error: String },
}

/// Model of a [`TurnAction`].
#[verifier::ext_equal]
pub enum TurnActionView {
    Inject,
    AskModel,
    Compact,
    RunTool { call: CallView },
    Finish { answer: Seq<char> },
    Fail { error: Seq<char> },
}

impl DeepView for TurnAction {
    type V = TurnActionView;

    open spec fn deep_view(&self) -> TurnActionView {
        match self {
            TurnAction::Inject => TurnActionView::Inject,
            TurnAction::AskModel => TurnActionView::AskModel,
            TurnAction::Compact => TurnActionView::Compact,
            TurnAction::RunTool { call } => TurnActionView::RunTool { call: call.deep_view() },
            TurnAction::Finish { answer } => TurnActionView::Finish { answer: answer@ },
            TurnAction::Fail { error } => TurnActionView::Fail { error: error@ },
        }
    }
}

/// One step of the loop: what observers are told, then what the driver does.
#[derive(Debug, PartialEq)]
pub struct TurnStep {
    pub events: Vec<AgentEvent>,
    pub action: TurnAction,
}

/// The outcome of a step.
#[verifier::ext_equal]
pub struct Outcome {
    pub agent: AgentView,
    pub turn: TurnView,
    pub events: Seq<EventView>,
    pub action: TurnActionView,
}

/// The session, turn and step after a call, seen as an outcome.
pub open spec fn outcome(agent: Agent, turn: Turn, step: TurnStep) -> Outcome {
    Outcome {
        agent: agent.deep_view(),
        turn: turn.deep_view(),
        events: step.events.deep_view(),
        action: step.action.deep_view(),
    }
}

/// The error of a turn that used up its rounds.
pub open spec fn limit_error(limit: usize) -> Seq<char> {
    "tool call limit ("@ + decimal(limit as nat) + ") reached"@
}

/// Open the next round, unless the rounds are used up.
pub open spec fn round_opened(agent: AgentView, rounds: usize, events: Seq<EventView>) -> Outcome {
    match agent.max_tool_rounds {
        Some(limit) if rounds >= limit => Outcome {
            agent,
            turn: TurnView { rounds, phase: PhaseView::Finished },
            events,
            action: TurnActionView::Fail { error: limit_error(limit) },
        },
        _ => Outcome {
            agent,
            turn: TurnView { rounds: (rounds + 1) as usize, phase: PhaseView::Injecting },
            events,
            action: TurnActionView::Inject,
        },
    }
}

/// The event that announces a tool call.
pub open spec fn call_event(call: CallView) -> EventView {
    EventView::ToolCall { name: call.name, arguments: call.arguments }
}

/// Take an answer into the history. Without tool calls it ends the turn;
/// otherwise its content is shown, unless it was streamed, and its first call
/// runs.
pub open spec fn answer_taken(
    agent: AgentView,
    rounds: usize,
    assistant: AssistantView,
    produced_delta: bool,
    events: Seq<EventView>,
) -> Outcome {
    let committed = agent.applied(
        EntryView::Message { message: MessageView::Assistant(assistant) },
        None,
    );
    if assistant.tool_calls.len() == 0 {
        Outcome {
            agent: committed,
            turn: TurnView { rounds, phase: PhaseView::Finished },
            events,
            action: TurnActionView::Finish {
                answer: match assistant.content {
                    Some(content) => content,
                    None => Seq::empty(),
                },
            },
        }
    } else {
        let shown = match assistant.content {
            Some(content) if !produced_delta && content.len() > 0 => events.push(
                EventView::AssistantText(content),
            ),
            _ => events,
        };
        Outcome {
            agent: committed,
            turn: TurnView {
                rounds,
                phase: PhaseView::Running { assistant, next: 0, terminate: false },
            },
            events: shown.push(call_event(assistant.tool_calls[0])),
            action: TurnActionView::RunTool { call: assistant.tool_calls[0] },
        }
    }
}

/// The text that a tool result contributes to the history.
pub open spec fn result_text(result: Result<ToolOutput, String>) -> Seq<char> {
    match result {
        Ok(output) => output.content@,
        Err(error) => shown_error(error@),
    }
}

/// The history message of a tool result.
pub open spec fn result_message(call: CallView, result: Result<ToolOutput, String>) -> MessageView {
    MessageView::Tool {
        call_id: call.id,
        name: call.name,
        content: result_text(result),
        images: match result {
            Ok(output) => output.images.deep_view(),
            Err(_) => Seq::empty(),
        },
        is_error: result is Err,
        synthetic: false,
    }
}

/// Take a tool result into the history and go on with the batch. Behind the
/// last call the turn ends if a call asked for it, and otherwise the next round
/// is opened.
pub open spec fn result_taken(
    agent: AgentView,
    rounds: usize,
    assistant: AssistantView,
    next: nat,
    terminate: bool,
    result: Result<ToolOutput, String>,
) -> Outcome {
    let call = assistant.tool_calls[next as int];
    let committed = agent.applied(
        EntryView::Message { message: result_message(call, result) },
        None,
    );
    let events = seq![
        EventView::ToolResult { is_error: result is Err, content: result_text(result) },
    ];
    let ends = terminate || asks_to_terminate(result);
    if next + 1 < assistant.tool_calls.len() {
        let following = assistant.tool_calls[next as int + 1];
        Outcome {
            agent: committed,
            turn: TurnView {
                rounds,
                phase: PhaseView::Running { assistant, next: next + 1, terminate: ends },
            },
            events: events.push(call_event(following)),
            action: TurnActionView::RunTool { call: following },
        }
    } else if ends {
        Outcome {
            agent: committed,
            turn: TurnView { rounds, phase: PhaseView::Finished },
            events: events.push(EventView::Notice(POLL_GUARD_TERMINATION_NOTICE@)),
            action: TurnActionView::Finish { answer: Seq::empty() },
        }
    } else {
        round_opened(committed, rounds, events)
    }
}

/// Count an answer; where the context then fills its window, compact it first.
pub open spec fn answered(
    agent: AgentView,
    rounds: usize,
    assistant: AssistantView,
    usage: Option<UsageView>,
    produced_delta: bool,
) -> Outcome {
    let counted = agent.charged(usage, true);
    let events = match usage {
        Some(_) => seq![counted.usage_event()],
        None => Seq::empty(),
    };
    if counted.window_is_full() && !counted.auto_compacted {
        Outcome {
            agent: AgentView { auto_compacted: true, ..counted },
            turn: TurnView {
                rounds,
                phase: PhaseView::Compacting { assistant, produced_delta },
            },
            events: events.push(EventView::Notice(AUTO_COMPACTING@)),
            action: TurnActionView::Compact,
        }
    } else {
        answer_taken(counted, rounds, assistant, produced_delta, events)
    }
}

/// Go on after a compaction; a failed one releases the latch.
pub open spec fn compacted(
    agent: AgentView,
    rounds: usize,
    assistant: AssistantView,
    produced_delta: bool,
    error: Option<Seq<char>>,
) -> Outcome {
    match error {
        Some(error) => answer_taken(
            AgentView { auto_compacted: false, ..agent },
            rounds,
            assistant,
            produced_delta,
            seq![
                EventView::Notice("auto-compaction error: "@ + error),
                EventView::Notice(AUTO_COMPACTED@),
            ],
        ),
        None => answer_taken(
            agent,
            rounds,
            assistant,
            produced_delta,
            seq![EventView::Notice(AUTO_COMPACTED@)],
        ),
    }
}

/// The event is one that the phase waits for.
pub open spec fn expects(turn: TurnView, event: TurnEvent) -> bool {
    match (turn.phase, event) {
        (PhaseView::Finished, _) => false,
        (_, TurnEvent::Failed { .. }) => true,
        (PhaseView::Injecting, TurnEvent::Injected) => true,
        (PhaseView::Asking, TurnEvent::Answered { .. }) => true,
        (PhaseView::Compacting { .. }, TurnEvent::Compacted { .. }) => true,
        (PhaseView::Running { assistant, next, .. }, TurnEvent::ToolDone { .. }) => next
            < assistant.tool_calls.len(),
        _ => false,
    }
}

/// The outcome of one step.
pub open spec fn stepped(agent: AgentView, turn: TurnView, event: TurnEvent) -> Outcome {
    match (turn.phase, event) {
        (PhaseView::Injecting, TurnEvent::Injected) => Outcome {
            agent,
            turn: TurnView { phase: PhaseView::Asking, ..turn },
            events: Seq::empty(),
            action: TurnActionView::AskModel,
        },
        (
            PhaseView::Asking,
            TurnEvent::Answered { assistant, usage, produced_delta },
        ) => answered(
            agent,
            turn.rounds,
            assistant.deep_view(),
            usage.deep_view(),
            produced_delta,
        ),
        (
            PhaseView::Compacting { assistant, produced_delta },
            TurnEvent::Compacted { failure },
        ) => compacted(agent, turn.rounds, assistant, produced_delta, failure.deep_view()),
        (
            PhaseView::Running { assistant, next, terminate },
            TurnEvent::ToolDone { result },
        ) => result_taken(agent, turn.rounds, assistant, next, terminate, result),
        (_, TurnEvent::Failed { error }) => Outcome {
            agent,
            turn: TurnView { phase: PhaseView::Finished, ..turn },
            events: Seq::empty(),
            action: TurnActionView::Fail { error: error@ },
        },
        _ => arbitrary(),
    }
}

/// Append an event.
fn tell(events: &mut Vec<AgentEvent>, event: AgentEvent)
    ensures
        final(events).deep_view() == old(events).deep_view().push(event.deep_view()),
{
    let ghost before = events.deep_view();
    events.push(event);
    assert(events.deep_view() =~= before.push(event.deep_view()));
}

/// Open the next round, unless the rounds are used up.
fn open_round(agent: &Agent, rounds: usize, events: Vec<AgentEvent>) -> (r: (Turn, TurnStep))
    requires
        rounds < usize::MAX,
    ensures
        outcome(*agent, r.0, r.1) == round_opened(agent.deep_view(), rounds, events.deep_view()),
{
    if let Some(limit) = agent.max_tool_rounds {
        if rounds >= limit {
            let mut error = "tool call limit (".to_owned();
            error.push_str(decimal_text(limit as u64).as_str());
            error.push_str(") reached");
            assert(error@ =~= limit_error(limit));
            return (
                Turn { rounds, phase: Phase::Finished },
                TurnStep { events, action: TurnAction::Fail { error } },
            );
        }
    }
    (
        Turn { rounds: rounds + 1, phase: Phase::Injecting },
        TurnStep { events, action: TurnAction::Inject },
    )
}

/// The event that announces a tool call.
fn announce(call: &ToolCall) -> (r: AgentEvent)
    ensures
        r.deep_view() == call_event(call.deep_view()),
{
    AgentEvent::ToolCall { name: call.name.clone(), arguments: call.arguments.clone() }
}

/// Take an answer into the history.
fn take_answer(
    agent: &mut Agent,
    rounds: usize,
    assistant: AssistantMessage,
    produced_delta: bool,
    events: Vec<AgentEvent>,
) -> (r: (Turn, TurnStep))
    ensures
        outcome(*final(agent), r.0, r.1) == answer_taken(
            old(agent).deep_view(),
            rounds,
            assistant.deep_view(),
            produced_delta,
            events.deep_view(),
        ),
{
    let mut events = events;
    agent.push_message(Message::Assistant(assistant.clone()));
    if assistant.tool_calls.len() == 0 {
        let answer = match &assistant.content {
            Some(content) => content.clone(),
            None => String::new(),
        };
        return (
            Turn { rounds, phase: Phase::Finished },
            TurnStep { events, action: TurnAction::Finish { answer } },
        );
    }
    if let Some(content) = &assistant.content {
        if !produced_delta && !content.as_str().is_empty() {
            tell(&mut events, AgentEvent::AssistantText(content.clone()));
        }
    }
    tell(&mut events, announce(&assistant.tool_calls[0]));
    let call = assistant.tool_calls[0].clone();
    assert(assistant.deep_view().tool_calls[0] == assistant.tool_calls@[0].deep_view());
    (
        Turn { rounds, phase: Phase::Running { assistant, next: 0, terminate: false } },
        TurnStep { events, action: TurnAction::RunTool { call } },
    )
}

/// The history message of a tool result.
fn message_of_result(call: &ToolCall, result: &Result<ToolOutput, String>) -> (r: Message)
    ensures
        r.deep_view() == result_message(call.deep_view(), *result),
{
    let (content, images, is_error) = match result {
        Ok(output) => {
            let images = output.images.clone();
            assert(images.deep_view() =~= output.images.deep_view());
            (output.content.clone(), images, false)
        },
        Err(error) => {
            let images = Vec::new();
            assert(images.deep_view() =~= Seq::<ImageView>::empty());
            (tool_error_content(error.as_str()).to_owned(), images, true)
        },
    };
    Message::Tool {
        call_id: call.id.clone(),
        name: call.name.clone(),
        content,
        images,
        is_error,
        synthetic: false,
    }
}

/// Take a tool result into the history and go on with the batch.
fn take_result(
    agent: &mut Agent,
    rounds: usize,
    assistant: AssistantMessage,
    next: usize,
    terminate: bool,
    result: Result<ToolOutput, String>,
) -> (r: (Turn, TurnStep))
    requires
        next < assistant.tool_calls@.len(),
        rounds < usize::MAX,
    ensures
        outcome(*final(agent), r.0, r.1) == result_taken(
            old(agent).deep_view(),
            rounds,
            assistant.deep_view(),
            next as nat,
            terminate,
            result,
        ),
{
    let ghost calls = assistant.deep_view().tool_calls;
    assert(calls[next as int] == assistant.tool_calls@[next as int].deep_view());
    let ends = is_poll_guard_terminate(&result) || terminate;
    let content = match &result {
        Ok(output) => output.content.clone(),
        Err(error) => tool_error_content(error.as_str()).to_owned(),
    };
    let mut events: Vec<AgentEvent> = Vec::new();
    assert(events.deep_view() =~= Seq::empty());
    tell(&mut events, AgentEvent::ToolResult { is_error: result.is_err(), content });
    assert(events.deep_view() =~= seq![
        EventView::ToolResult { is_error: result is Err, content: result_text(result) },
    ]);
    agent.push_message(message_of_result(&assistant.tool_calls[next], &result));
    if next < assistant.tool_calls.len() - 1 {
        assert(calls[next + 1] == assistant.tool_calls@[next + 1].deep_view());
        tell(&mut events, announce(&assistant.tool_calls[next + 1]));
        let call = assistant.tool_calls[next + 1].clone();
        return (
            Turn { rounds, phase: Phase::Running { assistant, next: next + 1, terminate: ends } },
            TurnStep { events, action: TurnAction::RunTool { call } },
        );
    }
    if ends {
        tell(&mut events, AgentEvent::Notice(POLL_GUARD_TERMINATION_NOTICE.to_owned()));
        return (
            Turn { rounds, phase: Phase::Finished },
            TurnStep { events, action: TurnAction::Finish { answer: String::new() } },
        );
    }
    open_round(agent, rounds, events)
}

/// Start the loop of a turn.
pub fn start(agent: &Agent) -> (r: (Turn, TurnStep))
    ensures
        outcome(*agent, r.0, r.1) == round_opened(agent.deep_view(), 0, Seq::empty()),
{
    let events: Vec<AgentEvent> = Vec::new();
    assert(events.deep_view() =~= Seq::empty());
    open_round(agent, 0, events)
}

/// Make one step of the loop with what the driver reports.
pub fn step(agent: &mut Agent, turn: Turn, event: TurnEvent) -> (r: (Turn, TurnStep))
    requires
        expects(turn.deep_view(), event),
        turn.rounds < usize::MAX,
        event matches TurnEvent::Answered { usage, .. } ==> old(agent).deep_view().usage_fits(
            usage.deep_view(),
        ),
    ensures
        outcome(*final(agent), r.0, r.1) == stepped(old(agent).deep_view(), turn.deep_view(), event),
{
    let rounds: usize = turn.rounds;
    let mut events: Vec<AgentEvent> = Vec::new();
    assert(events.deep_view() =~= Seq::empty());
    match (turn.phase, event) {
        (_, TurnEvent::Failed { error }) => (
            Turn { rounds, phase: Phase::Finished },
            TurnStep { events, action: TurnAction::Fail { error } },
        ),
        (Phase::Injecting, _) => (
            Turn { rounds, phase: Phase::Asking },
            TurnStep { events, action: TurnAction::AskModel },
        ),
        (Phase::Asking, TurnEvent::Answered { assistant, usage, produced_delta }) => {
            if let Some(event) = agent.record_usage(usage, true) {
                tell(&mut events, event);
                assert(events.deep_view() =~= seq![event.deep_view()]);
            }
            if agent.take_auto_compact_request() {
                tell(&mut events, AgentEvent::Notice(AUTO_COMPACTING.to_owned()));
                return (
                    Turn { rounds, phase: Phase::Compacting { assistant, produced_delta } },
                    TurnStep { events, action: TurnAction::Compact },
                );
            }
            take_answer(agent, rounds, assistant, produced_delta, events)
        },
        (
            Phase::Compacting { assistant, produced_delta },
            TurnEvent::Compacted { failure },
        ) => {
            if let Some(error) = &failure {
                agent.reset_auto_compact_request();
                let mut text = "auto-compaction error: ".to_owned();
                text.push_str(error.as_str());
                tell(&mut events, AgentEvent::Notice(text));
            }
            tell(&mut events, AgentEvent::Notice(AUTO_COMPACTED.to_owned()));
            assert(failure is None ==> events.deep_view() =~= seq![
                EventView::Notice(AUTO_COMPACTED@),
            ]);
            assert(failure matches Some(error) ==> events.deep_view() =~= seq![
                EventView::Notice("auto-compaction error: "@ + error@),
                EventView::Notice(AUTO_COMPACTED@),
            ]);
            take_answer(agent, rounds, assistant, produced_delta, events)
        },
        (
            Phase::Running { assistant, next, terminate },
            TurnEvent::ToolDone { result },
        ) => take_result(agent, rounds, assistant, next, terminate, result),
        (_, _) => (
            Turn { rounds, phase: Phase::Finished },
            TurnStep { events, action: TurnAction::Fail { error: String::new() } },
        ),
    }
}

/// The outcome of the rest of a batch, given the results of its calls from
/// `next` on.
pub open spec fn batch_taken(
    agent: AgentView,
    rounds: usize,
    assistant: AssistantView,
    next: nat,
    terminate: bool,
    results: Seq<Result<ToolOutput, String>>,
) -> Outcome
    decreases results.len(),
{
    let first = result_taken(agent, rounds, assistant, next, terminate, results[0]);
    if results.len() <= 1 {
        first
    } else {
        batch_taken(
            first.agent,
            rounds,
            assistant,
            next + 1,
            terminate || asks_to_terminate(results[0]),
            results.drop_first(),
        )
    }
}

/// The history messages of the results of the calls from `next` on.
pub open spec fn batch_messages(
    calls: Seq<CallView>,
    next: nat,
    results: Seq<Result<ToolOutput, String>>,
) -> Seq<MessageView> {
    Seq::new(results.len(), |i: int| result_message(calls[next + i], results[i]))
}

/// Messages as history entries.
pub open spec fn as_entries(messages: Seq<MessageView>) -> Seq<EntryView> {
    messages.map_values(|message: MessageView| EntryView::Message { message })
}

/// Every call of a batch gets its real result in the history, in order, before
/// the turn ends or another round begins, also where one of them asked to end
/// the turn.
pub proof fn batches_are_committed_completely(
    agent: AgentView,
    rounds: usize,
    assistant: AssistantView,
    next: nat,
    terminate: bool,
    results: Seq<Result<ToolOutput, String>>,
)
    requires
        results.len() > 0,
        next + results.len() == assistant.tool_calls.len(),
    ensures
        ({
            let after = batch_taken(agent, rounds, assistant, next, terminate, results);
            &&& after.agent.history == agent.history + as_entries(
                batch_messages(assistant.tool_calls, next, results),
            )
            &&& !(after.turn.phase is Running)
            &&& after.action is Finish || after.action is Inject || after.action is Fail
        }),
    decreases results.len(),
{
    let calls = assistant.tool_calls;
    let first = result_taken(agent, rounds, assistant, next, terminate, results[0]);
    let message = result_message(calls[next as int], results[0]);
    let messages = batch_messages(calls, next, results);
    assert(first.agent.history == agent.history.push(EntryView::Message { message }));
    if results.len() == 1 {
        assert(as_entries(messages) =~= seq![EntryView::Message { message }]);
    } else {
        let rest = results.drop_first();
        batches_are_committed_completely(
            first.agent,
            rounds,
            assistant,
            next + 1,
            terminate || asks_to_terminate(results[0]),
            rest,
        );
        assert(as_entries(messages) =~= seq![EntryView::Message { message }] + as_entries(
            batch_messages(calls, next + 1, rest),
        ));
    }
}

proof fn lemma_batch_pairs(
    calls: Seq<CallView>,
    next: nat,
    results: Seq<Result<ToolOutput, String>>,
)
    requires
        next + results.len() == calls.len(),
        distinct_calls(calls),
    ensures
        paired_after(batch_messages(calls, next, results), calls.skip(next as int)),
    decreases results.len(),
{
    let messages = batch_messages(calls, next, results);
    let open = calls.skip(next as int);
    if results.len() > 0 {
        let rest = results.drop_first();
        lemma_batch_pairs(calls, next + 1, rest);
        assert forall|i: int, j: int| 0 <= i < j < open.len() implies (#[trigger] open[i]).id != (
        #[trigger] open[j]).id by {
            assert(open[i] == calls[next + i]);
            assert(open[j] == calls[next + j]);
        }
        assert(messages.drop_first() =~= batch_messages(calls, next + 1, rest));
        crate::pairs::lemma_without_first(open);
        assert(open[0] == calls[next as int]);
        assert(open.drop_first() =~= calls.skip(next as int + 1));
        assert(crate::pairs::has_call(open, open[0].id));
    }
}

/// An assistant message with distinct call ids and the results of its whole
/// batch satisfy the pairing rule as they are: a batch leaves nothing to repair.
pub proof fn committed_batches_are_paired(
    assistant: AssistantView,
    results: Seq<Result<ToolOutput, String>>,
)
    requires
        results.len() == assistant.tool_calls.len(),
        distinct_calls(assistant.tool_calls),
    ensures
        paired(
            seq![MessageView::Assistant(assistant)] + batch_messages(
                assistant.tool_calls,
                0,
                results,
            ),
        ),
{
    let messages = batch_messages(assistant.tool_calls, 0, results);
    let whole = seq![MessageView::Assistant(assistant)] + messages;
    lemma_batch_pairs(assistant.tool_calls, 0, results);
    assert(assistant.tool_calls.skip(0) =~= assistant.tool_calls);
    assert(whole.drop_first() =~= messages);
}

/// The internal termination result never enters the history: what an error
/// contributes is never the sentinel.
pub proof fn the_sentinel_stays_internal(call: CallView, error: String)
    ensures
        result_message(call, Err(error)) matches MessageView::Tool { content, .. } && content
            != crate::message::POLL_GUARD_SENTINEL@,
{
    reveal_strlit("\u{0}poll-guard-terminate");
    reveal_strlit(
        "poll guard: get_background_tasks was already called with this exact task list this turn; end the turn and wait for the automatic [background task N completed] injection instead of polling again",
    );
    assert(crate::message::POLL_GUARD_ERROR@[0] == 'p');
    assert(crate::message::POLL_GUARD_SENTINEL@[0] == '\u{0}');
}

/// No turn opens more rounds than its limit allows, and no step changes the
/// limit.
pub proof fn rounds_stay_within_the_limit(agent: AgentView, turn: TurnView, event: TurnEvent)
    requires
        expects(turn, event),
        agent.max_tool_rounds matches Some(limit) ==> turn.rounds <= limit,
        turn.rounds < usize::MAX,
    ensures
        ({
            let after = stepped(agent, turn, event);
            &&& after.agent.max_tool_rounds == agent.max_tool_rounds
            &&& agent.max_tool_rounds matches Some(limit) ==> after.turn.rounds <= limit
            &&& turn.rounds <= after.turn.rounds <= turn.rounds + 1
        }),
{
}

/// A step only ever appends to the history, and keeps every entry beside its
/// key.
pub proof fn steps_append_to_the_history(agent: AgentView, turn: TurnView, event: TurnEvent)
    requires
        expects(turn, event),
        agent.aligned(),
    ensures
        stepped(agent, turn, event).agent.aligned(),
        agent.history.is_prefix_of(stepped(agent, turn, event).agent.history),
{
    let after = stepped(agent, turn, event).agent;
    if after.history.len() == agent.history.len() {
        assert(after.history =~= agent.history);
    }
    assert(after.history.take(agent.history.len() as int) =~= agent.history);
}

/// What an answer leads to once it is taken: it is the newest entry of the history;
/// without calls it ends the turn with its text, and with calls the first one is
/// announced and run.
pub open spec fn takes_answer(
    before: AgentView,
    assistant: AssistantView,
    rounds: usize,
    after: Outcome,
) -> bool {
    &&& after.agent.history.len() == before.history.len() + 1
    &&& after.agent.history.drop_last() == before.history
    &&& after.agent.history.last() == (EntryView::Message {
        message: MessageView::Assistant(assistant),
    })
    &&& after.turn.rounds == rounds
    &&& if assistant.tool_calls.len() == 0 {
        &&& after.turn.phase == PhaseView::Finished
        &&& after.action matches TurnActionView::Finish { answer }
        &&& assistant.content matches Some(content) ==> answer == content
        &&& assistant.content is None ==> answer.len() == 0
    } else {
        let call = assistant.tool_calls[0];
        &&& after.action == (TurnActionView::RunTool { call })
        &&& after.turn.phase == (PhaseView::Running { assistant, next: 0, terminate: false })
        &&& after.events.len() > 0
        &&& after.events.last() == (EventView::ToolCall {
            name: call.name,
            arguments: call.arguments,
        })
    }
}

/// An answer is counted, its usage as the size of the context. Where that fills
/// four fifths of the window for the first time, the context is compacted before
/// the answer is taken; otherwise the answer is taken at once.
pub proof fn answers_are_counted_and_taken(
    agent: AgentView,
    rounds: usize,
    assistant: AssistantMessage,
    usage: Usage,
    produced_delta: bool,
)
    requires
        agent.usage_fits(Some(usage.deep_view())),
    ensures
        ({
            let turn = TurnView { rounds, phase: PhaseView::Asking };
            let after = stepped(
                agent,
                turn,
                TurnEvent::Answered { assistant, usage: Some(usage), produced_delta },
            );
            let has_window = agent.context_window matches Some(window) && window > 0;
            let full = has_window && usage.input_tokens * 5 >= agent.context_window->0 * 4;
            let latched = agent.auto_compacted && (full || !has_window);
            &&& after.agent.session_input_tokens == agent.session_input_tokens + usage.input_tokens
            &&& after.agent.session_output_tokens == agent.session_output_tokens
                + usage.output_tokens
            &&& after.agent.last_context_input == usage.input_tokens
            &&& after.events.len() > 0
            &&& after.events[0] matches EventView::Usage { context_input, context_window, session }
            &&& context_input == usage.input_tokens && context_window == agent.context_window
            &&& session.input_tokens == agent.session_input_tokens + usage.input_tokens
            &&& session.output_tokens == agent.session_output_tokens + usage.output_tokens
            &&& if full && !latched {
                &&& after.action == TurnActionView::Compact
                &&& after.agent.auto_compacted
                &&& after.agent.history == agent.history
                &&& after.turn.phase == (PhaseView::Compacting {
                    assistant: assistant.deep_view(),
                    produced_delta,
                })
                &&& after.turn.rounds == rounds
            } else {
                &&& after.agent.auto_compacted == latched
                &&& takes_answer(agent, assistant.deep_view(), rounds, after)
            }
        }),
{
    let counted = agent.charged(Some(usage.deep_view()), true);
    assert(agent.history.push(
        EntryView::Message { message: MessageView::Assistant(assistant.deep_view()) },
    ).drop_last() =~= agent.history);
    if let Some(window) = agent.context_window {
        assert(usage.input_tokens * 100 >= window * 80 <==> usage.input_tokens * 5 >= window * 4);
    }
}

/// An answer without a usage report changes no count and is taken, unless the
/// context was full already and nothing was done about it.
pub proof fn uncounted_answers_are_taken(
    agent: AgentView,
    rounds: usize,
    assistant: AssistantMessage,
    produced_delta: bool,
)
    ensures
        ({
            let turn = TurnView { rounds, phase: PhaseView::Asking };
            let after = stepped(
                agent,
                turn,
                TurnEvent::Answered { assistant, usage: None, produced_delta },
            );
            let full = agent.context_window matches Some(window) && window > 0
                && agent.last_context_input * 5 >= window * 4;
            &&& after.agent.session_input_tokens == agent.session_input_tokens
            &&& after.agent.session_output_tokens == agent.session_output_tokens
            &&& after.agent.last_context_input == agent.last_context_input
            &&& if full && !agent.auto_compacted {
                after.action == TurnActionView::Compact && after.agent.auto_compacted
                    && after.agent.history == agent.history
            } else {
                after.agent.auto_compacted == agent.auto_compacted && takes_answer(
                    agent,
                    assistant.deep_view(),
                    rounds,
                    after,
                )
            }
        }),
{
    assert(agent.history.push(
        EntryView::Message { message: MessageView::Assistant(assistant.deep_view()) },
    ).drop_last() =~= agent.history);
    if let Some(window) = agent.context_window {
        assert(agent.last_context_input * 100 >= window * 80 <==> agent.last_context_input * 5
            >= window * 4);
    }
}

/// A text that was not streamed is shown before the calls that come with it; one
/// that was streamed is not shown again.
pub proof fn texts_are_shown_once(
    agent: AgentView,
    rounds: usize,
    assistant: AssistantMessage,
    produced_delta: bool,
)
    requires
        assistant.tool_calls@.len() > 0,
        assistant.content matches Some(content) && content@.len() > 0,
        agent.context_window is None,
    ensures
        ({
            let turn = TurnView { rounds, phase: PhaseView::Asking };
            let after = stepped(
                agent,
                turn,
                TurnEvent::Answered { assistant, usage: None, produced_delta },
            );
            let call = assistant.deep_view().tool_calls[0];
            let announced = EventView::ToolCall { name: call.name, arguments: call.arguments };
            after.events == if produced_delta {
                seq![announced]
            } else {
                seq![EventView::AssistantText(assistant.content->0@), announced]
            }
        }),
{
    let turn = TurnView { rounds, phase: PhaseView::Asking };
    let after = stepped(
        agent,
        turn,
        TurnEvent::Answered { assistant, usage: None, produced_delta },
    );
    let call = assistant.deep_view().tool_calls[0];
    let announced = EventView::ToolCall { name: call.name, arguments: call.arguments };
    if produced_delta {
        assert(after.events =~= seq![announced]);
    } else {
        assert(after.events =~= seq![EventView::AssistantText(assistant.content->0@), announced]);
    }
}

/// After a compaction the answer that waited is taken. One that failed is told of,
/// and may be asked for again.
pub proof fn waiting_answers_are_taken(
    agent: AgentView,
    rounds: usize,
    assistant: AssistantView,
    produced_delta: bool,
    failure: Option<String>,
)
    ensures
        ({
            let turn = TurnView {
                rounds,
                phase: PhaseView::Compacting { assistant, produced_delta },
            };
            let after = stepped(agent, turn, TurnEvent::Compacted { failure });
            &&& takes_answer(agent, assistant, rounds, after)
            &&& after.agent.auto_compacted == (agent.auto_compacted && failure is None)
            &&& after.agent.session_input_tokens == agent.session_input_tokens
            &&& after.agent.last_context_input == agent.last_context_input
            &&& failure matches Some(error) ==> after.events.len() > 0 && after.events[0]
                == EventView::Notice("auto-compaction error: "@ + error@)
        }),
{
    assert(agent.history.push(
        EntryView::Message { message: MessageView::Assistant(assistant) },
    ).drop_last() =~= agent.history);
}

/// The result of a call enters the history under the call's own id and name, with
/// the text and the images of its output, or the text of its error. The next call
/// of the batch follows; behind the last one the turn ends where a call asked for
/// it, and otherwise goes on to the next round as long as there is one.
pub proof fn results_are_taken_under_their_call(
    agent: AgentView,
    rounds: usize,
    assistant: AssistantView,
    next: nat,
    terminate: bool,
    result: Result<ToolOutput, String>,
)
    requires
        next < assistant.tool_calls.len(),
        rounds < usize::MAX,
    ensures
        ({
            let turn = TurnView { rounds, phase: PhaseView::Running { assistant, next, terminate } };
            let after = stepped(agent, turn, TurnEvent::ToolDone { result });
            let call = assistant.tool_calls[next as int];
            let guard = result matches Err(error) && error@ == crate::message::POLL_GUARD_SENTINEL@;
            let ends = terminate || guard;
            &&& after.agent.history.len() == agent.history.len() + 1
            &&& after.agent.history.drop_last() == agent.history
            &&& after.agent.history.last() matches EntryView::Message {
                message: MessageView::Tool {
                    call_id,
                    name,
                    content,
                    images,
                    is_error,
                    synthetic,
                },
            }
            &&& call_id == call.id && name == call.name && !synthetic
            &&& match result {
                Ok(output) => content == output.content@ && images == output.images.deep_view()
                    && !is_error,
                Err(error) => images.len() == 0 && is_error && (!guard ==> content == error@)
                    && (guard ==> content == crate::message::POLL_GUARD_ERROR@),
            }
            &&& after.events.len() > 0
            &&& after.events[0] == (EventView::ToolResult { is_error, content })
            &&& if next + 1 < assistant.tool_calls.len() {
                let following = assistant.tool_calls[next as int + 1];
                &&& after.action == (TurnActionView::RunTool { call: following })
                &&& after.turn.phase == (PhaseView::Running {
                    assistant,
                    next: next + 1,
                    terminate: ends,
                })
                &&& after.turn.rounds == rounds
                &&& after.events.last() == (EventView::ToolCall {
                    name: following.name,
                    arguments: following.arguments,
                })
            } else if ends {
                &&& after.turn.phase == PhaseView::Finished
                &&& after.action == (TurnActionView::Finish { answer: Seq::empty() })
            } else if agent.max_tool_rounds matches Some(limit) && rounds >= limit {
                &&& after.turn.phase == PhaseView::Finished
                &&& after.action == (TurnActionView::Fail {
                    error: "tool call limit ("@ + decimal(agent.max_tool_rounds->0 as nat)
                        + ") reached"@,
                })
            } else {
                &&& after.turn.phase == PhaseView::Injecting
                &&& after.action == TurnActionView::Inject
                &&& after.turn.rounds == rounds + 1
            }
        }),
{
    let call = assistant.tool_calls[next as int];
    assert(agent.history.push(EntryView::Message { message: result_message(call, result) }).drop_last()
        =~= agent.history);
}

/// A turn opens its first round unless it is allowed none, the model is asked once
/// the completions are in, and what cannot be performed ends the turn with its
/// error. None of these touches the session.
pub proof fn turns_go_on(agent: AgentView, turn: TurnView, error: String)
    requires
        !(turn.phase is Finished),
    ensures
        agent.max_tool_rounds is None || agent.max_tool_rounds->0 > 0 ==> round_opened(
            agent,
            0,
            Seq::empty(),
        ) == (Outcome {
            agent,
            turn: TurnView { rounds: 1, phase: PhaseView::Injecting },
            events: Seq::empty(),
            action: TurnActionView::Inject,
        }),
        agent.max_tool_rounds == Some(0usize) ==> round_opened(agent, 0, Seq::empty()).action is Fail,
        turn.phase is Injecting ==> stepped(agent, turn, TurnEvent::Injected) == (Outcome {
            agent,
            turn: TurnView { rounds: turn.rounds, phase: PhaseView::Asking },
            events: Seq::empty(),
            action: TurnActionView::AskModel,
        }),
        stepped(agent, turn, TurnEvent::Failed { error }) == (Outcome {
            agent,
            turn: TurnView { rounds: turn.rounds, phase: PhaseView::Finished },
            events: Seq::empty(),
            action: TurnActionView::Fail { error: error@ },
        }),
{
}

} // verus!
