//! One agent session: its history, its goal, its token accounting, and the
//! decisions of its turn loop.
use vstd::prelude::*;

use std::collections::{HashSet, VecDeque};

use crate::compaction::{
    compaction_request, cut, finish_compaction, judged, plan_compaction, request_copies,
    request_messages, Attempt, AttemptView, CompactionMode, CompactionPlan, Verdict, VerdictView,
};
use crate::context::{
    bound_request, context_items, context_of, item_messages, messages_of, projection_request,
    prompt_len, repair_item_pairs, repaired_items, BoundRequest, ContextItem, EntryLocation, ItemView,
    SourceView,
};
use crate::entry::{
    fold_goal, folded_goal, migrate_legacy_placeholders, migrated, plain_usage, total_fits,
    usage_total, BackgroundTrace, EntryView, SessionEntry, TraceView, Usage, UsageView,
};
use crate::goal::{GoalSnapshot, GoalView};
use crate::json::{bool_of, get, json_parsed, parse_json, str_of, Json, JsonView};
use crate::message::{
    AssistantMessage, CallView, Message, MessageView, ModelDeltaKind, ToolCall, ToolOutput,
};
use crate::text::{
    chars_of, first_of, has_prefix, index_of, parse_unsigned, preview, previewed, same_text,
    strip_prefix, text_of, unsigned_value,
};

verus! {

broadcast use vstd::std_specs::hash::group_hash_axioms;

/// What a session tells its observers.
#[derive(Debug, PartialEq)]
pub enum AgentEvent {
    /// A prompt accepted while the runner is busy.
    PromptQueued(String),
    /// The runner consumed the oldest queued prompt.
    PromptConsumed,
    UserPrompt(String),
    AssistantText(String),
    AssistantDelta(String),
    ReasoningDelta(String),
    ToolCall { name: String, arguments: String },
    ToolResult { is_error: bool, content: String },
    /// A system-injected notice.
    Notice(String),
    /// A turn failed.
    Error(String),
    /// A background task finished; not yet part of the history.
    BackgroundCompleted {
        id: u64,
        output: String,
        label: Option<String>,
        started_at_ms: Option<u64>,
        duration_ms: Option<u64>,
        exit_code: Option<i32>,
        signal: Option<String>,
        status: Option<String>,
        kind: Option<String>,
    },
    /// A background completion became part of the history.
    BackgroundCompletionNotice {
        id: u64,
        output: String,
        label: Option<String>,
        started_at_ms: Option<u64>,
        duration_ms: Option<u64>,
        exit_code: Option<i32>,
        signal: Option<String>,
        status: Option<String>,
        kind: Option<String>,
    },
    Usage {
        /// Input tokens of the most recent regular round.
        context_input: u64,
        /// Configured context window in tokens.
        context_window: Option<u64>,
        /// Tokens of the whole session.
        session: Usage,
    },
    /// A goal update was committed; `None` says that it was cleared.
    GoalUpdated { goal: Option<GoalSnapshot> },
}

/// Model of an [`AgentEvent`].
#[verifier::ext_equal]
pub enum EventView {
    PromptQueued(Seq<char>),
    PromptConsumed,
    UserPrompt(Seq<char>),
    AssistantText(Seq<char>),
    AssistantDelta(Seq<char>),
    ReasoningDelta(Seq<char>),
    ToolCall { name: Seq<char>, arguments: Seq<char> },
    ToolResult { is_error: bool, content: Seq<char> },
    Notice(Seq<char>),
    Error(Seq<char>),
    BackgroundCompleted {
        id: u64,
        output: Seq<char>,
        label: Option<Seq<char>>,
        trace: TraceView,
    },
    BackgroundCompletionNotice {
        id: u64,
        output: Seq<char>,
        label: Option<Seq<char>>,
        trace: TraceView,
    },
    Usage { context_input: u64, context_window: Option<u64>, session: UsageView },
    GoalUpdated { goal: Option<GoalView> },
}

impl DeepView for AgentEvent {
    type V = EventView;

    open spec fn deep_view(&self) -> EventView {
        match self {
            AgentEvent::PromptQueued(text) => EventView::PromptQueued(text@),
            AgentEvent::PromptConsumed => EventView::PromptConsumed,
            AgentEvent::UserPrompt(text) => EventView::UserPrompt(text@),
            AgentEvent::AssistantText(text) => EventView::AssistantText(text@),
            AgentEvent::AssistantDelta(text) => EventView::AssistantDelta(text@),
            AgentEvent::ReasoningDelta(text) => EventView::ReasoningDelta(text@),
            AgentEvent::ToolCall { name, arguments } => EventView::ToolCall {
                name: name@,
                arguments: arguments@,
            },
            AgentEvent::ToolResult { is_error, content } => EventView::ToolResult {
                is_error: *is_error,
                content: content@,
            },
            AgentEvent::Notice(text) => EventView::Notice(text@),
            AgentEvent::Error(text) => EventView::Error(text@),
            AgentEvent::BackgroundCompleted {
                id,
                output,
                label,
                started_at_ms,
                duration_ms,
                exit_code,
                signal,
                status,
                kind,
            } => EventView::BackgroundCompleted {
                id: *id,
                output: output@,
                label: label.deep_view(),
                trace: TraceView {
                    started_at_ms: *started_at_ms,
                    duration_ms: *duration_ms,
                    exit_code: *exit_code,
                    signal: signal.deep_view(),
                    status: status.deep_view(),
                    kind: kind.deep_view(),
                },
            },
            AgentEvent::BackgroundCompletionNotice {
                id,
                output,
                label,
                started_at_ms,
                duration_ms,
                exit_code,
                signal,
                status,
                kind,
            } => EventView::BackgroundCompletionNotice {
                id: *id,
                output: output@,
                label: label.deep_view(),
                trace: TraceView {
                    started_at_ms: *started_at_ms,
                    duration_ms: *duration_ms,
                    exit_code: *exit_code,
                    signal: signal.deep_view(),
                    status: status.deep_view(),
                    kind: kind.deep_view(),
                },
            },
            AgentEvent::Usage { context_input, context_window, session } => EventView::Usage {
                context_input: *context_input,
                context_window: *context_window,
                session: session.deep_view(),
            },
            AgentEvent::GoalUpdated { goal } => EventView::GoalUpdated { goal: goal.deep_view() },
        }
    }
}

/// The event for a streamed piece of a model answer.
pub fn delta_event(kind: ModelDeltaKind, delta: &str) -> (r: AgentEvent)
    ensures
        r.deep_view() == match kind {
            ModelDeltaKind::Content => EventView::AssistantDelta(delta@),
            ModelDeltaKind::Reasoning => EventView::ReasoningDelta(delta@),
        },
{
    match kind {
        ModelDeltaKind::Content => AgentEvent::AssistantDelta(delta.to_owned()),
        ModelDeltaKind::Reasoning => AgentEvent::ReasoningDelta(delta.to_owned()),
    }
}

/// A finished background task that waits for its place in the history.
#[derive(Debug, PartialEq)]
pub struct PendingCompletion {
    pub id: u64,
    pub output: String,
    pub label: Option<String>,
    pub trace: BackgroundTrace,
}

/// Model of a [`PendingCompletion`].
#[verifier::ext_equal]
pub struct PendingView {
    pub id: u64,
    pub output: Seq<char>,
    pub label: Option<Seq<char>>,
    pub trace: TraceView,
}

impl DeepView for PendingCompletion {
    type V = PendingView;

    open spec fn deep_view(&self) -> PendingView {
        PendingView {
            id: self.id,
            output: self.output@,
            label: self.label.deep_view(),
            trace: self.trace.deep_view(),
        }
    }
}

/// One agent session.
pub struct Agent {
    pub history: Vec<SessionEntry>,
    /// Physical keys of the persisted history, in its order.
    pub entry_locations: Vec<Option<EntryLocation>>,
    pub max_tool_rounds: Option<usize>,
    pub pending_background: VecDeque<PendingCompletion>,
    pub running_background: HashSet<u64>,
    pub session_input_tokens: u64,
    pub session_output_tokens: u64,
    pub last_context_input: u64,
    /// Context window in tokens; at four fifths of it the session asks for a
    /// compaction.
    pub context_window: Option<u64>,
    /// A compaction was asked for and the context has not shrunk since.
    pub auto_compacted: bool,
    /// Instructions put in front of every model call; not persisted.
    pub context_prefix: Option<String>,
    /// Directive repeated in front of a compaction summary; not persisted.
    pub compaction_reminder: Option<String>,
    pub goal: Option<GoalSnapshot>,
    /// The newest goal update was a clearing.
    pub goal_cleared: bool,
    pub compaction_mode: CompactionMode,
}

/// Model of an [`Agent`].
#[verifier::ext_equal]
pub struct AgentView {
    pub history: Seq<EntryView>,
    pub entry_locations: Seq<Option<Seq<char>>>,
    pub max_tool_rounds: Option<usize>,
    pub pending_background: Seq<PendingView>,
    pub running_background: Set<u64>,
    pub session_input_tokens: u64,
    pub session_output_tokens: u64,
    pub last_context_input: u64,
    pub context_window: Option<u64>,
    pub auto_compacted: bool,
    pub context_prefix: Option<Seq<char>>,
    pub compaction_reminder: Option<Seq<char>>,
    pub goal: Option<GoalView>,
    pub goal_cleared: bool,
    pub compaction_mode: CompactionMode,
}

impl DeepView for Agent {
    type V = AgentView;

    open spec fn deep_view(&self) -> AgentView {
        AgentView {
            history: self.history.deep_view(),
            entry_locations: self.entry_locations.deep_view(),
            max_tool_rounds: self.max_tool_rounds,
            pending_background: self.pending_background.deep_view(),
            running_background: self.running_background@,
            session_input_tokens: self.session_input_tokens,
            session_output_tokens: self.session_output_tokens,
            last_context_input: self.last_context_input,
            context_window: self.context_window,
            auto_compacted: self.auto_compacted,
            context_prefix: self.context_prefix.deep_view(),
            compaction_reminder: self.compaction_reminder.deep_view(),
            goal: self.goal.deep_view(),
            goal_cleared: self.goal_cleared,
            compaction_mode: self.compaction_mode,
        }
    }
}

/// A session that nothing has happened in yet.
pub open spec fn fresh_agent() -> AgentView {
    AgentView {
        history: Seq::empty(),
        entry_locations: Seq::empty(),
        max_tool_rounds: None,
        pending_background: Seq::empty(),
        running_background: Set::empty(),
        session_input_tokens: 0,
        session_output_tokens: 0,
        last_context_input: 0,
        context_window: None,
        auto_compacted: false,
        context_prefix: None,
        compaction_reminder: None,
        goal: None,
        goal_cleared: false,
        compaction_mode: CompactionMode::Main,
    }
}

impl AgentView {
    /// Every history entry has its place in the list of keys.
    pub open spec fn aligned(self) -> bool {
        self.entry_locations.len() == self.history.len()
    }

    /// The goal is the one that the history leaves behind.
    pub open spec fn goal_is_folded(self) -> bool {
        (self.goal, self.goal_cleared) == folded_goal(self.history)
    }

    /// What the context is derived from.
    pub open spec fn source(self) -> SourceView {
        SourceView {
            prefix: self.context_prefix,
            reminder: self.compaction_reminder,
            goal: self.goal,
            cleared: self.goal_cleared,
            history: self.history,
            locations: self.entry_locations,
        }
    }

    /// The items of the context, with the pairing rule restored.
    pub open spec fn items(self) -> Seq<ItemView> {
        repaired_items(context_of(self.source()))
    }

    /// The session after an entry was applied under a key.
    pub open spec fn applied(self, entry: EntryView, location: Option<Seq<char>>) -> AgentView {
        AgentView {
            history: self.history.push(entry),
            entry_locations: self.entry_locations.push(location),
            goal: match entry {
                EntryView::GoalUpdated { goal } => goal,
                _ => self.goal,
            },
            goal_cleared: match entry {
                EntryView::GoalUpdated { goal } => goal is None,
                _ => self.goal_cleared,
            },
            ..self
        }
    }

    /// The usage report fits into the session's counters.
    pub open spec fn usage_fits(self, usage: Option<UsageView>) -> bool {
        usage matches Some(usage) ==> self.session_input_tokens + usage.input_tokens <= u64::MAX
            && self.session_output_tokens + usage.output_tokens <= u64::MAX
    }

    /// The context uses at least four fifths of its window.
    pub open spec fn window_is_full(self) -> bool {
        self.context_window matches Some(window) && window > 0 && self.last_context_input * 100
            >= window * 80
    }

    /// The session after a usage report; a regular round also measures the
    /// context, and a context below four fifths of its window releases the
    /// compaction latch.
    pub open spec fn charged(self, usage: Option<UsageView>, refresh_context: bool) -> AgentView {
        match usage {
            None => self,
            Some(usage) => {
                let counted = AgentView {
                    session_input_tokens: (self.session_input_tokens + usage.input_tokens) as u64,
                    session_output_tokens: (self.session_output_tokens
                        + usage.output_tokens) as u64,
                    last_context_input: if refresh_context {
                        usage.input_tokens
                    } else {
                        self.last_context_input
                    },
                    ..self
                };
                AgentView {
                    auto_compacted: self.auto_compacted && !(self.context_window matches Some(window)
                        && window > 0 && !counted.window_is_full()),
                    ..counted
                }
            },
        }
    }

    /// The usage event of a session.
    pub open spec fn usage_event(self) -> EventView {
        EventView::Usage {
            context_input: self.last_context_input,
            context_window: self.context_window,
            session: plain_usage(self.session_input_tokens, self.session_output_tokens),
        }
    }
}

impl Agent {
    /// A session that nothing has happened in yet.
    pub fn new() -> (r: Self)
        ensures
            r.deep_view() == fresh_agent(),
    {
        let r = Agent {
            history: Vec::new(),
            entry_locations: Vec::new(),
            max_tool_rounds: None,
            pending_background: VecDeque::new(),
            running_background: HashSet::new(),
            session_input_tokens: 0,
            session_output_tokens: 0,
            last_context_input: 0,
            context_window: None,
            auto_compacted: false,
            context_prefix: None,
            compaction_reminder: None,
            goal: None,
            goal_cleared: false,
            compaction_mode: CompactionMode::Main,
        };
        assert(r.deep_view() =~= fresh_agent());
        r
    }

    /// Set the compaction mode; it comes from the kind of session.
    pub fn with_compaction_mode(self, mode: CompactionMode) -> (r: Self)
        ensures
            r.deep_view() == (AgentView { compaction_mode: mode, ..self.deep_view() }),
    {
        let mut agent = self;
        agent.compaction_mode = mode;
        agent
    }

    /// Extra system context put in front of every model call.
    pub fn set_context_prefix(&mut self, prefix: String)
        ensures
            final(self).deep_view() == (AgentView {
                context_prefix: Some(prefix@),
                ..old(self).deep_view()
            }),
    {
        self.context_prefix = Some(prefix);
    }

    /// Directive repeated in front of a compaction summary.
    pub fn set_compaction_reminder(&mut self, text: String)
        ensures
            final(self).deep_view() == (AgentView {
                compaction_reminder: Some(text@),
                ..old(self).deep_view()
            }),
    {
        self.compaction_reminder = Some(text);
    }

    /// Cap the number of tool-call rounds in a turn.
    pub fn max_tool_rounds(self, rounds: usize) -> (r: Self)
        ensures
            r.deep_view() == (AgentView { max_tool_rounds: Some(rounds), ..self.deep_view() }),
    {
        let mut agent = self;
        agent.max_tool_rounds = Some(rounds);
        agent
    }

    /// Set the context window in tokens.
    pub fn set_context_window(&mut self, window: u64)
        ensures
            final(self).deep_view() == (AgentView {
                context_window: Some(window),
                ..old(self).deep_view()
            }),
    {
        self.context_window = Some(window);
    }

    /// The whole history, oldest entry first.
    pub fn history(&self) -> (r: &[SessionEntry])
        ensures
            r@ == self.history@,
    {
        self.history.as_slice()
    }

    /// Replace the whole history. Placeholders of old sessions are flagged, the
    /// goal is the one that the history leaves behind, and no entry has a key.
    pub fn restore_history(&mut self, history: Vec<SessionEntry>)
        ensures
            final(self).deep_view() == old(self).deep_view().restored(history.deep_view()),
    {
        let history = migrate_legacy_placeholders(history);
        let (goal, cleared) = fold_goal(&history);
        self.goal = goal;
        self.goal_cleared = cleared;
        let mut locations: Vec<Option<EntryLocation>> = Vec::new();
        let mut i: usize = 0;
        while i < history.len()
            invariant
                i <= history.len(),
                locations@.len() == i,
                forall|j: int| 0 <= j < i ==> (#[trigger] locations@[j]) is None,
            decreases history.len() - i,
        {
            locations.push(None);
            i += 1;
        }
        assert(locations.deep_view() =~= Seq::new(history@.len(), |j: int| None));
        self.entry_locations = locations;
        self.history = history;
    }

    /// Set the keys of the restored history. A list of another length is cut or
    /// filled up with unknown keys.
    pub fn restore_locations(&mut self, locations: Vec<Option<EntryLocation>>)
        ensures
            final(self).deep_view() == (AgentView {
                entry_locations: fitted(
                    locations.deep_view(),
                    old(self).deep_view().history.len(),
                ),
                ..old(self).deep_view()
            }),
    {
        let mut fit: Vec<Option<EntryLocation>> = Vec::new();
        let mut i: usize = 0;
        while i < self.history.len()
            invariant
                i <= self.history.len(),
                fit@.len() == i,
                forall|j: int|
                    0 <= j < i ==> (#[trigger] fit@[j]).deep_view() == fitted(
                        locations.deep_view(),
                        self.history@.len(),
                    )[j],
            decreases self.history.len() - i,
        {
            if i < locations.len() {
                fit.push(locations[i].clone());
            } else {
                fit.push(None);
            }
            i += 1;
        }
        assert(fit.deep_view() =~= fitted(locations.deep_view(), self.history@.len()));
        self.entry_locations = fit;
    }

    /// Restore history and keys together.
    pub fn restore_located(
        &mut self,
        history: Vec<SessionEntry>,
        locations: Vec<Option<EntryLocation>>,
    )
        ensures
            final(self).deep_view() == (AgentView {
                entry_locations: fitted(locations.deep_view(), history@.len()),
                ..old(self).deep_view().restored(history.deep_view())
            }),
    {
        self.restore_history(history);
        self.restore_locations(locations);
    }

    /// The session goal.
    pub fn goal(&self) -> (r: Option<GoalSnapshot>)
        ensures
            r.deep_view() == self.deep_view().goal,
    {
        self.goal.clone()
    }

    /// Whether the newest goal update was a clearing, as opposed to no update
    /// at all.
    pub fn goal_cleared(&self) -> (r: bool)
        ensures
            r == self.deep_view().goal_cleared,
    {
        self.goal_cleared
    }

    /// Append an entry that has no key; a goal update becomes the session goal.
    pub fn push_entry(&mut self, entry: SessionEntry)
        ensures
            final(self).deep_view() == old(self).deep_view().applied(entry.deep_view(), None),
    {
        self.apply_entry_located(entry, None);
    }

    /// Append an entry under its key; a goal update becomes the session goal.
    pub fn apply_entry_located(&mut self, entry: SessionEntry, location: Option<EntryLocation>)
        ensures
            final(self).deep_view() == old(self).deep_view().applied(
                entry.deep_view(),
                location.deep_view(),
            ),
    {
        let ghost before = self.deep_view();
        if let SessionEntry::GoalUpdated { goal } = &entry {
            self.goal = goal.clone();
            self.goal_cleared = goal.is_none();
        }
        self.entry_locations.push(location);
        self.history.push(entry);
        assert(self.history.deep_view() =~= before.history.push(entry.deep_view()));
        assert(self.entry_locations.deep_view() =~= before.entry_locations.push(
            location.deep_view(),
        ));
    }

    /// Append an entry that has no key.
    pub fn apply_entry(&mut self, entry: SessionEntry)
        ensures
            final(self).deep_view() == old(self).deep_view().applied(entry.deep_view(), None),
    {
        self.apply_entry_located(entry, None);
    }

    /// Append a message that has no key.
    pub fn push_message(&mut self, message: Message)
        ensures
            final(self).deep_view() == old(self).deep_view().applied(
                EntryView::Message { message: message.deep_view() },
                None,
            ),
    {
        self.apply_entry_located(SessionEntry::Message { message }, None);
    }

    /// The items of the context, with the pairing rule restored.
    pub fn repaired_items(&self) -> (r: Vec<ContextItem>)
        ensures
            r.deep_view() == self.deep_view().items(),
    {
        repair_item_pairs(
            context_items(
                &self.context_prefix,
                &self.compaction_reminder,
                &self.goal,
                self.goal_cleared,
                &self.history,
                &self.entry_locations,
            ),
        )
    }

    /// The canonical context, complete and without loss: the latest compaction
    /// summary plus everything after it.
    pub fn context(&self) -> (r: Vec<Message>)
        ensures
            r.deep_view() == item_messages(self.deep_view().items()),
    {
        messages_of(&self.repaired_items())
    }

    /// For each message of the context, the field that has to be bounded before
    /// the message may be sent, if any.
    pub fn bound_requests(&self) -> (r: Vec<Option<BoundRequest>>)
        ensures
            r.deep_view() == self.deep_view().items().map_values(
                |item: ItemView| bound_request(item),
            ),
    {
        let items = self.repaired_items();
        proof {
            crate::context::context_items_are_sound(self.deep_view().source());
        }
        let ghost views = items.deep_view();
        let mut out: Vec<Option<BoundRequest>> = Vec::new();
        let mut i: usize = 0;
        while i < items.len()
            invariant
                i <= items.len(),
                views == items.deep_view(),
                out@.len() == i,
                forall|j: int|
                    0 <= j < views.len() ==> crate::context::item_sound(#[trigger] views[j]),
                forall|j: int|
                    0 <= j < i ==> (#[trigger] out@[j]).deep_view() == bound_request(views[j]),
            decreases items.len() - i,
        {
            assert(crate::context::item_sound(views[i as int]));
            out.push(projection_request(&items[i]));
            i += 1;
        }
        assert(out.deep_view() =~= views.map_values(|item: ItemView| bound_request(item)));
        out
    }

    /// The request copy of the context: each message with its bounded text from
    /// `bounded`, where that is given, and without images for a model without
    /// vision.
    pub fn context_request(&self, bounded: &Vec<Option<String>>, vision: bool) -> (r: Vec<Message>)
        requires
            bounded@.len() == self.deep_view().items().len(),
        ensures
            r.deep_view() == request_messages(
                self.deep_view().items(),
                bounded.deep_view(),
                vision,
                bounded@.len(),
            ),
    {
        let items = self.repaired_items();
        assert(items@.len() == items.deep_view().len());
        request_copies(&items, bounded, vision, items.len())
    }

    /// The ids of the background tasks that the session waits for.
    pub fn background_task_ids(&self) -> (r: &HashSet<u64>)
        ensures
            r@ == self.deep_view().running_background,
    {
        &self.running_background
    }

    /// Whether a background task has to complete before the session may finish.
    pub fn has_blocking_background(&self) -> (r: bool)
        ensures
            r == (self.deep_view().running_background != Set::<u64>::empty()),
    {
        !self.running_background.is_empty()
    }

    /// Take over an event from the background channel. A completion is queued
    /// for the history and returned for the subscriber; any other event is
    /// dropped.
    pub fn queue_background(&mut self, event: AgentEvent) -> (r: Option<AgentEvent>)
        ensures
            final(self).deep_view() == (AgentView {
                pending_background: match event.deep_view() {
                    EventView::BackgroundCompleted { id, output, label, trace } => old(
                        self,
                    ).deep_view().pending_background.push(
                        PendingView { id, output, label, trace },
                    ),
                    _ => old(self).deep_view().pending_background,
                },
                ..old(self).deep_view()
            }),
            r.deep_view() == match event.deep_view() {
                EventView::BackgroundCompleted { .. } => Some(event.deep_view()),
                _ => None,
            },
    {
        let ghost before = self.deep_view();
        match event {
            AgentEvent::BackgroundCompleted {
                id,
                output,
                label,
                started_at_ms,
                duration_ms,
                exit_code,
                signal,
                status,
                kind,
            } => {
                let pending = PendingCompletion {
                    id,
                    output: output.clone(),
                    label: label.clone(),
                    trace: BackgroundTrace {
                        started_at_ms,
                        duration_ms,
                        exit_code,
                        signal: signal.clone(),
                        status: status.clone(),
                        kind: kind.clone(),
                    },
                };
                self.pending_background.push_back(pending);
                assert(self.pending_background.deep_view() =~= before.pending_background.push(
                    pending.deep_view(),
                ));
                Some(
                    AgentEvent::BackgroundCompleted {
                        id,
                        output,
                        label,
                        started_at_ms,
                        duration_ms,
                        exit_code,
                        signal,
                        status,
                        kind,
                    },
                )
            },
            _ => None,
        }
    }

    /// The history entry of the completion that is next in the queue.
    pub fn peek_background_entry(&self) -> (r: Option<SessionEntry>)
        ensures
            r.deep_view() == if self.deep_view().pending_background.len() == 0 {
                None
            } else {
                Some(completion_entry(self.deep_view().pending_background[0]))
            },
    {
        if self.pending_background.len() == 0 {
            return None;
        }
        let pending = &self.pending_background[0];
        assert(*pending == self.pending_background@[0]);
        Some(
            SessionEntry::BackgroundCompletion {
                id: pending.id,
                output: pending.output.clone(),
                label: pending.label.clone(),
                started_at_ms: pending.trace.started_at_ms,
                duration_ms: pending.trace.duration_ms,
                exit_code: pending.trace.exit_code,
                signal: pending.trace.signal.clone(),
                status: pending.trace.status.clone(),
                kind: pending.trace.kind.clone(),
            },
        )
    }

    /// Take the next completion off the queue, once its entry is in the history
    /// and its durable record is cleared; its task no longer runs.
    pub fn ack_background_entry(&mut self)
        ensures
            final(self).deep_view() == old(self).deep_view().acknowledged(),
    {
        let ghost before = self.deep_view();
        match self.pending_background.pop_front() {
            Some(pending) => {
                self.running_background.remove(&pending.id);
                assert(self.pending_background.deep_view() =~= before.pending_background.drop_first());
            },
            None => {},
        }
        assert(self.deep_view() =~= before.acknowledged());
    }

    /// Move every queued completion into the history, oldest first.
    pub fn inject_pending_background(&mut self)
        ensures
            final(self).deep_view() == old(self).deep_view().injected(),
    {
        let ghost before = self.deep_view();
        while self.pending_background.len() > 0
            invariant
                before.injected() == self.deep_view().injected(),
            decreases self.pending_background@.len(),
        {
            let ghost now = self.deep_view();
            assert(now.pending_background.len() == self.pending_background@.len());
            if let Some(entry) = self.peek_background_entry() {
                self.apply_entry(entry);
            }
            self.ack_background_entry();
            assert(self.deep_view() == now.applied(
                completion_entry(now.pending_background[0]),
                None,
            ).acknowledged());
        }
    }

    /// Count a provider call. A regular round also measures the context. The
    /// result is the event that reports the new totals.
    pub fn record_usage(&mut self, usage: Option<Usage>, refresh_context: bool) -> (r: Option<
        AgentEvent,
    >)
        requires
            old(self).deep_view().usage_fits(usage.deep_view()),
        ensures
            final(self).deep_view() == old(self).deep_view().charged(
                usage.deep_view(),
                refresh_context,
            ),
            r.deep_view() == match usage {
                Some(_) => Some(final(self).deep_view().usage_event()),
                None => None,
            },
    {
        match usage {
            None => None,
            Some(usage) => {
                self.session_input_tokens = self.session_input_tokens + usage.input_tokens;
                self.session_output_tokens = self.session_output_tokens + usage.output_tokens;
                if refresh_context {
                    self.last_context_input = usage.input_tokens;
                }
                if self.auto_compacted {
                    if let Some(window) = self.context_window {
                        if window > 0 && (self.last_context_input as u128) * 100 < (window as u128)
                            * 80 {
                            self.auto_compacted = false;
                        }
                    }
                }
                Some(
                    AgentEvent::Usage {
                        context_input: self.last_context_input,
                        context_window: self.context_window,
                        session: Usage::of(self.session_input_tokens, self.session_output_tokens),
                    },
                )
            },
        }
    }

    /// Whether the context calls for a compaction; asking sets the latch, so
    /// that the same context is not compacted twice.
    pub fn take_auto_compact_request(&mut self) -> (r: bool)
        ensures
            r == (old(self).deep_view().window_is_full() && !old(self).deep_view().auto_compacted),
            final(self).deep_view() == (AgentView {
                auto_compacted: old(self).deep_view().auto_compacted || r,
                ..old(self).deep_view()
            }),
    {
        let requested = match self.context_window {
            Some(window) => window > 0 && !self.auto_compacted && (self.last_context_input as u128)
                * 100 >= (window as u128) * 80,
            None => false,
        };
        if requested {
            self.auto_compacted = true;
        }
        requested
    }

    /// Release the compaction latch after a failed or cancelled compaction.
    pub fn reset_auto_compact_request(&mut self)
        ensures
            final(self).deep_view() == (AgentView {
                auto_compacted: false,
                ..old(self).deep_view()
            }),
    {
        self.auto_compacted = false;
    }

    /// Release the compaction latch after a successful compaction. The measured
    /// context stays, so that the next regular round measures afresh.
    pub fn clear_auto_compacted(&mut self)
        ensures
            final(self).deep_view() == (AgentView {
                auto_compacted: false,
                ..old(self).deep_view()
            }),
    {
        self.auto_compacted = false;
    }
}

impl AgentView {
    /// The session with another history restored.
    pub open spec fn restored(self, history: Seq<EntryView>) -> AgentView {
        let history = history.map_values(|entry: EntryView| migrated(entry));
        AgentView {
            goal: folded_goal(history).0,
            goal_cleared: folded_goal(history).1,
            entry_locations: Seq::new(history.len(), |i: int| None),
            history,
            ..self
        }
    }

    /// The session without the completion that is next in the queue.
    pub open spec fn acknowledged(self) -> AgentView {
        if self.pending_background.len() == 0 {
            self
        } else {
            AgentView {
                pending_background: self.pending_background.drop_first(),
                running_background: self.running_background.remove(self.pending_background[0].id),
                ..self
            }
        }
    }

    /// The session with every queued completion moved into the history.
    pub open spec fn injected(self) -> AgentView
        decreases self.pending_background.len(),
    {
        if self.pending_background.len() == 0 {
            self
        } else {
            self.applied(
                completion_entry(self.pending_background[0]),
                None,
            ).acknowledged().injected()
        }
    }
}

/// A list of keys cut to `n` or filled up with unknown keys.
pub open spec fn fitted(locations: Seq<Option<Seq<char>>>, n: nat) -> Seq<Option<Seq<char>>> {
    Seq::new(
        n,
        |i: int|
            if i < locations.len() {
                locations[i]
            } else {
                None
            },
    )
}

/// The history entry of a background completion.
pub open spec fn completion_entry(pending: PendingView) -> EntryView {
    EntryView::BackgroundCompletion {
        id: pending.id,
        output: pending.output,
        label: pending.label,
        trace: pending.trace,
    }
}

/// The arguments of a tool call, where they are JSON.
pub open spec fn call_args(arguments: Seq<char>) -> Option<JsonView> {
    match json_parsed(arguments) {
        Ok(json) => Some(json),
        Err(_) => None,
    }
}

/// The arguments set the flag `key`.
pub open spec fn has_flag(args: Option<JsonView>, key: Seq<char>) -> bool {
    args matches Some(json) && bool_of(get(json, key)) == Some(true)
}

/// The arguments of a tool call, where they are JSON.
pub fn parsed_args(call: &ToolCall) -> (r: Option<Json>)
    ensures
        r.deep_view() == call_args(call.arguments@),
{
    match parse_json(call.arguments.as_str()) {
        Ok(json) => Some(json),
        Err(_) => None,
    }
}

/// Whether the arguments set the flag `key`.
pub fn flag_is_set(args: &Option<Json>, key: &str) -> (r: bool)
    ensures
        r == has_flag(args.deep_view(), key@),
{
    match args {
        Some(json) => match json.bool_field(key) {
            Some(value) => value,
            None => false,
        },
        None => false,
    }
}

/// Whether a call asks for a background task.
pub fn is_background_call(call: &ToolCall) -> (r: bool)
    ensures
        r == has_flag(call_args(call.arguments@), "background"@),
{
    flag_is_set(&parsed_args(call), "background")
}

/// Whether a call asks for a task that its session does not wait for.
pub fn is_detached_background_call(call: &ToolCall) -> (r: bool)
    ensures
        r == has_flag(call_args(call.arguments@), "detached"@),
{
    flag_is_set(&parsed_args(call), "detached")
}

/// The task id in the message `started background task <id>: ...`.
pub open spec fn started_id(output: Seq<char>) -> Option<u64> {
    let lead = "started background task "@;
    let rest = output.skip(lead.len() as int);
    if has_prefix(output, lead) && first_of(rest, ':') < rest.len() {
        match unsigned_value(rest.take(first_of(rest, ':')), u64::MAX as nat) {
            Some(id) => Some(id as u64),
            None => None,
        }
    } else {
        None
    }
}

/// The task id in the message `started background task <id>: ...`.
pub fn started_task_id(output: &str) -> (r: Option<u64>)
    ensures
        r == started_id(output@),
{
    match strip_prefix(output, "started background task ") {
        Some(rest) => {
            let chars = chars_of(rest.as_str());
            let colon: usize = index_of(&chars, ':');
            if colon == chars.len() {
                return None;
            }
            let digits = text_of(&chars, 0, colon);
            assert(digits@ =~= rest@.take(first_of(rest@, ':')));
            parse_unsigned(digits.as_str(), u64::MAX)
        },
        None => None,
    }
}

/// A background task that a tool call started.
#[derive(Debug, PartialEq, Eq)]
pub struct BackgroundStart {
    pub id: u64,
    /// The command, or the raw arguments where they name none.
    pub command: String,
    /// The command cut to a line.
    pub label: String,
}

/// Model of a [`BackgroundStart`].
#[verifier::ext_equal]
pub struct StartView {
    pub id: u64,
    pub command: Seq<char>,
    pub label: Seq<char>,
}

impl DeepView for BackgroundStart {
    type V = StartView;

    open spec fn deep_view(&self) -> StartView {
        StartView { id: self.id, command: self.command@, label: self.label@ }
    }
}

/// Width of the label of a background task.
pub const TASK_LABEL_WIDTH: usize = 100;

/// The background task that a finished call started and that its session waits
/// for: a shell call with the background flag and without the detached flag,
/// whose result names the task.
pub open spec fn tracked_start(
    call: CallView,
    args: Option<JsonView>,
    result: Result<ToolOutput, String>,
) -> Option<StartView> {
    let command = match args {
        Some(json) => match str_of(get(json, "command"@)) {
            Some(command) => command,
            None => call.arguments,
        },
        None => call.arguments,
    };
    match result {
        Ok(output) => match started_id(output.content@) {
            Some(id) if (call.name == "bash"@ || call.name == "pwsh"@) && has_flag(
                args,
                "background"@,
            ) && !has_flag(args, "detached"@) => Some(
                StartView { id, command, label: previewed(command, TASK_LABEL_WIDTH as nat) },
            ),
            _ => None,
        },
        Err(_) => None,
    }
}

/// The background task that a finished call with the arguments `args` started
/// and that its session waits for.
pub fn background_start(
    call: &ToolCall,
    args: &Option<Json>,
    result: &Result<ToolOutput, String>,
) -> (r: Option<BackgroundStart>)
    ensures
        r.deep_view() == tracked_start(call.deep_view(), args.deep_view(), *result),
{
    let output = match result {
        Ok(output) => output,
        Err(_) => return None,
    };
    if !same_text(call.name.as_str(), "bash") && !same_text(call.name.as_str(), "pwsh") {
        return None;
    }
    if !flag_is_set(args, "background") || flag_is_set(args, "detached") {
        return None;
    }
    let id: u64 = match started_task_id(output.content.as_str()) {
        Some(id) => id,
        None => return None,
    };
    let named = match args {
        Some(json) => json.str_field("command"),
        None => None,
    };
    let command = match named {
        Some(command) => command,
        None => call.arguments.clone(),
    };
    let label = preview(command.as_str(), TASK_LABEL_WIDTH);
    Some(BackgroundStart { id, command, label })
}

/// A tool call ready for execution: which tool, with which arguments; or the
/// error that answers it.
pub open spec fn resolved_call(
    call: CallView,
    parsed: Result<JsonView, Seq<char>>,
    tools: Seq<Seq<char>>,
) -> Result<(nat, JsonView), Seq<char>> {
    match parsed {
        Err(error) => Err("invalid JSON arguments: "@ + error),
        Ok(json) => if first_named(tools, call.name) == tools.len() {
            Err("unknown tool: "@ + call.name)
        } else {
            Ok((first_named(tools, call.name), json))
        },
    }
}

/// Position of the first tool named `name`, or the number of tools without one.
pub open spec fn first_named(tools: Seq<Seq<char>>, name: Seq<char>) -> nat
    decreases tools.len(),
{
    if tools.len() == 0 || tools[0] == name {
        0
    } else {
        1 + first_named(tools.drop_first(), name)
    }
}

proof fn lemma_first_named(tools: Seq<Seq<char>>, name: Seq<char>, n: nat)
    requires
        n <= tools.len(),
        forall|i: int| 0 <= i < n ==> (#[trigger] tools[i]) != name,
        n < tools.len() ==> tools[n as int] == name,
    ensures
        first_named(tools, name) == n,
    decreases n,
{
    if n > 0 {
        let rest = tools.drop_first();
        assert forall|i: int| 0 <= i < n - 1 implies (#[trigger] rest[i]) != name by {
            assert(rest[i] == tools[i + 1]);
        }
        lemma_first_named(rest, name, (n - 1) as nat);
    }
}

/// Position of the first tool named `name`, or the number of tools without one.
fn find_tool(tools: &Vec<String>, name: &str) -> (r: usize)
    ensures
        r == first_named(tools.deep_view(), name@),
        r <= tools@.len(),
{
    let ghost views = tools.deep_view();
    let mut i: usize = 0;
    while i < tools.len() && !same_text(tools[i].as_str(), name)
        invariant
            i <= tools.len(),
            views == tools.deep_view(),
            forall|j: int| 0 <= j < i ==> (#[trigger] views[j]) != name@,
        decreases tools.len() - i,
    {
        i += 1;
    }
    proof {
        lemma_first_named(views, name@, i as nat);
    }
    i
}

/// A result over a resolved call, seen through its model.
pub open spec fn call_result(r: Result<(usize, Json), String>) -> Result<
    (nat, JsonView),
    Seq<char>,
> {
    match r {
        Ok(found) => Ok((found.0 as nat, found.1.deep_view())),
        Err(error) => Err(error@),
    }
}

/// Find the tool for a call whose arguments were parsed with outcome `parsed`.
pub fn resolve_parsed_call(
    call: &ToolCall,
    parsed: Result<Json, String>,
    tools: &Vec<String>,
) -> (r: Result<(usize, Json), String>)
    ensures
        call_result(r) == resolved_call(
            call.deep_view(),
            match parsed {
                Ok(json) => Ok(json.deep_view()),
                Err(error) => Err(error@),
            },
            tools.deep_view(),
        ),
{
    match parsed {
        Err(error) => {
            let mut text = "invalid JSON arguments: ".to_owned();
            text.push_str(error.as_str());
            Err(text)
        },
        Ok(json) => {
            let index: usize = find_tool(tools, call.name.as_str());
            if index == tools.len() {
                let mut text = "unknown tool: ".to_owned();
                text.push_str(call.name.as_str());
                return Err(text);
            }
            Ok((index, json))
        },
    }
}

/// Parse the arguments of a call and find its tool among those named `tools`.
pub fn resolve_call(call: &ToolCall, tools: &Vec<String>) -> (r: Result<(usize, Json), String>)
    ensures
        call_result(r) == resolved_call(
            call.deep_view(),
            json_parsed(call.arguments@),
            tools.deep_view(),
        ),
{
    let parsed = parse_json(call.arguments.as_str());
    resolve_parsed_call(call, parsed, tools)
}

impl Agent {
    /// Note a background task that a finished call started, so that the session
    /// waits for it. The result is what a durable record has to say.
    pub fn after_tool_entry(
        &mut self,
        call: &ToolCall,
        result: &Result<ToolOutput, String>,
    ) -> (r: Option<BackgroundStart>)
        ensures
            r.deep_view() == tracked_start(
                call.deep_view(),
                call_args(call.arguments@),
                *result,
            ),
            final(self).deep_view() == old(self).deep_view().tracking(r.deep_view()),
    {
        let args = parsed_args(call);
        let start = background_start(call, &args, result);
        if let Some(started) = &start {
            self.running_background.insert(started.id);
        }
        assert(self.deep_view() =~= old(self).deep_view().tracking(start.deep_view()));
        start
    }

    /// Give up a task whose durable record could not be written; the result is
    /// the error that ends the turn.
    pub fn background_record_failed(&mut self, id: u64, error: &str) -> (r: String)
        ensures
            r@ == "cannot record background task owner: "@ + error@,
            final(self).deep_view() == (AgentView {
                running_background: old(self).deep_view().running_background.remove(id),
                ..old(self).deep_view()
            }),
    {
        self.running_background.remove(&id);
        let mut text = "cannot record background task owner: ".to_owned();
        text.push_str(error);
        text
    }

    /// Open a turn: the compaction latch is released, and a prompt that is not
    /// empty becomes a user message.
    pub fn open_turn(&mut self, prompt: String)
        ensures
            final(self).deep_view() == ({
                let released = AgentView { auto_compacted: false, ..old(self).deep_view() };
                if prompt@.len() == 0 {
                    released
                } else {
                    released.applied(
                        EntryView::Message {
                            message: MessageView::User { content: prompt@, images: Seq::empty() },
                        },
                        None,
                    )
                }
            }),
    {
        self.auto_compacted = false;
        if !prompt.as_str().is_empty() {
            let images = Vec::new();
            assert(images.deep_view() =~= Seq::empty());
            self.push_message(Message::User { content: prompt, images });
        }
    }

    /// Whether completions arrived that the model has not reacted to: then the
    /// turn is followed by another one.
    pub fn needs_follow_up(&self) -> (r: bool)
        ensures
            r == (self.deep_view().pending_background.len() > 0),
    {
        self.pending_background.len() > 0
    }

    /// Plan a compaction of the current context.
    pub fn plan_compaction(&self) -> (r: Result<CompactionPlan, String>)
        ensures
            r is Ok <==> cut(self.deep_view().compaction_mode, self.deep_view().items()) is Some,
            r matches Ok(plan) ==> {
                let (split, prompt) = cut(
                    self.deep_view().compaction_mode,
                    self.deep_view().items(),
                )->0;
                &&& plan.split == split
                &&& plan.summarised == crate::compaction::summarised_len(split, prompt)
                &&& plan.summarised <= plan.split <= self.deep_view().items().len()
                &&& prompt == match plan.current_prompt {
                    Some(index) => Some(index as nat),
                    None => None,
                }
                &&& plan.retained.deep_view() == crate::compaction::retained_messages(
                    item_messages(self.deep_view().items()),
                    split,
                    prompt,
                )
            },
            r matches Err(error) ==> error@ == "nothing to compact"@,
    {
        let items = self.repaired_items();
        assert(items@.len() == items.deep_view().len());
        plan_compaction(self.compaction_mode, &items)
    }

    /// The model request of a planned compaction.
    pub fn compaction_request(
        &self,
        plan: &CompactionPlan,
        bounded: &Vec<Option<String>>,
        vision: bool,
    ) -> (r: Vec<Message>)
        requires
            plan.summarised <= self.deep_view().items().len(),
            plan.summarised <= bounded@.len(),
        ensures
            r.deep_view() == request_messages(
                self.deep_view().items(),
                bounded.deep_view(),
                vision,
                plan.summarised as nat,
            ).push(crate::compaction::summary_request()),
    {
        let items = self.repaired_items();
        assert(items@.len() == items.deep_view().len());
        compaction_request(&items, plan.summarised, bounded, vision)
    }

    /// Take the model's answer to a compaction request: an accepted summary is
    /// appended to the history and every call for it counted, without measuring
    /// the context. Otherwise the session stays as it is.
    pub fn accept_compaction(
        &mut self,
        retained: &Vec<Message>,
        request: &Vec<Message>,
        attempt: Attempt,
        response: AssistantMessage,
        usage: Option<Usage>,
    ) -> (r: CompactionStep)
        requires
            total_fits(attempt.deep_view().spent, usage.deep_view()),
            old(self).deep_view().usage_fits(
                usage_total(attempt.deep_view().spent, usage.deep_view()),
            ),
        ensures
            match judged(
                old(self).deep_view().compaction_mode,
                retained.deep_view(),
                request.deep_view(),
                attempt.deep_view(),
                response.deep_view(),
                usage.deep_view(),
            ) {
                VerdictView::Accepted { entry, summary, usage: paid } => {
                    &&& final(self).deep_view() == old(self).deep_view().applied(
                        entry,
                        None,
                    ).charged(paid, false)
                    &&& r.deep_view() == (StepView::Done {
                        summary,
                        event: match paid {
                            Some(_) => Some(final(self).deep_view().usage_event()),
                            None => None,
                        },
                    })
                },
                VerdictView::Retry { attempt: next } => {
                    &&& final(self).deep_view() == old(self).deep_view()
                    &&& r.deep_view() == (StepView::Retry { attempt: next })
                },
                VerdictView::Failed { error } => {
                    &&& final(self).deep_view() == old(self).deep_view()
                    &&& r.deep_view() == (StepView::Failed { error })
                },
            },
    {
        match finish_compaction(self.compaction_mode, retained, request, attempt, response, usage) {
            Verdict::Accepted { output } => {
                self.apply_entry(output.entry);
                let event = self.record_usage(output.usage, false);
                CompactionStep::Done { summary: output.summary, event }
            },
            Verdict::Retry { attempt } => CompactionStep::Retry { attempt },
            Verdict::Failed { error } => CompactionStep::Failed { error },
        }
    }
}

/// How a compaction goes on.
#[derive(Debug, PartialEq)]
pub enum CompactionStep {
    /// The summary is in the history; the event reports the new totals.
    Done { summary: String, event: Option<AgentEvent> },
    /// The model is asked once more, with the hint.
    Retry { attempt: Attempt },
    /// The compaction has failed.
    Failed { error: String },
}

/// Model of a [`CompactionStep`].
#[verifier::ext_equal]
pub enum StepView {
    Done { summary: Seq<char>, event: Option<EventView> },
    Retry { attempt: AttemptView },
    Failed { error: Seq<char> },
}

impl DeepView for CompactionStep {
    type V = StepView;

    open spec fn deep_view(&self) -> StepView {
        match self {
            CompactionStep::Done { summary, event } => StepView::Done {
                summary: summary@,
                event: event.deep_view(),
            },
            CompactionStep::Retry { attempt } => StepView::Retry { attempt: attempt.deep_view() },
            CompactionStep::Failed { error } => StepView::Failed { error: error@ },
        }
    }
}

impl AgentView {
    /// The session that also waits for a started background task.
    pub open spec fn tracking(self, start: Option<StartView>) -> AgentView {
        match start {
            Some(start) => AgentView {
                running_background: self.running_background.insert(start.id),
                ..self
            },
            None => self,
        }
    }
}

/// Every operation on the history keeps each entry beside its key, and entries
/// are only ever appended.
pub proof fn history_is_append_only(
    agent: AgentView,
    entry: EntryView,
    location: Option<Seq<char>>,
)
    requires
        agent.aligned(),
    ensures
        agent.applied(entry, location).aligned(),
        agent.history.is_prefix_of(agent.applied(entry, location).history),
        agent.injected().aligned(),
        agent.history.is_prefix_of(agent.injected().history),
    decreases agent.pending_background.len(),
{
    assert(agent.history.push(entry).take(agent.history.len() as int) =~= agent.history);
    if agent.pending_background.len() > 0 {
        let first = completion_entry(agent.pending_background[0]);
        let next = agent.applied(first, None).acknowledged();
        history_is_append_only(next, entry, location);
        assert(agent.history.push(first).take(agent.history.len() as int) =~= agent.history);
        assert(next.injected().history.take(next.history.len() as int) =~= next.history);
        assert(agent.injected() == next.injected());
        assert(agent.injected().history.take(agent.history.len() as int) =~= agent.history);
    } else {
        assert(agent.history.take(agent.history.len() as int) =~= agent.history);
    }
}

/// The session goal is always the one that the history leaves behind: restoring
/// establishes it and applying an entry keeps it.
pub proof fn goal_follows_history(
    agent: AgentView,
    history: Seq<EntryView>,
    entry: EntryView,
    location: Option<Seq<char>>,
)
    ensures
        agent.restored(history).goal_is_folded(),
        agent.restored(history).aligned(),
        fresh_agent().goal_is_folded(),
        fresh_agent().aligned(),
        agent.goal_is_folded() ==> agent.applied(entry, location).goal_is_folded(),
{
    crate::entry::newest_goal_wins(agent.history, entry);
}

/// Injecting empties the queue, and the tasks of the queued completions run no
/// longer.
pub proof fn injection_empties_the_queue(agent: AgentView)
    ensures
        agent.injected().pending_background.len() == 0,
        agent.injected().history.len() == agent.history.len() + agent.pending_background.len(),
        forall|i: int|
            0 <= i < agent.pending_background.len() ==> !agent.injected().running_background.contains(
                (#[trigger] agent.pending_background[i]).id,
            ),
        agent.injected().running_background.subset_of(agent.running_background),
    decreases agent.pending_background.len(),
{
    if agent.pending_background.len() > 0 {
        let first = completion_entry(agent.pending_background[0]);
        let next = agent.applied(first, None).acknowledged();
        injection_empties_the_queue(next);
        assert forall|i: int| 0 <= i < agent.pending_background.len() implies !agent.injected().running_background.contains(
            (#[trigger] agent.pending_background[i]).id,
        ) by {
            if i > 0 {
                assert(next.pending_background[i - 1] == agent.pending_background[i]);
            }
        }
    }
}

/// A session that asked for a compaction does not ask again while its context
/// stays full: a usage report leaves the latch set, or finds a smaller context.
pub proof fn compaction_is_asked_for_once(agent: AgentView, usage: Option<UsageView>)
    requires
        agent.auto_compacted,
        agent.usage_fits(usage),
    ensures
        agent.charged(usage, true).auto_compacted || !agent.charged(usage, true).window_is_full(),
{
}

/// A request copy for a model without vision passes the vision gate, whatever
/// the history holds.
pub proof fn requests_pass_the_vision_gate(agent: AgentView, bounded: Seq<Option<Seq<char>>>)
    requires
        bounded.len() == agent.items().len(),
    ensures
        forall|i: int|
            0 <= i < bounded.len() ==> !crate::message::has_images(
                #[trigger] request_messages(agent.items(), bounded, false, bounded.len())[i],
            ),
{
}

/// A request copy for a model with vision is the context, message by message, but
/// for the texts that had to be bounded: what need not be bounded is equal, the
/// current prompt among it, and of the rest nothing but the text changes. Where no
/// entry has a key, the copy is the context itself.
pub proof fn requests_are_the_context_but_for_bounded_texts(
    agent: AgentView,
    bounded: Seq<Option<Seq<char>>>,
)
    requires
        bounded.len() == agent.items().len(),
    ensures
        ({
            let items = agent.items();
            let sent = request_messages(items, bounded, true, bounded.len());
            &&& sent.len() == items.len()
            &&& forall|i: int|
                0 <= i < items.len() ==> crate::context::same_but_text(
                    items[i].message,
                    #[trigger] sent[i],
                )
            &&& forall|i: int|
                0 <= i < items.len() && bound_request(items[i]) is None ==> (#[trigger] sent[i])
                    == items[i].message
            &&& prompt_len(items) > 0 ==> sent[prompt_len(items) - 1] == items[prompt_len(items)
                - 1].message
            &&& (forall|i: int|
                0 <= i < agent.entry_locations.len() ==> (
                #[trigger] agent.entry_locations[i]) is None) ==> sent == item_messages(items)
        }),
{
    let items = agent.items();
    let sent = request_messages(items, bounded, true, bounded.len());
    crate::context::context_items_are_sound(agent.source());
    assert forall|i: int| 0 <= i < items.len() implies crate::context::same_but_text(
        items[i].message,
        #[trigger] sent[i],
    ) by {
        assert(crate::context::item_sound(items[i]));
        crate::context::projection_changes_text_only(items[i], bounded[i]);
    }
    crate::context::sent_prompts_are_kept_full(agent.source());
    crate::context::lemma_prompt_len_is_last(items);
    if forall|i: int|
        0 <= i < agent.entry_locations.len() ==> (#[trigger] agent.entry_locations[i]) is None {
        crate::context::contexts_without_keys_are_unlocated(agent.source());
        assert forall|i: int| 0 <= i < items.len() implies (#[trigger] sent[i])
            == items[i].message by {
            assert(items[i].location is None);
        }
        assert(sent =~= item_messages(items));
    }
}

/// Where bounding leaves every field as it is, the request copy for a model
/// with vision is the context itself.
pub proof fn full_requests_are_lossless(agent: AgentView, bounded: Seq<Option<Seq<char>>>)
    requires
        bounded.len() == agent.items().len(),
        forall|i: int|
            0 <= i < bounded.len() ==> (#[trigger] bounded[i]) == match bound_request(
                agent.items()[i],
            ) {
                Some(request) => Some(request.text),
                None => None,
            },
    ensures
        request_messages(agent.items(), bounded, true, bounded.len()) == item_messages(
            agent.items(),
        ),
{
    let items = agent.items();
    crate::context::context_items_are_sound(agent.source());
    assert forall|i: int| 0 <= i < items.len() implies crate::context::projected(
        items[i],
        #[trigger] bounded[i],
    ) == items[i].message by {
        assert(crate::context::item_sound(items[i]));
        crate::context::full_projection_is_lossless(items[i]);
    }
    assert(request_messages(items, bounded, true, bounded.len()) =~= item_messages(items));
}

/// An entry that is applied is the newest of the history, beside its key; a goal
/// update is the goal from then on, and nothing else of the session changes.
pub proof fn entries_are_applied_as_they_are(
    agent: AgentView,
    entry: EntryView,
    location: Option<Seq<char>>,
)
    ensures
        ({
            let after = agent.applied(entry, location);
            &&& after.history == agent.history.push(entry)
            &&& after.entry_locations == agent.entry_locations.push(location)
            &&& entry matches EntryView::GoalUpdated { goal } ==> after.goal == goal
                && after.goal_cleared == (goal is None)
            &&& !(entry is GoalUpdated) ==> after.goal == agent.goal && after.goal_cleared
                == agent.goal_cleared
            &&& after == (AgentView {
                history: after.history,
                entry_locations: after.entry_locations,
                goal: after.goal,
                goal_cleared: after.goal_cleared,
                ..agent
            })
        }),
{
}

/// A usage report adds its tokens to the totals of the session, each to its own,
/// and a regular round is also the size of the context. A context below four fifths
/// of its window may be compacted again later; nothing else changes.
pub proof fn usage_is_counted(agent: AgentView, usage: UsageView, regular: bool)
    requires
        agent.usage_fits(Some(usage)),
    ensures
        ({
            let after = agent.charged(Some(usage), regular);
            &&& after.session_input_tokens == agent.session_input_tokens + usage.input_tokens
            &&& after.session_output_tokens == agent.session_output_tokens + usage.output_tokens
            &&& after.last_context_input == if regular {
                usage.input_tokens
            } else {
                agent.last_context_input
            }
            &&& after.auto_compacted ==> agent.auto_compacted
            &&& agent.auto_compacted && !after.auto_compacted <==> agent.auto_compacted && (
            agent.context_window matches Some(window) && window > 0 && after.last_context_input * 5
                < window * 4)
            &&& after == (AgentView {
                session_input_tokens: after.session_input_tokens,
                session_output_tokens: after.session_output_tokens,
                last_context_input: after.last_context_input,
                auto_compacted: after.auto_compacted,
                ..agent
            })
            &&& after.usage_event() matches EventView::Usage {
                context_input,
                context_window,
                session,
            }
            &&& context_input == after.last_context_input
            &&& context_window == agent.context_window
            &&& session.input_tokens == after.session_input_tokens
            &&& session.output_tokens == after.session_output_tokens
        }),
        agent.charged(None, regular) == agent,
        agent.window_is_full() <==> (agent.context_window matches Some(window) && window > 0
            && agent.last_context_input * 5 >= window * 4),
{
    let after = agent.charged(Some(usage), regular);
    if let Some(window) = agent.context_window {
        assert(after.last_context_input * 100 >= window * 80 <==> after.last_context_input * 5
            >= window * 4);
        assert(agent.last_context_input * 100 >= window * 80 <==> agent.last_context_input * 5
            >= window * 4);
    }
}

/// Injecting moves every queued completion into the history as it is, oldest
/// first, and the session waits for its other tasks as before.
pub proof fn completions_enter_in_order(agent: AgentView, i: int)
    requires
        0 <= i < agent.pending_background.len(),
    ensures
        ({
            let after = agent.injected();
            let pending = agent.pending_background[i];
            &&& after.history.len() == agent.history.len() + agent.pending_background.len()
            &&& after.history[agent.history.len() + i] == (EntryView::BackgroundCompletion {
                id: pending.id,
                output: pending.output,
                label: pending.label,
                trace: pending.trace,
            })
            &&& forall|k: int| 0 <= k < agent.history.len() ==> #[trigger] after.history[k]
                == agent.history[k]
        }),
    decreases agent.pending_background.len(),
{
    let first = completion_entry(agent.pending_background[0]);
    let next = agent.applied(first, None).acknowledged();
    injection_empties_the_queue(agent);
    lemma_injection_keeps(next);
    assert(next.history == agent.history.push(first));
    assert(agent.injected() == next.injected());
    assert forall|k: int| 0 <= k < agent.history.len() implies #[trigger] agent.injected().history[k]
        == agent.history[k] by {
        assert(next.history[k] == agent.history[k]);
        assert(next.injected().history[k] == next.history[k]);
    }
    if i == 0 {
        assert(next.injected().history[agent.history.len() as int]
            == next.history[agent.history.len() as int]);
    } else {
        assert(next.pending_background[i - 1] == agent.pending_background[i]);
        completions_enter_in_order(next, i - 1);
    }
}

proof fn lemma_injection_keeps(agent: AgentView)
    ensures
        agent.injected().history.len() >= agent.history.len(),
        forall|k: int|
            0 <= k < agent.history.len() ==> #[trigger] agent.injected().history[k]
                == agent.history[k],
    decreases agent.pending_background.len(),
{
    if agent.pending_background.len() > 0 {
        let first = completion_entry(agent.pending_background[0]);
        let next = agent.applied(first, None).acknowledged();
        lemma_injection_keeps(next);
        assert forall|k: int| 0 <= k < agent.history.len() implies #[trigger] agent.injected().history[k]
            == agent.history[k] by {
            assert(next.history[k] == agent.history[k]);
            assert(next.injected().history[k] == next.history[k]);
        }
    }
}

/// A session waits for a task until its completion is acknowledged, and for every
/// other task as before.
pub proof fn tasks_are_waited_for(agent: AgentView, start: StartView, other: u64)
    ensures
        agent.tracking(Some(start)).running_background.contains(start.id),
        other != start.id ==> (agent.tracking(Some(start)).running_background.contains(other)
            <==> agent.running_background.contains(other)),
        agent.tracking(None) == agent,
        agent.pending_background.len() > 0 ==> {
            let after = agent.acknowledged();
            &&& after.pending_background == agent.pending_background.skip(1)
            &&& !after.running_background.contains(agent.pending_background[0].id)
            &&& other != agent.pending_background[0].id ==> (after.running_background.contains(
                other,
            ) <==> agent.running_background.contains(other))
            &&& after.history == agent.history
        },
        agent.pending_background.len() == 0 ==> agent.acknowledged() == agent,
{
    if agent.pending_background.len() > 0 {
        assert(agent.pending_background.drop_first() =~= agent.pending_background.skip(1));
    }
}

/// A restored session has the history that it is given, with nothing but the
/// placeholders of old sessions flagged, no keys, and everything else as it was.
pub proof fn histories_are_restored_as_they_are(agent: AgentView, history: Seq<EntryView>)
    ensures
        ({
            let after = agent.restored(history);
            &&& after.history.len() == history.len()
            &&& after.entry_locations.len() == history.len()
            &&& forall|i: int|
                0 <= i < history.len() ==> (#[trigger] after.entry_locations[i]) is None
            &&& forall|i: int|
                0 <= i < history.len() ==> (#[trigger] after.history[i]) == migrated(history[i])
            &&& after == (AgentView {
                history: after.history,
                entry_locations: after.entry_locations,
                goal: after.goal,
                goal_cleared: after.goal_cleared,
                ..agent
            })
        }),
{
}

/// Keys that are restored stand beside their entries: those that are given, in
/// order, and none for the rest.
pub proof fn keys_are_fitted(locations: Seq<Option<Seq<char>>>, n: nat, i: int)
    requires
        0 <= i < n,
    ensures
        fitted(locations, n).len() == n,
        i < locations.len() ==> fitted(locations, n)[i] == locations[i],
        i >= locations.len() ==> fitted(locations, n)[i] is None,
{
}

/// The message that names a started task is read back: any number, and whatever
/// follows it.
pub proof fn started_tasks_are_recognised(id: u64, rest: Seq<char>)
    ensures
        started_id("started background task "@ + crate::text::decimal(id as nat) + seq![':'] + rest) == Some(id),
{
    let lead = "started background task "@;
    let text = lead + crate::text::decimal(id as nat) + seq![':'] + rest;
    let tail = text.skip(lead.len() as int);
    let digits = crate::text::decimal(id as nat);
    crate::text::numbers_are_read_back(id as nat, u64::MAX as nat);
    assert(text.take(lead.len() as int) =~= lead);
    assert(tail =~= digits + seq![':'] + rest);
    assert forall|j: int| 0 <= j < digits.len() implies tail[j] != ':' by {
        assert(tail[j] == digits[j]);
    }
    assert(tail[digits.len() as int] == ':');
    crate::text::lemma_first_of(tail, ':', digits.len() as int);
    assert(tail.take(digits.len() as int) =~= digits);
}

/// A session waits for what a shell call started in the background, unless the call
/// detached it, under the id that the output names and with the command that the
/// call gave; it waits for nothing else.
pub proof fn background_calls_are_tracked(
    call: CallView,
    args: JsonView,
    command: Seq<char>,
    output: ToolOutput,
    id: u64,
)
    requires
        get(args, "command"@) == Some(JsonView::Str(command)),
        started_id(output.content@) == Some(id),
    ensures
        ({
            let shell = call.name == "bash"@ || call.name == "pwsh"@;
            let asked = get(args, "background"@) == Some(JsonView::Bool(true));
            let detached = get(args, "detached"@) == Some(JsonView::Bool(true));
            let start = tracked_start(call, Some(args), Ok(output));
            &&& start is Some <==> shell && asked && !detached
            &&& start matches Some(start) ==> start.id == id && start.command == command
                && start.label == previewed(command, 100)
        }),
        forall|error: String| (#[trigger] tracked_start(call, Some(args), Err(error))) is None,
        tracked_start(call, None, Ok(output)) is None,
{
    match get(args, "background"@) {
        Some(JsonView::Bool(value)) => {
            assert(bool_of(get(args, "background"@)) == Some(value));
        },
        _ => {},
    }
    match get(args, "detached"@) {
        Some(JsonView::Bool(value)) => {
            assert(bool_of(get(args, "detached"@)) == Some(value));
        },
        _ => {},
    }
}

/// A call goes to the first tool of its name with the arguments as they were
/// parsed; arguments that are no JSON and names that no tool has are answered with
/// an error.
pub proof fn calls_find_their_tool(
    call: CallView,
    json: JsonView,
    error: Seq<char>,
    tools: Seq<Seq<char>>,
    at: int,
)
    requires
        0 <= at <= tools.len(),
        forall|i: int| 0 <= i < at ==> (#[trigger] tools[i]) != call.name,
        at < tools.len() ==> tools[at] == call.name,
    ensures
        at < tools.len() ==> resolved_call(call, Ok(json), tools) == Ok::<
            (nat, JsonView),
            Seq<char>,
        >((at as nat, json)),
        at == tools.len() ==> resolved_call(call, Ok(json), tools) == Err::<
            (nat, JsonView),
            Seq<char>,
        >("unknown tool: "@ + call.name),
        resolved_call(call, Err(error), tools) == Err::<(nat, JsonView), Seq<char>>(
            "invalid JSON arguments: "@ + error,
        ),
{
    lemma_named_at(tools, call.name, at);
}

proof fn lemma_named_at(tools: Seq<Seq<char>>, name: Seq<char>, at: int)
    requires
        0 <= at <= tools.len(),
        forall|i: int| 0 <= i < at ==> (#[trigger] tools[i]) != name,
        at < tools.len() ==> tools[at] == name,
    ensures
        first_named(tools, name) == at,
    decreases at,
{
    if at > 0 {
        let rest = tools.drop_first();
        assert(tools[0] != name);
        assert forall|i: int| 0 <= i < at - 1 implies (#[trigger] rest[i]) != name by {
            assert(rest[i] == tools[i + 1]);
        }
        lemma_named_at(rest, name, at - 1);
    }
}

/// A call asks for a background task, or for a detached one, exactly where its
/// arguments are JSON that sets the switch.
pub proof fn calls_ask_by_their_switches(arguments: Seq<char>, key: Seq<char>)
    ensures
        has_flag(call_args(arguments), key) <==> (json_parsed(arguments) matches Ok(json) && get(
            json,
            key,
        ) == Some(JsonView::Bool(true))),
        call_args(arguments) is Some <==> json_parsed(arguments) is Ok,
{
    if let Ok(json) = json_parsed(arguments) {
        match get(json, key) {
            Some(JsonView::Bool(value)) => {
                assert(bool_of(get(json, key)) == Some(value));
            },
            _ => {},
        }
    }
}

/// The context of a session comes from the session: its instructions, directive,
/// goal, history and keys, with the pairing rule restored. A session that nothing
/// has happened in has none of them.
pub proof fn contexts_come_from_the_session(agent: AgentView)
    ensures
        ({
            let source = agent.source();
            &&& source.prefix == agent.context_prefix
            &&& source.reminder == agent.compaction_reminder
            &&& source.goal == agent.goal && source.cleared == agent.goal_cleared
            &&& source.history == agent.history && source.locations == agent.entry_locations
            &&& item_messages(agent.items()) == crate::pairs::repaired(
                item_messages(context_of(source)),
            )
        }),
        ({
            let fresh = fresh_agent();
            &&& fresh.history.len() == 0 && fresh.entry_locations.len() == 0
            &&& fresh.pending_background.len() == 0
            &&& fresh.running_background == Set::<u64>::empty()
            &&& fresh.session_input_tokens == 0 && fresh.session_output_tokens == 0
            &&& fresh.last_context_input == 0 && fresh.context_window is None
            &&& fresh.max_tool_rounds is None && !fresh.auto_compacted
            &&& fresh.context_prefix is None && fresh.compaction_reminder is None
            &&& fresh.goal is None && !fresh.goal_cleared
            &&& fresh.compaction_mode == CompactionMode::Main
        }),
{
    crate::context::item_repair_agrees_with_message_repair(context_of(agent.source()));
}

/// The model of a session shows all that the session holds.
pub proof fn sessions_are_seen_whole(agent: Agent)
    ensures
        ({
            let seen = agent.deep_view();
            &&& seen.history == agent.history.deep_view()
            &&& seen.entry_locations == agent.entry_locations.deep_view()
            &&& seen.max_tool_rounds == agent.max_tool_rounds
            &&& seen.pending_background == agent.pending_background.deep_view()
            &&& seen.running_background == agent.running_background@
            &&& seen.session_input_tokens == agent.session_input_tokens
            &&& seen.session_output_tokens == agent.session_output_tokens
            &&& seen.last_context_input == agent.last_context_input
            &&& seen.context_window == agent.context_window
            &&& seen.auto_compacted == agent.auto_compacted
            &&& seen.context_prefix == agent.context_prefix.deep_view()
            &&& seen.compaction_reminder == agent.compaction_reminder.deep_view()
            &&& seen.goal == agent.goal.deep_view() && seen.goal_cleared == agent.goal_cleared
            &&& seen.compaction_mode == agent.compaction_mode
        }),
{
}

} // verus!
