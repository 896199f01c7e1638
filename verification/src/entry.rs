//! The append-only session history.
use vstd::prelude::*;

use crate::goal::{GoalSnapshot, GoalView};
use crate::message::{Message, MessageView, INTERRUPTED};
use crate::text::{decimal, decimal_text, same_text};

verus! {

/// Token accounting for one provider call.
#[derive(Debug, PartialEq, Eq)]
pub struct Usage {
    pub input_tokens: u64,
    pub output_tokens: u64,
    /// Prompt tokens served from the provider's cache, where it reports them.
    pub cache_hit_tokens: Option<u64>,
    /// Prompt tokens that missed the provider's cache, where it reports them.
    pub cache_miss_tokens: Option<u64>,
    /// Count of reasoning tokens, where the provider reports it.
    pub reasoning_tokens: Option<u64>,
    /// Provider finish reason, e.g. "stop" or "tool_calls".
    pub finish_reason: Option<String>,
}

/// Model of a [`Usage`].
pub struct UsageView {
    pub input_tokens: u64,
    pub output_tokens: u64,
    pub cache_hit_tokens: Option<u64>,
    pub cache_miss_tokens: Option<u64>,
    pub reasoning_tokens: Option<u64>,
    pub finish_reason: Option<Seq<char>>,
}

impl DeepView for Usage {
    type V = UsageView;

    open spec fn deep_view(&self) -> UsageView {
        UsageView {
            input_tokens: self.input_tokens,
            output_tokens: self.output_tokens,
            cache_hit_tokens: self.cache_hit_tokens,
            cache_miss_tokens: self.cache_miss_tokens,
            reasoning_tokens: self.reasoning_tokens,
            finish_reason: self.finish_reason.deep_view(),
        }
    }
}

/// A usage report of the two token counts alone.
pub open spec fn plain_usage(input_tokens: u64, output_tokens: u64) -> UsageView {
    UsageView {
        input_tokens,
        output_tokens,
        cache_hit_tokens: None,
        cache_miss_tokens: None,
        reasoning_tokens: None,
        finish_reason: None,
    }
}

impl Clone for Usage {
    fn clone(&self) -> (r: Self)
        ensures
            r.deep_view() == self.deep_view(),
    {
        Usage {
            input_tokens: self.input_tokens,
            output_tokens: self.output_tokens,
            cache_hit_tokens: self.cache_hit_tokens,
            cache_miss_tokens: self.cache_miss_tokens,
            reasoning_tokens: self.reasoning_tokens,
            finish_reason: self.finish_reason.clone(),
        }
    }
}

impl Default for Usage {
    fn default() -> (r: Self)
        ensures
            r.deep_view() == plain_usage(0, 0),
    {
        Usage {
            input_tokens: 0,
            output_tokens: 0,
            cache_hit_tokens: None,
            cache_miss_tokens: None,
            reasoning_tokens: None,
            finish_reason: None,
        }
    }
}

impl Usage {
    /// A usage report of the two token counts alone.
    pub fn of(input_tokens: u64, output_tokens: u64) -> (r: Self)
        ensures
            r.deep_view() == plain_usage(input_tokens, output_tokens),
    {
        let mut usage = Usage::default();
        usage.input_tokens = input_tokens;
        usage.output_tokens = output_tokens;
        usage
    }
}

/// The sum of two counts; a count that is not reported adds nothing.
pub open spec fn count_sum(a: Option<u64>, b: Option<u64>) -> Option<u64> {
    match (a, b) {
        (Some(x), Some(y)) => Some((x + y) as u64),
        (Some(x), None) => Some(x),
        (None, _) => b,
    }
}

/// Whether a sum of two counts is a count.
pub open spec fn count_fits(a: Option<u64>, b: Option<u64>) -> bool {
    a matches Some(x) ==> b matches Some(y) ==> x + y <= u64::MAX
}

/// What two provider calls used together; the later one says how it ended.
pub open spec fn usage_sum(a: UsageView, b: UsageView) -> UsageView {
    UsageView {
        input_tokens: (a.input_tokens + b.input_tokens) as u64,
        output_tokens: (a.output_tokens + b.output_tokens) as u64,
        cache_hit_tokens: count_sum(a.cache_hit_tokens, b.cache_hit_tokens),
        cache_miss_tokens: count_sum(a.cache_miss_tokens, b.cache_miss_tokens),
        reasoning_tokens: count_sum(a.reasoning_tokens, b.reasoning_tokens),
        finish_reason: match b.finish_reason {
            Some(reason) => Some(reason),
            None => a.finish_reason,
        },
    }
}

/// What two provider calls used together, as far as they report it.
pub open spec fn usage_total(a: Option<UsageView>, b: Option<UsageView>) -> Option<UsageView> {
    match (a, b) {
        (Some(x), Some(y)) => Some(usage_sum(x, y)),
        (Some(x), None) => Some(x),
        (None, _) => b,
    }
}

/// Whether what two provider calls used together can be counted.
pub open spec fn total_fits(a: Option<UsageView>, b: Option<UsageView>) -> bool {
    a matches Some(x) ==> b matches Some(y) ==> {
        &&& x.input_tokens + y.input_tokens <= u64::MAX
        &&& x.output_tokens + y.output_tokens <= u64::MAX
        &&& count_fits(x.cache_hit_tokens, y.cache_hit_tokens)
        &&& count_fits(x.cache_miss_tokens, y.cache_miss_tokens)
        &&& count_fits(x.reasoning_tokens, y.reasoning_tokens)
    }
}

fn add_counts(a: Option<u64>, b: Option<u64>) -> (r: Option<u64>)
    requires
        count_fits(a, b),
    ensures
        r == count_sum(a, b),
{
    match (a, b) {
        (Some(x), Some(y)) => Some(x + y),
        (Some(x), None) => Some(x),
        (None, _) => b,
    }
}

/// What two provider calls used together, as far as they report it.
pub fn add_usage(a: Option<Usage>, b: Option<Usage>) -> (r: Option<Usage>)
    requires
        total_fits(a.deep_view(), b.deep_view()),
    ensures
        r.deep_view() == usage_total(a.deep_view(), b.deep_view()),
{
    match (a, b) {
        (Some(x), Some(y)) => {
            let finish_reason = match y.finish_reason {
                Some(reason) => Some(reason),
                None => x.finish_reason,
            };
            Some(
                Usage {
                    input_tokens: x.input_tokens + y.input_tokens,
                    output_tokens: x.output_tokens + y.output_tokens,
                    cache_hit_tokens: add_counts(x.cache_hit_tokens, y.cache_hit_tokens),
                    cache_miss_tokens: add_counts(x.cache_miss_tokens, y.cache_miss_tokens),
                    reasoning_tokens: add_counts(x.reasoning_tokens, y.reasoning_tokens),
                    finish_reason,
                },
            )
        },
        (Some(x), None) => Some(x),
        (None, b) => b,
    }
}

/// Structured metadata of a finished background task.
#[derive(Debug, PartialEq, Eq)]
pub struct BackgroundTrace {
    /// Epoch milliseconds at task start.
    pub started_at_ms: Option<u64>,
    /// Wall duration in milliseconds.
    pub duration_ms: Option<u64>,
    /// Process exit code.
    pub exit_code: Option<i32>,
    /// Terminating signal, e.g. "SIGTERM".
    pub signal: Option<String>,
    /// "completed", "failed" or "killed".
    pub status: Option<String>,
    /// "bash" or "delegate".
    pub kind: Option<String>,
}

/// Model of a [`BackgroundTrace`].
pub struct TraceView {
    pub started_at_ms: Option<u64>,
    pub duration_ms: Option<u64>,
    pub exit_code: Option<i32>,
    pub signal: Option<Seq<char>>,
    pub status: Option<Seq<char>>,
    pub kind: Option<Seq<char>>,
}

impl DeepView for BackgroundTrace {
    type V = TraceView;

    open spec fn deep_view(&self) -> TraceView {
        TraceView {
            started_at_ms: self.started_at_ms,
            duration_ms: self.duration_ms,
            exit_code: self.exit_code,
            signal: self.signal.deep_view(),
            status: self.status.deep_view(),
            kind: self.kind.deep_view(),
        }
    }
}

impl Clone for BackgroundTrace {
    fn clone(&self) -> (r: Self)
        ensures
            r.deep_view() == self.deep_view(),
    {
        BackgroundTrace {
            started_at_ms: self.started_at_ms,
            duration_ms: self.duration_ms,
            exit_code: self.exit_code,
            signal: self.signal.clone(),
            status: self.status.clone(),
            kind: self.kind.clone(),
        }
    }
}

impl Default for BackgroundTrace {
    fn default() -> (r: Self)
        ensures
            r.deep_view() == (TraceView {
                started_at_ms: None,
                duration_ms: None,
                exit_code: None,
                signal: None,
                status: None,
                kind: None,
            }),
    {
        BackgroundTrace {
            started_at_ms: None,
            duration_ms: None,
            exit_code: None,
            signal: None,
            status: None,
            kind: None,
        }
    }
}

/// One entry in the append-only session history. The model context is derived
/// from the latest compaction and everything after it; older entries stay for
/// display and audit.
#[derive(Debug, PartialEq)]
pub enum SessionEntry {
    Message { message: Message },
    Compaction {
        summary: String,
        /// The turn kept verbatim for the model context.
        retained: Vec<Message>,
        /// Index of the current prompt inside `retained`.
        current_prompt_at: Option<usize>,
        /// `retained` is known to hold no current prompt.
        no_current_prompt: bool,
    },
    /// A system-injected notice, shown to the model as a user message.
    Notice { text: String },
    /// The completion of a background task, with its full output.
    BackgroundCompletion {
        id: u64,
        output: String,
        label: Option<String>,
        started_at_ms: Option<u64>,
        duration_ms: Option<u64>,
        exit_code: Option<i32>,
        signal: Option<String>,
        status: Option<String>,
        kind: Option<String>,
    },
    /// Provenance of a forked session; never sent to the provider.
    ForkedFrom { source: String, at: usize, event_time: Option<i64>, seq: Option<i64> },
    /// A harness error, kept for audit; never sent to the provider.
    Error { text: String },
    /// The complete latest goal snapshot; `None` says that it was cleared.
    GoalUpdated { goal: Option<GoalSnapshot> },
}

/// Model of a [`SessionEntry`].
#[verifier::ext_equal]
pub enum EntryView {
    Message { message: MessageView },
    Compaction {
        summary: Seq<char>,
        retained: Seq<MessageView>,
        current_prompt_at: Option<usize>,
        no_current_prompt: bool,
    },
    Notice { text: Seq<char> },
    BackgroundCompletion {
        id: u64,
        output: Seq<char>,
        label: Option<Seq<char>>,
        trace: TraceView,
    },
    ForkedFrom { source: Seq<char>, at: usize, event_time: Option<i64>, seq: Option<i64> },
    Error { text: Seq<char> },
    GoalUpdated { goal: Option<GoalView> },
}

impl DeepView for SessionEntry {
    type V = EntryView;

    open spec fn deep_view(&self) -> EntryView {
        match self {
            SessionEntry::Message { message } => EntryView::Message {
                message: message.deep_view(),
            },
            SessionEntry::Compaction { summary, retained, current_prompt_at, no_current_prompt } => EntryView::Compaction {
                summary: summary@,
                retained: retained.deep_view(),
                current_prompt_at: *current_prompt_at,
                no_current_prompt: *no_current_prompt,
            },
            SessionEntry::Notice { text } => EntryView::Notice { text: text@ },
            SessionEntry::BackgroundCompletion {
                id,
                output,
                label,
                started_at_ms,
                duration_ms,
                exit_code,
                signal,
                status,
                kind,
            } => EntryView::BackgroundCompletion {
                id: *id,
                output: output@,
                label: label.deep_view(),
                trace: TraceView {
                    started_at_ms: *started_at_ms,
                    duration_ms: *duration_ms,
                    exit_code: *exit_code,
                    signal: signal.deep_view(),
                    status: status.deep_view(),
                    kind: kind.deep_view(),
                },
            },
            SessionEntry::ForkedFrom { source, at, event_time, seq } => EntryView::ForkedFrom {
                source: source@,
                at: *at,
                event_time: *event_time,
                seq: *seq,
            },
            SessionEntry::Error { text } => EntryView::Error { text: text@ },
            SessionEntry::GoalUpdated { goal } => EntryView::GoalUpdated { goal: goal.deep_view() },
        }
    }
}

impl Clone for SessionEntry {
    fn clone(&self) -> (r: Self)
        ensures
            r.deep_view() == self.deep_view(),
    {
        match self {
            SessionEntry::Message { message } => SessionEntry::Message { message: message.clone() },
            SessionEntry::Compaction { summary, retained, current_prompt_at, no_current_prompt } => {
                let copied = retained.clone();
                assert(copied.deep_view() =~= retained.deep_view());
                SessionEntry::Compaction {
                    summary: summary.clone(),
                    retained: copied,
                    current_prompt_at: *current_prompt_at,
                    no_current_prompt: *no_current_prompt,
                }
            },
            SessionEntry::Notice { text } => SessionEntry::Notice { text: text.clone() },
            SessionEntry::BackgroundCompletion {
                id,
                output,
                label,
                started_at_ms,
                duration_ms,
                exit_code,
                signal,
                status,
                kind,
            } => SessionEntry::BackgroundCompletion {
                id: *id,
                output: output.clone(),
                label: label.clone(),
                started_at_ms: *started_at_ms,
                duration_ms: *duration_ms,
                exit_code: *exit_code,
                signal: signal.clone(),
                status: status.clone(),
                kind: kind.clone(),
            },
            SessionEntry::ForkedFrom { source, at, event_time, seq } => SessionEntry::ForkedFrom {
                source: source.clone(),
                at: *at,
                event_time: *event_time,
                seq: *seq,
            },
            SessionEntry::Error { text } => SessionEntry::Error { text: text.clone() },
            SessionEntry::GoalUpdated { goal } => SessionEntry::GoalUpdated { goal: goal.clone() },
        }
    }
}

impl From<Message> for SessionEntry {
    fn from(message: Message) -> (r: Self) {
        SessionEntry::Message { message }
    }
}

impl vstd::std_specs::convert::FromSpecImpl<Message> for SessionEntry {
    open spec fn obeys_from_spec() -> bool {
        true
    }

    open spec fn from_spec(message: Message) -> Self {
        SessionEntry::Message { message }
    }
}

/// Whether a marker is at its default and need not be written out.
pub fn is_false(value: &bool) -> (r: bool)
    ensures
        r == !*value,
{
    !*value
}

/// Entries that end a completed turn: an assistant message without tool calls,
/// or a compaction.
pub open spec fn turn_boundary(entry: EntryView) -> bool {
    match entry {
        EntryView::Compaction { .. } => true,
        EntryView::Message { message: MessageView::Assistant(assistant) } => {
            assistant.tool_calls.len() == 0
        },
        _ => false,
    }
}

/// Whether `entry` ends a completed turn.
pub fn is_turn_boundary(entry: &SessionEntry) -> (r: bool)
    ensures
        r == turn_boundary(entry.deep_view()),
{
    match entry {
        SessionEntry::Compaction { .. } => true,
        SessionEntry::Message { message: Message::Assistant(assistant) } => {
            assistant.tool_calls.is_empty()
        },
        _ => false,
    }
}

/// Number of entries up to and with the last completed turn; 0 without one.
pub open spec fn completed_len(entries: Seq<EntryView>) -> nat
    decreases entries.len(),
{
    if entries.len() == 0 || turn_boundary(entries.last()) {
        entries.len()
    } else {
        completed_len(entries.drop_last())
    }
}

/// The refusal of a fork point outside the session.
pub open spec fn fork_range_error(at: usize, len: nat) -> Seq<char> {
    "fork point "@ + decimal(at as nat) + " is out of range: session has "@ + decimal(len)
        + " entries"@
}

/// The refusal of a fork point inside a turn.
pub open spec fn fork_boundary_error(at: usize) -> Seq<char> {
    "fork point "@ + decimal(at as nat)
        + " is not a turn boundary (an assistant message with no pending tool calls, or a compaction)"@
}

/// The history that a fork keeps: up to and with entry number `at`, counted
/// from 1, which has to end a completed turn; without `at`, up to and with the
/// last completed turn.
pub open spec fn forked(entries: Seq<EntryView>, at: Option<usize>) -> Result<
    Seq<EntryView>,
    Seq<char>,
> {
    if entries.len() == 0 {
        Err("no completed turn in session"@)
    } else {
        match at {
            Some(n) => if n == 0 || n > entries.len() {
                Err(fork_range_error(n, entries.len()))
            } else if !turn_boundary(entries[n - 1]) {
                Err(fork_boundary_error(n))
            } else {
                Ok(entries.take(n as int))
            },
            None => if completed_len(entries) == 0 {
                Err("no completed turn in session"@)
            } else {
                Ok(entries.take(completed_len(entries) as int))
            },
        }
    }
}

/// A result over entries, seen through their models.
pub open spec fn entries_result(r: Result<Vec<SessionEntry>, String>) -> Result<
    Seq<EntryView>,
    Seq<char>,
> {
    match r {
        Ok(entries) => Ok(entries.deep_view()),
        Err(error) => Err(error@),
    }
}

/// The models of the entries in a slice.
pub open spec fn entry_views(entries: Seq<SessionEntry>) -> Seq<EntryView> {
    entries.map_values(|entry: SessionEntry| entry.deep_view())
}

proof fn lemma_completed_len(entries: Seq<EntryView>, n: nat)
    requires
        n <= entries.len(),
        forall|i: int| n <= i < entries.len() ==> !turn_boundary(#[trigger] entries[i]),
        n > 0 ==> turn_boundary(entries[n - 1]),
    ensures
        completed_len(entries) == n,
    decreases entries.len(),
{
    if entries.len() > n {
        assert(!turn_boundary(entries[entries.len() - 1]));
        lemma_completed_len(entries.drop_last(), n);
    }
}

/// The entries `entries[..n]`.
pub fn copy_prefix(entries: &[SessionEntry], n: usize) -> (r: Vec<SessionEntry>)
    requires
        n <= entries@.len(),
    ensures
        r.deep_view() == entry_views(entries@).take(n as int),
{
    let mut out: Vec<SessionEntry> = Vec::new();
    let mut i: usize = 0;
    while i < n
        invariant
            i <= n <= entries@.len(),
            out@.len() == i,
            forall|j: int|
                0 <= j < i ==> (#[trigger] out@[j]).deep_view() == entries@[j].deep_view(),
        decreases n - i,
    {
        out.push(entries[i].clone());
        i += 1;
    }
    assert(out.deep_view() =~= entry_views(entries@).take(n as int));
    out
}

/// The history prefix that a fork keeps. It always ends at a completed turn,
/// so that the forked session never starts mid-turn.
pub fn fork_prefix(entries: &[SessionEntry], at: Option<usize>) -> (r: Result<
    Vec<SessionEntry>,
    String,
>)
    ensures
        entries_result(r) == forked(entry_views(entries@), at),
{
    if entries.is_empty() {
        return Err("no completed turn in session".to_owned());
    }
    match at {
        Some(n) => {
            if n == 0 || n > entries.len() {
                let mut error = String::new();
                error.push_str("fork point ");
                error.push_str(decimal_text(n as u64).as_str());
                error.push_str(" is out of range: session has ");
                error.push_str(decimal_text(entries.len() as u64).as_str());
                error.push_str(" entries");
                assert(error@ =~= fork_range_error(n, entries@.len()));
                return Err(error);
            }
            if !is_turn_boundary(&entries[n - 1]) {
                let mut error = String::new();
                error.push_str("fork point ");
                error.push_str(decimal_text(n as u64).as_str());
                error.push_str(
                    " is not a turn boundary (an assistant message with no pending tool calls, or a compaction)",
                );
                assert(error@ =~= fork_boundary_error(n));
                return Err(error);
            }
            Ok(copy_prefix(entries, n))
        },
        None => {
            let mut n: usize = entries.len();
            while n > 0 && !is_turn_boundary(&entries[n - 1])
                invariant
                    n <= entries@.len(),
                    forall|i: int|
                        n <= i < entries@.len() ==> !turn_boundary(
                            #[trigger] entry_views(entries@)[i],
                        ),
                decreases n,
            {
                n -= 1;
            }
            proof {
                lemma_completed_len(entry_views(entries@), n as nat);
            }
            if n == 0 {
                return Err("no completed turn in session".to_owned());
            }
            Ok(copy_prefix(entries, n))
        },
    }
}

/// A fork keeps a prefix of the history that is not empty and ends at a
/// completed turn; forking a fork without a fork point keeps all of it.
pub proof fn forks_end_at_a_turn_boundary(entries: Seq<EntryView>, at: Option<usize>)
    ensures
        forked(entries, at) matches Ok(kept) ==> kept.len() > 0 && kept.is_prefix_of(entries)
            && turn_boundary(kept.last()) && forked(kept, None) == Ok::<
            Seq<EntryView>,
            Seq<char>,
        >(kept),
{
    lemma_completed_len_is_boundary(entries);
    if let Ok(kept) = forked(entries, at) {
        lemma_completed_len_is_boundary(kept);
        assert(kept.take(kept.len() as int) =~= kept);
    }
}

proof fn lemma_completed_len_is_boundary(entries: Seq<EntryView>)
    ensures
        completed_len(entries) <= entries.len(),
        completed_len(entries) > 0 ==> turn_boundary(entries[completed_len(entries) - 1]),
    decreases entries.len(),
{
    if entries.len() > 0 && !turn_boundary(entries.last()) {
        lemma_completed_len_is_boundary(entries.drop_last());
    }
}

/// Without a fork point, a fork fails exactly when no turn was completed, and
/// otherwise keeps every completed turn: nothing after the kept part ends one.
pub proof fn default_forks_keep_all_turns(entries: Seq<EntryView>)
    ensures
        forked(entries, None) is Ok <==> exists|i: int|
            0 <= i < entries.len() && turn_boundary(#[trigger] entries[i]),
        forked(entries, None) matches Ok(kept) ==> forall|i: int|
            kept.len() <= i < entries.len() ==> !turn_boundary(#[trigger] entries[i]),
{
    lemma_completed_len_is_last(entries);
    lemma_completed_len_is_boundary(entries);
}

proof fn lemma_completed_len_is_last(entries: Seq<EntryView>)
    ensures
        forall|i: int|
            completed_len(entries) <= i < entries.len() ==> !turn_boundary(#[trigger] entries[i]),
    decreases entries.len(),
{
    if entries.len() > 0 && !turn_boundary(entries.last()) {
        let head = entries.drop_last();
        lemma_completed_len_is_last(head);
        assert forall|i: int| completed_len(entries) <= i < entries.len() implies !turn_boundary(
            #[trigger] entries[i],
        ) by {
            if i < head.len() {
                assert(head[i] == entries[i]);
            }
        }
    }
}

/// The goal that a history leaves behind: that of its newest goal update, and
/// whether that update was a clearing.
pub open spec fn folded_goal(history: Seq<EntryView>) -> (Option<GoalView>, bool)
    decreases history.len(),
{
    if history.len() == 0 {
        (None, false)
    } else {
        match history.last() {
            EntryView::GoalUpdated { goal } => (goal, goal is None),
            _ => folded_goal(history.drop_last()),
        }
    }
}

/// The newest goal update of a history, and whether it was a clearing.
pub fn fold_goal(history: &Vec<SessionEntry>) -> (r: (Option<GoalSnapshot>, bool))
    ensures
        (r.0.deep_view(), r.1) == folded_goal(history.deep_view()),
{
    let mut n: usize = history.len();
    assert(history.deep_view().take(n as int) =~= history.deep_view());
    while n > 0
        invariant
            n <= history.len(),
            folded_goal(history.deep_view()) == folded_goal(history.deep_view().take(n as int)),
        decreases n,
    {
        proof {
            let head = history.deep_view().take(n as int);
            assert(head.last() == history@[n - 1].deep_view());
            assert(head.drop_last() =~= history.deep_view().take(n - 1));
        }
        if let SessionEntry::GoalUpdated { goal } = &history[n - 1] {
            return (goal.clone(), goal.is_none());
        }
        n -= 1;
    }
    (None, false)
}

/// A placeholder older than the `synthetic` flag gets the flag: an error
/// result with exactly the interrupted-turn text.
pub open spec fn flagged(message: MessageView) -> MessageView {
    match message {
        MessageView::Tool { call_id, name, content, images, is_error, synthetic } => if is_error
            && content == INTERRUPTED@ {
            MessageView::Tool { call_id, name, content, images, is_error, synthetic: true }
        } else {
            message
        },
        _ => message,
    }
}

/// An entry with the placeholders in it flagged.
pub open spec fn migrated(entry: EntryView) -> EntryView {
    match entry {
        EntryView::Message { message } => EntryView::Message { message: flagged(message) },
        EntryView::Compaction { summary, retained, current_prompt_at, no_current_prompt } => EntryView::Compaction {
            summary,
            retained: retained.map_values(|message: MessageView| flagged(message)),
            current_prompt_at,
            no_current_prompt,
        },
        _ => entry,
    }
}

/// Flag a placeholder written before the `synthetic` field existed. A real
/// result with the same text that is no error stays untouched.
pub fn mark_legacy_placeholder(message: &mut Message)
    ensures
        final(message).deep_view() == flagged(old(message).deep_view()),
{
    if let Message::Tool { content, is_error, synthetic, .. } = message {
        if *is_error && !*synthetic && same_text(content.as_str(), INTERRUPTED) {
            *synthetic = true;
        }
    }
}

/// Flag the placeholders of a history written before the `synthetic` field
/// existed, in messages and in the retained part of compactions.
pub fn migrate_legacy_placeholders(history: Vec<SessionEntry>) -> (r: Vec<SessionEntry>)
    ensures
        r.deep_view() == history.deep_view().map_values(|entry: EntryView| migrated(entry)),
{
    let ghost before = history@;
    let mut history = history;
    let mut i: usize = 0;
    while i < history.len()
        invariant
            i <= history@.len() == before.len(),
            forall|j: int|
                0 <= j < i ==> (#[trigger] history@[j]).deep_view() == migrated(
                    before[j].deep_view(),
                ),
            forall|j: int| i <= j < before.len() ==> history@[j] == before[j],
        decreases history@.len() - i,
    {
        match &history[i] {
            SessionEntry::Message { message } => {
                let mut marked = message.clone();
                mark_legacy_placeholder(&mut marked);
                history.set(i, SessionEntry::Message { message: marked });
            },
            SessionEntry::Compaction { summary, retained, current_prompt_at, no_current_prompt } => {
                let ghost kept = retained.deep_view();
                let mut marked: Vec<Message> = Vec::new();
                let mut k: usize = 0;
                while k < retained.len()
                    invariant
                        k <= retained.len(),
                        marked@.len() == k,
                        kept == retained.deep_view(),
                        forall|j: int|
                            0 <= j < k ==> (#[trigger] marked@[j]).deep_view() == flagged(kept[j]),
                    decreases retained.len() - k,
                {
                    let mut message = retained[k].clone();
                    mark_legacy_placeholder(&mut message);
                    marked.push(message);
                    k += 1;
                }
                assert(marked.deep_view() =~= kept.map_values(
                    |message: MessageView| flagged(message),
                ));
                let entry = SessionEntry::Compaction {
                    summary: summary.clone(),
                    retained: marked,
                    current_prompt_at: *current_prompt_at,
                    no_current_prompt: *no_current_prompt,
                };
                history.set(i, entry);
            },
            _ => {},
        }
        i += 1;
    }
    assert(history.deep_view() =~= entry_views(before).map_values(
        |entry: EntryView| migrated(entry),
    ));
    assert(entry_views(before) =~= Seq::new(before.len(), |j: int| before[j].deep_view()));
    history
}

/// Migrating a migrated history changes nothing, and no migration changes the
/// goal that the history leaves behind or where its turns end.
pub proof fn migration_is_idempotent(entry: EntryView)
    ensures
        migrated(migrated(entry)) == migrated(entry),
        turn_boundary(migrated(entry)) == turn_boundary(entry),
        entry is GoalUpdated ==> migrated(entry) == entry,
        migrated(entry) is GoalUpdated <==> entry is GoalUpdated,
{
    if let EntryView::Compaction { retained, .. } = entry {
        let once = retained.map_values(|message: MessageView| flagged(message));
        assert(once.map_values(|message: MessageView| flagged(message)) =~= once);
    }
}

/// Appending entries that update no goal leaves the folded goal as it was, and
/// appending a goal update makes it the folded goal: the newest update wins.
pub proof fn newest_goal_wins(history: Seq<EntryView>, entry: EntryView)
    ensures
        folded_goal(history.push(entry)) == match entry {
            EntryView::GoalUpdated { goal } => (goal, goal is None),
            _ => folded_goal(history),
        },
{
    assert(history.push(entry).drop_last() =~= history);
}

/// Two usage reports add up count by count; what neither reports stays unreported,
/// and the later report says how the answer ended.
pub proof fn usage_adds_up(a: UsageView, b: UsageView)
    requires
        total_fits(Some(a), Some(b)),
    ensures
        usage_total(Some(a), Some(b)) matches Some(sum) && {
            let count = |x: Option<u64>| if x is Some {
                x->0 as int
            } else {
                0
            };
            &&& sum.input_tokens == a.input_tokens + b.input_tokens
            &&& sum.output_tokens == a.output_tokens + b.output_tokens
            &&& count(sum.cache_hit_tokens) == count(a.cache_hit_tokens) + count(b.cache_hit_tokens)
            &&& count(sum.cache_miss_tokens) == count(a.cache_miss_tokens) + count(
                b.cache_miss_tokens,
            )
            &&& count(sum.reasoning_tokens) == count(a.reasoning_tokens) + count(b.reasoning_tokens)
            &&& sum.cache_hit_tokens is Some <==> a.cache_hit_tokens is Some
                || b.cache_hit_tokens is Some
            &&& sum.cache_miss_tokens is Some <==> a.cache_miss_tokens is Some
                || b.cache_miss_tokens is Some
            &&& sum.reasoning_tokens is Some <==> a.reasoning_tokens is Some
                || b.reasoning_tokens is Some
            &&& b.finish_reason is Some ==> sum.finish_reason == b.finish_reason
            &&& b.finish_reason is None ==> sum.finish_reason == a.finish_reason
        },
        usage_total(Some(a), None) == Some(a),
        usage_total(None, Some(b)) == Some(b),
        usage_total(None, None) is None,
        plain_usage(a.input_tokens, a.output_tokens).input_tokens == a.input_tokens,
        plain_usage(a.input_tokens, a.output_tokens).output_tokens == a.output_tokens,
{
}

/// A turn ends with an answer that calls no tool, or with a compaction, and with
/// nothing else.
pub proof fn turns_end_with_an_answer(entry: EntryView)
    ensures
        turn_boundary(entry) <==> entry is Compaction || (entry matches EntryView::Message {
            message: MessageView::Assistant(assistant),
        } && assistant.tool_calls.len() == 0),
{
}

/// A fork at a given entry keeps exactly the entries up to and with it, and is
/// refused where that entry does not exist or ends no turn.
pub proof fn forks_keep_up_to_their_point(entries: Seq<EntryView>, n: usize)
    ensures
        forked(entries, Some(n)) is Ok <==> 1 <= n <= entries.len() && (
        entries[n - 1] is Compaction || (entries[n - 1] matches EntryView::Message {
            message: MessageView::Assistant(assistant),
        } && assistant.tool_calls.len() == 0)),
        forked(entries, Some(n)) matches Ok(kept) ==> kept.len() == n && forall|i: int|
            0 <= i < n ==> (#[trigger] kept[i]) == entries[i],
        forked(entries, None) matches Ok(kept) ==> forall|i: int|
            0 <= i < kept.len() ==> (#[trigger] kept[i]) == entries[i],
{
    lemma_completed_len_is_boundary(entries);
}

/// Migration flags the placeholders of old sessions, which are error results with
/// the text of an interrupted turn, and touches nothing else.
pub proof fn migration_only_flags_placeholders(message: MessageView, entry: EntryView)
    ensures
        match message {
            MessageView::Tool { call_id, name, content, images, is_error, synthetic } => flagged(
                message,
            ) == (MessageView::Tool {
                call_id,
                name,
                content,
                images,
                is_error,
                synthetic: synthetic || (is_error && content
                    == "[turn interrupted before a tool result was produced]"@),
            }),
            _ => flagged(message) == message,
        },
        match entry {
            EntryView::Message { message } => migrated(entry) == (EntryView::Message {
                message: flagged(message),
            }),
            EntryView::Compaction { summary, retained, current_prompt_at, no_current_prompt } => {
                &&& migrated(entry) matches EntryView::Compaction {
                    summary: same,
                    retained: kept,
                    current_prompt_at: at,
                    no_current_prompt: none,
                }
                &&& same == summary && at == current_prompt_at && none == no_current_prompt
                &&& kept.len() == retained.len()
                &&& forall|i: int|
                    0 <= i < kept.len() ==> (#[trigger] kept[i]) == flagged(retained[i])
            },
            _ => migrated(entry) == entry,
        },
{
}

/// A history without goal updates leaves no goal and none that was cleared.
pub proof fn goals_come_from_updates(history: Seq<EntryView>)
    requires
        forall|i: int| 0 <= i < history.len() ==> !((#[trigger] history[i]) is GoalUpdated),
    ensures
        folded_goal(history) == (None::<GoalView>, false),
    decreases history.len(),
{
    if history.len() > 0 {
        assert(!(history[history.len() - 1] is GoalUpdated));
        goals_come_from_updates(history.drop_last());
    }
}

/// The models of usage reports show all that they hold.
pub proof fn usage_is_seen_whole(usage: Usage)
    ensures
        usage.deep_view().input_tokens == usage.input_tokens,
        usage.deep_view().output_tokens == usage.output_tokens,
        usage.deep_view().cache_hit_tokens == usage.cache_hit_tokens,
        usage.deep_view().cache_miss_tokens == usage.cache_miss_tokens,
        usage.deep_view().reasoning_tokens == usage.reasoning_tokens,
        usage.deep_view().finish_reason == usage.finish_reason.deep_view(),
{
}

/// A fork point that does not exist, or that ends no turn, is refused by its number.
pub proof fn fork_points_are_refused_by_number(entries: Seq<EntryView>, n: usize)
    requires
        entries.len() > 0,
    ensures
        n == 0 || n > entries.len() ==> forked(entries, Some(n)) == Err::<
            Seq<EntryView>,
            Seq<char>,
        >(
            "fork point "@ + decimal(n as nat) + " is out of range: session has "@ + decimal(
                entries.len(),
            ) + " entries"@,
        ),
        1 <= n <= entries.len() && !turn_boundary(entries[n - 1]) ==> forked(entries, Some(n))
            == Err::<Seq<EntryView>, Seq<char>>(
            "fork point "@ + decimal(n as nat)
                + " is not a turn boundary (an assistant message with no pending tool calls, or a compaction)"@,
        ),
{
}

/// The models of a list of entries are those of its entries, in order.
pub proof fn entries_are_seen_one_by_one(entries: Seq<SessionEntry>, i: int)
    ensures
        entry_views(entries).len() == entries.len(),
        0 <= i < entries.len() ==> entry_views(entries)[i] == entries[i].deep_view(),
{
}

} // verus!
