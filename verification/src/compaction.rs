//! Compaction: which part of a context a summary replaces, and which part is
//! retained verbatim.
use vstd::prelude::*;

use crate::context::{
    compacted_len, compaction_items, context_of, end_of_prompt, item_messages, lead_items,
    location_at, project_item, projected, prompt_len, tail_items, unmarked_items, ContextItem,
    ItemView, SourceView,
};
use crate::entry::{add_usage, total_fits, usage_total, EntryView, SessionEntry, Usage, UsageView};
use crate::gate::{flaw_of, gate_error, gate_words, summary_flaw};
use crate::message::{
    strip_images, stripped, AssistantMessage, AssistantView, Message, MessageView,
};
use crate::pairs::{paired, paired_after};
use crate::text::{trim, trimmed};

verus! {

/// Number of most recent messages that a compaction keeps verbatim.
pub const RETAIN_TAIL: usize = 20;

/// The request for the summary, appended to the part that it replaces.
pub const COMPACTION_SUMMARY_PROMPT: &'static str =
    "Summarize the earlier conversation. Preserve the user's goals, decisions made, files changed, and unfinished work. Be concise and use Chinese or English to match the conversation language. Output a plain-text summary only: no tool calls, no XML/DSML/function-call markup, no code blocks. Start directly with the summary content. Do not describe what you are about to do, do not introduce the summary, do not use phrases like 'here is a summary' or 'I will summarize' or 'this is a compaction request' — output only the summary itself.";

/// What is added to the request for the summary after a rejected attempt.
pub const RETRY_HINT: &'static str =
    " Your previous attempt was rejected: it was no summary. Write down what was asked, decided, changed and left unfinished, in plain text, and nothing about the writing itself.";

/// How a compaction chooses what it retains. Set by the kind of session, never
/// inferred from the history.
#[derive(Clone, Copy, Debug, PartialEq, Eq, Structural)]
pub enum CompactionMode {
    /// The current prompt is the last real user message; it is kept along with
    /// a recent tail.
    Main,
    /// One initial prompt followed by tool activity; a recent tail of activity
    /// is kept.
    SingleTask,
}

impl Default for CompactionMode {
    fn default() -> (r: Self)
        ensures
            r == CompactionMode::Main,
    {
        CompactionMode::Main
    }
}

/// Number of messages up to and with the last assistant message; 0 without one.
pub open spec fn assistant_len(messages: Seq<MessageView>) -> nat
    decreases messages.len(),
{
    if messages.len() == 0 || messages.last() is Assistant {
        messages.len()
    } else {
        assistant_len(messages.drop_last())
    }
}

/// Position of the first assistant message, or the length without one.
pub open spec fn first_assistant(messages: Seq<MessageView>) -> nat
    decreases messages.len(),
{
    if messages.len() == 0 || messages[0] is Assistant {
        0
    } else {
        1 + first_assistant(messages.drop_first())
    }
}

/// Where a tail of at most [`RETAIN_TAIL`] of `len` messages begins.
pub open spec fn tail_start(len: nat) -> nat {
    if len > RETAIN_TAIL {
        (len - RETAIN_TAIL) as nat
    } else {
        0
    }
}

/// Where the retained tail begins behind the current prompt: at the recent
/// tail, moved back to the assistant message that opened a tool batch so that
/// no batch is cut.
pub open spec fn main_split(messages: Seq<MessageView>, prompt: nat) -> nat {
    let candidate = if prompt + 1 > tail_start(messages.len()) {
        prompt + 1
    } else {
        tail_start(messages.len())
    };
    if candidate < messages.len() && messages[candidate as int] is Tool {
        let opened = assistant_len(messages.take(candidate as int));
        if opened > 0 {
            (opened - 1) as nat
        } else {
            candidate
        }
    } else {
        candidate
    }
}

/// Where the retained tail begins in a session of tool activity: at the first
/// assistant message of the recent tail, or the last one before it.
pub open spec fn single_task_split(messages: Seq<MessageView>) -> Option<nat> {
    let start = tail_start(messages.len());
    let later = first_assistant(messages.skip(start as int));
    let earlier = assistant_len(messages.take(start as int));
    if start == 0 {
        None
    } else if start + later < messages.len() {
        Some(start + later)
    } else if earlier > 0 {
        Some((earlier - 1) as nat)
    } else {
        None
    }
}

/// Assistant and tool messages are what a compaction is worth doing for.
pub open spec fn is_activity(message: MessageView) -> bool {
    message is Assistant || message is Tool
}

/// The part before `split`, without the prompt, holds assistant or tool
/// activity.
pub open spec fn replaces_activity(
    messages: Seq<MessageView>,
    split: nat,
    prompt: Option<nat>,
) -> bool {
    exists|i: int|
        0 <= i < split && prompt != Some(i as nat) && is_activity(#[trigger] messages[i])
}

/// Where a compaction cuts the context, and where the current prompt stands;
/// nothing when there is nothing to compact.
pub open spec fn cut(mode: CompactionMode, items: Seq<ItemView>) -> Option<(nat, Option<nat>)> {
    let messages = item_messages(items);
    match mode {
        CompactionMode::Main => if prompt_len(items) == 0 {
            None
        } else {
            let prompt = (prompt_len(items) - 1) as nat;
            let split = main_split(messages, prompt);
            if replaces_activity(messages, split, Some(prompt)) {
                Some((split, Some(prompt)))
            } else {
                None
            }
        },
        CompactionMode::SingleTask => match single_task_split(messages) {
            Some(split) if replaces_activity(messages, split, None) => Some((split, None)),
            _ => None,
        },
    }
}

/// What a compaction with this cut retains verbatim: the current prompt, where
/// there is one, and everything from the split on.
pub open spec fn retained_messages(
    messages: Seq<MessageView>,
    split: nat,
    prompt: Option<nat>,
) -> Seq<MessageView> {
    let tail = messages.skip(split as int);
    match prompt {
        Some(prompt) => seq![messages[prompt as int]] + tail,
        None => tail,
    }
}

/// How many items of the context are summarised: those in front of the split,
/// without the current prompt where nothing of its turn is replaced.
pub open spec fn summarised_len(split: nat, prompt: Option<nat>) -> nat {
    match prompt {
        Some(prompt) if split == prompt + 1 => prompt,
        _ => split,
    }
}

/// A planned compaction.
#[derive(Debug, PartialEq)]
pub struct CompactionPlan {
    /// Everything before this item is replaced, but for the current prompt.
    pub split: usize,
    /// So many items are sent to be summarised.
    pub summarised: usize,
    /// The item that holds the current prompt.
    pub current_prompt: Option<usize>,
    /// The messages kept verbatim.
    pub retained: Vec<Message>,
}

proof fn lemma_assistant_len(messages: Seq<MessageView>, n: nat)
    requires
        n <= messages.len(),
        forall|i: int| n <= i < messages.len() ==> !((#[trigger] messages[i]) is Assistant),
        n > 0 ==> messages[n - 1] is Assistant,
    ensures
        assistant_len(messages) == n,
    decreases messages.len(),
{
    if messages.len() > n {
        assert(!(messages[messages.len() - 1] is Assistant));
        lemma_assistant_len(messages.drop_last(), n);
    }
}

proof fn lemma_first_assistant(messages: Seq<MessageView>, n: nat)
    requires
        n <= messages.len(),
        forall|i: int| 0 <= i < n ==> !((#[trigger] messages[i]) is Assistant),
        n < messages.len() ==> messages[n as int] is Assistant,
    ensures
        first_assistant(messages) == n,
    decreases n,
{
    if n > 0 {
        let rest = messages.drop_first();
        assert forall|i: int| 0 <= i < n - 1 implies !((#[trigger] rest[i]) is Assistant) by {
            assert(rest[i] == messages[i + 1]);
        }
        lemma_first_assistant(rest, (n - 1) as nat);
    }
}

/// Number of the first `to` messages up to and with the last assistant message.
fn end_of_assistant(items: &Vec<ContextItem>, to: usize) -> (r: usize)
    requires
        to <= items@.len(),
    ensures
        r == assistant_len(item_messages(items.deep_view()).take(to as int)),
        r <= to,
{
    let ghost views = item_messages(items.deep_view()).take(to as int);
    let mut n: usize = to;
    while n > 0
        invariant
            n <= to <= items.len(),
            views == item_messages(items.deep_view()).take(to as int),
            forall|i: int| n <= i < views.len() ==> !((#[trigger] views[i]) is Assistant),
        decreases n,
    {
        assert(views[n - 1] == items@[n - 1].message.deep_view());
        if let Message::Assistant(_) = &items[n - 1].message {
            proof {
                lemma_assistant_len(views, n as nat);
            }
            return n;
        }
        n -= 1;
    }
    proof {
        lemma_assistant_len(views, 0);
    }
    0
}

/// Distance from `from` to the first assistant message, or to the end.
fn assistant_offset(items: &Vec<ContextItem>, from: usize) -> (r: usize)
    requires
        from <= items@.len(),
    ensures
        r == first_assistant(item_messages(items.deep_view()).skip(from as int)),
        from + r <= items@.len(),
{
    let ghost views = item_messages(items.deep_view()).skip(from as int);
    let mut n: usize = from;
    while n < items.len()
        invariant
            from <= n <= items.len(),
            views == item_messages(items.deep_view()).skip(from as int),
            forall|i: int| 0 <= i < n - from ==> !((#[trigger] views[i]) is Assistant),
        decreases items.len() - n,
    {
        assert(views[n - from] == items@[n as int].message.deep_view());
        if let Message::Assistant(_) = &items[n].message {
            proof {
                lemma_first_assistant(views, (n - from) as nat);
            }
            return n - from;
        }
        n += 1;
    }
    proof {
        lemma_first_assistant(views, (n - from) as nat);
    }
    n - from
}

/// Whether the part before `split`, without the prompt, holds activity.
fn has_activity(items: &Vec<ContextItem>, split: usize, prompt: Option<usize>) -> (r: bool)
    requires
        split <= items@.len(),
    ensures
        r == replaces_activity(
            item_messages(items.deep_view()),
            split as nat,
            match prompt {
                Some(index) => Some(index as nat),
                None => None,
            },
        ),
{
    let ghost views = item_messages(items.deep_view());
    let ghost at = match prompt {
        Some(index) => Some(index as nat),
        None => None,
    };
    let mut i: usize = 0;
    while i < split
        invariant
            i <= split <= items.len(),
            views == item_messages(items.deep_view()),
            at == (match prompt {
                Some(index) => Some(index as nat),
                None => None,
            }),
            forall|j: int|
                0 <= j < i ==> !(at != Some(j as nat) && is_activity(#[trigger] views[j])),
        decreases split - i,
    {
        let active = match &items[i].message {
            Message::Assistant(_) => true,
            Message::Tool { .. } => true,
            _ => false,
        };
        let is_prompt = match prompt {
            Some(index) => index == i,
            None => false,
        };
        assert(views[i as int] == items@[i as int].message.deep_view());
        if active && !is_prompt {
            return true;
        }
        i += 1;
    }
    false
}

/// Copies of the messages of `items[from..]`, behind those already in `out`.
fn push_messages(out: &mut Vec<Message>, items: &Vec<ContextItem>, from: usize)
    requires
        from <= items@.len(),
    ensures
        final(out).deep_view() == old(out).deep_view() + item_messages(items.deep_view()).skip(
            from as int,
        ),
{
    let ghost before = out.deep_view();
    let ghost views = item_messages(items.deep_view());
    let mut i: usize = from;
    assert(before + views.subrange(from as int, from as int) =~= before);
    while i < items.len()
        invariant
            from <= i <= items.len(),
            views == item_messages(items.deep_view()),
            out.deep_view() == before + views.subrange(from as int, i as int),
        decreases items.len() - i,
    {
        let ghost now = out.deep_view();
        out.push(items[i].message.clone());
        assert(out.deep_view() =~= now.push(views[i as int]));
        i += 1;
        assert(before + views.subrange(from as int, i as int) =~= (before + views.subrange(
            from as int,
            i - 1,
        )).push(views[i - 1]));
    }
    assert(views.subrange(from as int, views.len() as int) =~= views.skip(from as int));
}

/// Plan the compaction of a repaired context: where it is cut and what it
/// retains, or the refusal when there is nothing to compact.
pub fn plan_compaction(mode: CompactionMode, items: &Vec<ContextItem>) -> (r: Result<
    CompactionPlan,
    String,
>)
    ensures
        r is Ok <==> cut(mode, items.deep_view()) is Some,
        r matches Ok(plan) ==> {
            let (split, prompt) = cut(mode, items.deep_view())->0;
            &&& plan.split == split
            &&& plan.summarised == summarised_len(split, prompt)
            &&& plan.summarised <= plan.split <= items@.len()
            &&& prompt == match plan.current_prompt {
                Some(index) => Some(index as nat),
                None => None,
            }
            &&& plan.retained.deep_view() == retained_messages(
                item_messages(items.deep_view()),
                split,
                prompt,
            )
        },
        r matches Err(error) ==> error@ == "nothing to compact"@,
{
    let ghost views = item_messages(items.deep_view());
    let len: usize = items.len();
    let start: usize = if len > RETAIN_TAIL {
        len - RETAIN_TAIL
    } else {
        0
    };
    let mut split: usize = 0;
    let mut current_prompt: Option<usize> = None;
    match mode {
        CompactionMode::Main => {
            let end: usize = end_of_prompt(items);
            if end == 0 {
                return Err("nothing to compact".to_owned());
            }
            current_prompt = Some(end - 1);
            let candidate: usize = if end > start {
                end
            } else {
                start
            };
            split = candidate;
            if candidate < len {
                assert(views[candidate as int] == items@[candidate as int].message.deep_view());
                if let Message::Tool { .. } = &items[candidate].message {
                    let opened: usize = end_of_assistant(items, candidate);
                    if opened > 0 {
                        split = opened - 1;
                    }
                }
            }
            assert(split == main_split(views, (end - 1) as nat));
        },
        CompactionMode::SingleTask => {
            if start == 0 {
                return Err("nothing to compact".to_owned());
            }
            let offset: usize = assistant_offset(items, start);
            if start + offset < len {
                split = start + offset;
            } else {
                let earlier: usize = end_of_assistant(items, start);
                if earlier == 0 {
                    return Err("nothing to compact".to_owned());
                }
                split = earlier - 1;
            }
        },
    }
    if !has_activity(items, split, current_prompt) {
        return Err("nothing to compact".to_owned());
    }
    let mut retained: Vec<Message> = Vec::new();
    if let Some(prompt) = current_prompt {
        retained.push(items[prompt].message.clone());
        assert(retained.deep_view() =~= seq![views[prompt as int]]);
    } else {
        assert(retained.deep_view() =~= Seq::empty());
    }
    push_messages(&mut retained, items, split);
    assert(retained.deep_view() =~= retained_messages(
        views,
        split as nat,
        match current_prompt {
            Some(index) => Some(index as nat),
            None => None,
        },
    ));
    let summarised: usize = match current_prompt {
        Some(prompt) => if split == prompt + 1 {
            prompt
        } else {
            split
        },
        None => split,
    };
    Ok(CompactionPlan { split, summarised, current_prompt, retained })
}

/// The request copy of one item: projected, and stripped of its images for a
/// model without vision.
pub open spec fn request_message(
    item: ItemView,
    bounded: Option<Seq<char>>,
    vision: bool,
) -> MessageView {
    if vision {
        projected(item, bounded)
    } else {
        stripped(projected(item, bounded))
    }
}

/// The request copies of `items[..n]`, each with its bounded text.
pub open spec fn request_messages(
    items: Seq<ItemView>,
    bounded: Seq<Option<Seq<char>>>,
    vision: bool,
    n: nat,
) -> Seq<MessageView> {
    Seq::new(n, |i: int| request_message(items[i], bounded[i], vision))
}

/// The request copies of `items[..n]`: `bounded` holds for each item the
/// bounded text of its field, where that had to be bounded.
pub fn request_copies(
    items: &Vec<ContextItem>,
    bounded: &Vec<Option<String>>,
    vision: bool,
    n: usize,
) -> (r: Vec<Message>)
    requires
        n <= items@.len(),
        n <= bounded@.len(),
    ensures
        r.deep_view() == request_messages(
            items.deep_view(),
            bounded.deep_view(),
            vision,
            n as nat,
        ),
{
    let mut out: Vec<Message> = Vec::new();
    let mut i: usize = 0;
    while i < n
        invariant
            i <= n <= items.len(),
            n <= bounded.len(),
            out@.len() == i,
            forall|j: int|
                0 <= j < i ==> (#[trigger] out@[j]).deep_view() == projected(
                    items@[j].deep_view(),
                    bounded@[j].deep_view(),
                ),
        decreases n - i,
    {
        out.push(project_item(&items[i], &bounded[i]));
        i += 1;
    }
    if !vision {
        strip_images(out.as_mut_slice());
    }
    assert(out.deep_view() =~= request_messages(
        items.deep_view(),
        bounded.deep_view(),
        vision,
        n as nat,
    ));
    out
}

/// The request for the summary itself.
pub open spec fn summary_request() -> MessageView {
    MessageView::User { content: COMPACTION_SUMMARY_PROMPT@, images: Seq::empty() }
}

/// The model request of a planned compaction: the request copies of the first
/// `summarised` items, then the request for the summary.
pub fn compaction_request(
    items: &Vec<ContextItem>,
    summarised: usize,
    bounded: &Vec<Option<String>>,
    vision: bool,
) -> (r: Vec<Message>)
    requires
        summarised <= items@.len(),
        summarised <= bounded@.len(),
    ensures
        r.deep_view() == request_messages(
            items.deep_view(),
            bounded.deep_view(),
            vision,
            summarised as nat,
        ).push(summary_request()),
{
    let mut request = request_copies(items, bounded, vision, summarised);
    let ghost before = request.deep_view();
    let images = Vec::new();
    assert(images.deep_view() =~= Seq::empty());
    request.push(Message::User { content: COMPACTION_SUMMARY_PROMPT.to_owned(), images });
    assert(request.deep_view() =~= before.push(summary_request()));
    request
}

/// What a compaction produced.
#[derive(Debug, PartialEq)]
pub struct CompactionOutput {
    pub entry: SessionEntry,
    pub summary: String,
    pub usage: Option<Usage>,
}

/// The history entry of a compaction.
pub open spec fn compaction_entry(
    mode: CompactionMode,
    summary: Seq<char>,
    retained: Seq<MessageView>,
) -> EntryView {
    EntryView::Compaction {
        summary,
        retained,
        current_prompt_at: if mode == CompactionMode::Main {
            Some(0)
        } else {
            None
        },
        no_current_prompt: mode == CompactionMode::SingleTask,
    }
}

/// A message with a text behind its own, where it is a user message.
pub open spec fn hinted(message: MessageView, hint: Seq<char>) -> MessageView {
    match message {
        MessageView::User { content, images } => MessageView::User { content: content + hint, images },
        _ => message,
    }
}

/// The request of the second attempt: the same one, with the hint at its end.
pub open spec fn retried(request: Seq<MessageView>) -> Seq<MessageView> {
    if request.len() == 0 {
        request
    } else {
        request.drop_last().push(hinted(request.last(), RETRY_HINT@))
    }
}

/// The request of the second attempt.
pub fn retry_request(request: Vec<Message>) -> (r: Vec<Message>)
    ensures
        r.deep_view() == retried(request.deep_view()),
{
    let mut request = request;
    let ghost before = request.deep_view();
    assert(before.len() == request@.len());
    match request.pop() {
        None => request,
        Some(last) => {
            assert(request.deep_view() =~= before.drop_last());
            let hinted_last = match last {
                Message::User { content, images } => {
                    let mut content = content;
                    content.push_str(RETRY_HINT);
                    Message::User { content, images }
                },
                other => other,
            };
            request.push(hinted_last);
            assert(request.deep_view() =~= before.drop_last().push(hinted_last.deep_view()));
            request
        },
    }
}

/// Where a compaction stands with the model.
#[derive(Debug, PartialEq)]
pub struct Attempt {
    /// A summary was rejected already.
    pub retried: bool,
    /// What earlier calls used.
    pub spent: Option<Usage>,
}

/// Model of an [`Attempt`].
#[verifier::ext_equal]
pub struct AttemptView {
    pub retried: bool,
    pub spent: Option<UsageView>,
}

impl DeepView for Attempt {
    type V = AttemptView;

    open spec fn deep_view(&self) -> AttemptView {
        AttemptView { retried: self.retried, spent: self.spent.deep_view() }
    }
}

impl Attempt {
    /// The first attempt.
    pub fn first() -> (r: Self)
        ensures
            r.deep_view() == (AttemptView { retried: false, spent: None }),
    {
        Attempt { retried: false, spent: None }
    }
}

/// What comes of the model's answer to a compaction request.
#[derive(Debug, PartialEq)]
pub enum Verdict {
    /// The summary is accepted.
    Accepted { output: CompactionOutput },
    /// The model is asked once more, with the hint.
    Retry { attempt: Attempt },
    /// The compaction has failed.
    Failed { error: String },
}

/// Model of a [`Verdict`].
#[verifier::ext_equal]
pub enum VerdictView {
    Accepted { entry: EntryView, summary: Seq<char>, usage: Option<UsageView> },
    Retry { attempt: AttemptView },
    Failed { error: Seq<char> },
}

impl DeepView for Verdict {
    type V = VerdictView;

    open spec fn deep_view(&self) -> VerdictView {
        match self {
            Verdict::Accepted { output } => VerdictView::Accepted {
                entry: output.entry.deep_view(),
                summary: output.summary@,
                usage: output.usage.deep_view(),
            },
            Verdict::Retry { attempt } => VerdictView::Retry { attempt: attempt.deep_view() },
            Verdict::Failed { error } => VerdictView::Failed { error: error@ },
        }
    }
}

/// What comes of the model's answer: tool calls and blank answers are refused; a
/// summary with a flaw is asked for once more; any other is accepted,
/// and every call is paid for.
pub open spec fn judged(
    mode: CompactionMode,
    retained: Seq<MessageView>,
    request: Seq<MessageView>,
    attempt: AttemptView,
    response: AssistantView,
    usage: Option<UsageView>,
) -> VerdictView {
    let spent = usage_total(attempt.spent, usage);
    if response.tool_calls.len() > 0 {
        VerdictView::Failed { error: "compaction response contains tool calls"@ }
    } else {
        match response.content {
            Some(summary) if trimmed(summary).len() > 0 => match flaw_of(
                summary,
                retained,
                request,
            ) {
                None => VerdictView::Accepted {
                    entry: compaction_entry(mode, summary, retained),
                    summary,
                    usage: spent,
                },
                Some(flaw) => if attempt.retried {
                    VerdictView::Failed { error: gate_words(flaw) }
                } else {
                    VerdictView::Retry { attempt: AttemptView { retried: true, spent } }
                },
            },
            _ => VerdictView::Failed { error: "compaction produced empty summary"@ },
        }
    }
}

/// Judge the model's answer to a compaction request. `retained` is what stays
/// beside the summary, and `request` what the model was sent.
pub fn finish_compaction(
    mode: CompactionMode,
    retained: &Vec<Message>,
    request: &Vec<Message>,
    attempt: Attempt,
    response: AssistantMessage,
    usage: Option<Usage>,
) -> (r: Verdict)
    requires
        total_fits(attempt.deep_view().spent, usage.deep_view()),
    ensures
        r.deep_view() == judged(
            mode,
            retained.deep_view(),
            request.deep_view(),
            attempt.deep_view(),
            response.deep_view(),
            usage.deep_view(),
        ),
{
    assert(response.deep_view().tool_calls.len() == response.tool_calls@.len());
    if response.tool_calls.len() > 0 {
        return Verdict::Failed { error: "compaction response contains tool calls".to_owned() };
    }
    let summary = match response.content {
        Some(content) => content,
        None => {
            return Verdict::Failed { error: "compaction produced empty summary".to_owned() };
        },
    };
    if trim(summary.as_str()).as_str().is_empty() {
        return Verdict::Failed { error: "compaction produced empty summary".to_owned() };
    }
    if let Some(flaw) = summary_flaw(summary.as_str(), retained, request) {
        if attempt.retried {
            return Verdict::Failed { error: gate_error(flaw) };
        }
        let spent = add_usage(attempt.spent, usage);
        return Verdict::Retry { attempt: Attempt { retried: true, spent } };
    }
    let copied = retained.clone();
    assert(copied.deep_view() =~= retained.deep_view());
    let entry = SessionEntry::Compaction {
        summary: summary.clone(),
        retained: copied,
        current_prompt_at: match mode {
            CompactionMode::Main => Some(0),
            CompactionMode::SingleTask => None,
        },
        no_current_prompt: match mode {
            CompactionMode::Main => false,
            CompactionMode::SingleTask => true,
        },
    };
    assert(entry.deep_view() =~= compaction_entry(mode, summary@, retained.deep_view()));
    let usage = add_usage(attempt.spent, usage);
    Verdict::Accepted { output: CompactionOutput { entry, summary, usage } }
}

/// The model is asked for a summary twice at most: a rejected second attempt
/// fails, with its flaw as the reason.
pub proof fn summaries_are_asked_for_twice_at_most(
    mode: CompactionMode,
    retained: Seq<MessageView>,
    request: Seq<MessageView>,
    attempt: AttemptView,
    response: AssistantView,
    usage: Option<UsageView>,
)
    ensures
        judged(mode, retained, request, attempt, response, usage) matches VerdictView::Retry {
            attempt: next,
        } ==> !attempt.retried && next.retried && next.spent == usage_total(attempt.spent, usage),
        attempt.retried ==> !(judged(mode, retained, request, attempt, response, usage) is Retry),
{
}

/// No summary enters the history but one without a flaw.
pub proof fn persisted_summaries_pass_the_gate(
    mode: CompactionMode,
    retained: Seq<MessageView>,
    request: Seq<MessageView>,
    attempt: AttemptView,
    response: AssistantView,
    usage: Option<UsageView>,
)
    ensures
        judged(mode, retained, request, attempt, response, usage) matches VerdictView::Accepted {
            entry,
            summary,
            usage: paid,
        } ==> flaw_of(summary, retained, request) is None && entry == compaction_entry(
            mode,
            summary,
            retained,
        ) && paid == usage_total(attempt.spent, usage),
{
}

/// Where nothing of the current turn is replaced, exactly what stands in front of
/// the current prompt is summarised, and everything from it on is retained.
pub proof fn short_turns_are_retained_whole(items: Seq<ItemView>)
    requires
        paired(item_messages(items)),
        forall|i: int| 0 <= i < items.len() ==> crate::context::item_sound(#[trigger] items[i]),
        prompt_len(items) > 0,
        items.len() - (prompt_len(items) - 1) <= RETAIN_TAIL,
    ensures
        cut(CompactionMode::Main, items) matches Some((split, prompt)) ==> {
            let at = (prompt_len(items) - 1) as nat;
            &&& prompt == Some(at)
            &&& summarised_len(split, prompt) == at
            &&& retained_messages(item_messages(items), split, prompt) == item_messages(items).skip(
                at as int,
            )
        },
{
    if let Some((split, prompt)) = cut(CompactionMode::Main, items) {
        let messages = item_messages(items);
        let at = (prompt_len(items) - 1) as int;
        crate::context::lemma_prompt_len_is_last(items);
        assert(crate::context::item_sound(items[at]));
        if at + 1 < messages.len() && messages[at + 1] is Tool {
            lemma_paired_suffix(messages, Seq::empty(), at);
            let rest = messages.skip(at);
            assert(rest[0] is User);
            assert(rest.drop_first()[0] == messages[at + 1]);
            lemma_results_need_a_call(rest, Seq::empty(), 1);
        }
        assert(seq![messages[at]] + messages.skip(at + 1) =~= messages.skip(at));
    }
}

proof fn lemma_paired_suffix(
    messages: Seq<MessageView>,
    pending: Seq<crate::message::CallView>,
    k: int,
)
    requires
        paired_after(messages, pending),
        0 <= k <= messages.len(),
        k < messages.len() ==> !(messages[k] is Tool),
    ensures
        paired(messages.skip(k)),
    decreases k,
{
    if k == messages.len() {
        assert(messages.skip(k) =~= Seq::empty());
    } else if k == 0 {
        assert(messages.skip(0) =~= messages);
        assert(pending =~= Seq::empty());
    } else {
        let rest = messages.drop_first();
        assert(rest.skip(k - 1) =~= messages.skip(k));
        match messages[0] {
            MessageView::Tool { call_id, .. } => {
                lemma_paired_suffix(rest, crate::pairs::without_call(pending, call_id), k - 1);
            },
            MessageView::Assistant(assistant) => {
                lemma_paired_suffix(rest, assistant.tool_calls, k - 1);
            },
            _ => {
                lemma_paired_suffix(rest, Seq::empty(), k - 1);
            },
        }
    }
}

proof fn lemma_results_need_a_call(
    messages: Seq<MessageView>,
    pending: Seq<crate::message::CallView>,
    at: int,
)
    requires
        paired_after(messages, pending),
        0 <= at < messages.len(),
        messages[at] is Tool,
        forall|i: int| 0 <= i < at ==> !((#[trigger] messages[i]) is Assistant),
    ensures
        pending.len() > 0,
    decreases at,
{
    if at > 0 {
        let rest = messages.drop_first();
        assert(rest[at - 1] == messages[at]);
        assert forall|i: int| 0 <= i < at - 1 implies !((#[trigger] rest[i]) is Assistant) by {
            assert(rest[i] == messages[i + 1]);
        }
        assert(!(messages[0] is Assistant));
        match messages[0] {
            MessageView::Tool { .. } => {},
            _ => {
                lemma_results_need_a_call(rest, Seq::empty(), at - 1);
            },
        }
    }
}

proof fn lemma_assistant_len_is_last(messages: Seq<MessageView>)
    ensures
        assistant_len(messages) <= messages.len(),
        assistant_len(messages) > 0 ==> messages[assistant_len(messages) - 1] is Assistant,
        forall|i: int|
            assistant_len(messages) <= i < messages.len() ==> !((#[trigger] messages[i]) is Assistant),
    decreases messages.len(),
{
    if messages.len() > 0 && !(messages.last() is Assistant) {
        let head = messages.drop_last();
        lemma_assistant_len_is_last(head);
        assert forall|i: int| assistant_len(messages) <= i < messages.len() implies !((
        #[trigger] messages[i]) is Assistant) by {
            if i < head.len() {
                assert(head[i] == messages[i]);
            }
        }
    }
}

proof fn lemma_first_assistant_is_first(messages: Seq<MessageView>)
    ensures
        first_assistant(messages) <= messages.len(),
        first_assistant(messages) < messages.len() ==> messages[first_assistant(messages) as int] is Assistant,
    decreases messages.len(),
{
    if messages.len() > 0 && !(messages[0] is Assistant) {
        lemma_first_assistant_is_first(messages.drop_first());
    }
}

/// In a context that satisfies the pairing rule no compaction cuts through a
/// tool batch: what it retains satisfies the rule again. The items are those of
/// a context, where only user messages count as a real user's.
pub proof fn compaction_keeps_the_pairing_rule(mode: CompactionMode, items: Seq<ItemView>)
    requires
        paired(item_messages(items)),
        forall|i: int| 0 <= i < items.len() ==> crate::context::item_sound(#[trigger] items[i]),
    ensures
        cut(mode, items) matches Some((split, prompt)) ==> split <= items.len() && paired(
            retained_messages(item_messages(items), split, prompt),
        ),
{
    if let Some((split, prompt)) = cut(mode, items) {
        let messages = item_messages(items);
        let tail = messages.skip(split as int);
        match mode {
            CompactionMode::Main => {
                crate::context::lemma_prompt_len_is_last(items);
                let at = prompt->0;
                assert(crate::context::item_sound(items[at as int]));
                assert(messages[at as int] is User);
                let candidate = if at + 1 > tail_start(messages.len()) {
                    at + 1
                } else {
                    tail_start(messages.len())
                };
                if candidate < messages.len() && messages[candidate as int] is Tool {
                    let head = messages.take(candidate as int);
                    lemma_assistant_len_is_last(head);
                    if assistant_len(head) == 0 {
                        assert forall|i: int| 0 <= i < candidate implies !((
                        #[trigger] messages[i]) is Assistant) by {
                            assert(head[i] == messages[i]);
                        }
                        lemma_results_need_a_call(messages, Seq::empty(), candidate as int);
                    } else {
                        assert(head[assistant_len(head) - 1] == messages[split as int]);
                    }
                }
                lemma_paired_suffix(messages, Seq::empty(), split as int);
                let retained = seq![messages[at as int]] + tail;
                assert(retained.drop_first() =~= tail);
            },
            CompactionMode::SingleTask => {
                let start = tail_start(messages.len()) as int;
                lemma_first_assistant_is_first(messages.skip(start));
                lemma_assistant_len_is_last(messages.take(start));
                lemma_paired_suffix(messages, Seq::empty(), split as int);
            },
        }
    }
}

/// A main-session compaction keeps the current prompt: in the context after it,
/// the last real user message is the one that was current before.
pub proof fn compaction_keeps_the_current_prompt(
    source: SourceView,
    summary: Seq<char>,
    location: Option<Seq<char>>,
)
    requires
        cut(CompactionMode::Main, crate::context::repaired_items(context_of(source))) is Some,
        source.history.len() == source.locations.len(),
    ensures
        ({
            let items = crate::context::repaired_items(context_of(source));
            let (split, prompt) = cut(CompactionMode::Main, items)->0;
            let retained = retained_messages(item_messages(items), split, prompt);
            let entry = compaction_entry(CompactionMode::Main, summary, retained);
            let after = SourceView {
                history: source.history.push(entry),
                locations: source.locations.push(location),
                ..source
            };
            let n = prompt_len(unmarked_items(after));
            n > 0 && context_of(after)[n - 1].message == items[prompt_len(items) - 1].message
                && context_of(after)[n - 1].keep_full
        }),
{
    let items = crate::context::repaired_items(context_of(source));
    let (split, prompt) = cut(CompactionMode::Main, items)->0;
    let messages = item_messages(items);
    let retained = retained_messages(messages, split, prompt);
    let entry = compaction_entry(CompactionMode::Main, summary, retained);
    let after = SourceView {
        history: source.history.push(entry),
        locations: source.locations.push(location),
        ..source
    };
    crate::context::context_items_are_sound(source);
    crate::context::lemma_prompt_len_is_last(items);
    let at = prompt->0 as int;
    assert(crate::context::item_sound(items[at]));
    assert(retained[0] == messages[at]);
    let start = compacted_len(after.history) as int;
    assert(start == source.history.len() + 1);
    assert(tail_items(after.history, after.locations, start, start) =~= Seq::empty());
    let shown = compaction_items(entry, after.reminder, location_at(after.locations, start - 1));
    let all = unmarked_items(after);
    let lead = lead_items(after);
    assert(all =~= lead + shown);
    let n = lead.len() + 2;
    assert(all[n - 1] == shown[1]);
    assert(shown[1].actual_user);
    assert forall|i: int| n <= i < all.len() implies !(#[trigger] all[i]).actual_user by {
        assert(all[i] == shown[i - lead.len()]);
    }
    crate::context::lemma_prompt_len(all, n);
}

/// After the compaction of a session of tool activity no retained message counts
/// as the current prompt, whatever it looks like.
pub proof fn single_task_compactions_keep_no_prompt(
    source: SourceView,
    summary: Seq<char>,
    retained: Seq<MessageView>,
    location: Option<Seq<char>>,
)
    ensures
        ({
            let entry = compaction_entry(CompactionMode::SingleTask, summary, retained);
            let after = SourceView {
                history: source.history.push(entry),
                locations: source.locations.push(location),
                ..source
            };
            forall|i: int|
                0 <= i < context_of(after).len() ==> !(#[trigger] context_of(after)[i]).actual_user
        }),
{
    let entry = compaction_entry(CompactionMode::SingleTask, summary, retained);
    let after = SourceView {
        history: source.history.push(entry),
        locations: source.locations.push(location),
        ..source
    };
    let start = compacted_len(after.history) as int;
    assert(start == source.history.len() + 1);
    assert(tail_items(after.history, after.locations, start, start) =~= Seq::empty());
    let lead = lead_items(after);
    let shown = compaction_items(entry, after.reminder, location_at(after.locations, start - 1));
    let all = unmarked_items(after);
    assert(all =~= lead + shown);
    assert forall|i: int| 0 <= i < context_of(after).len() implies !(#[trigger] context_of(
        after,
    )[i]).actual_user by {
        if i < lead.len() {
            assert(all[i] == lead[i]);
        } else {
            assert(all[i] == shown[i - lead.len()]);
        }
    }
}

/// What a main-session compaction keeps. With the current prompt at `at`, the
/// recent tail begins twenty messages before the end, or right behind the prompt
/// where that comes later; it reaches further back only where a tool result stands
/// there, to the assistant message before it. Everything from the tail on and the
/// prompt in front of it are retained as they are, and a compaction is planned
/// exactly where something of the rest is an assistant message or a tool result.
pub proof fn main_compactions_keep_the_recent_tail(
    items: Seq<ItemView>,
    at: int,
    start: int,
    split: int,
)
    requires
        0 <= at < items.len(),
        items[at].actual_user,
        forall|i: int| at < i < items.len() ==> !(#[trigger] items[i]).actual_user,
        start == if items.len() - at > 20 {
            items.len() - 20
        } else {
            at + 1
        },
        if start < items.len() && items[start].message is Tool {
            ||| {
                &&& 0 <= split < start
                &&& items[split].message is Assistant
                &&& forall|i: int| split < i < start ==> !((#[trigger] items[i]).message is Assistant)
            }
            ||| {
                &&& split == start
                &&& forall|i: int| 0 <= i < start ==> !((#[trigger] items[i]).message is Assistant)
            }
        } else {
            split == start
        },
    ensures
        cut(CompactionMode::Main, items) is Some <==> exists|i: int|
            0 <= i < split && i != at && ((#[trigger] items[i]).message is Assistant
                || items[i].message is Tool),
        cut(CompactionMode::Main, items) matches Some((cut_at, prompt)) ==> {
            let kept = retained_messages(item_messages(items), cut_at, prompt);
            &&& cut_at == split
            &&& prompt == Some(at as nat)
            &&& kept.len() == 1 + items.len() - split
            &&& kept[0] == items[at].message
            &&& forall|i: int| split <= i < items.len() ==> kept[1 + i - split] == (
            #[trigger] items[i]).message
            &&& summarised_len(cut_at, prompt) == if split == at + 1 {
                at
            } else {
                split
            }
        },
{
    let messages = item_messages(items);
    crate::context::lemma_prompt_len(items, (at + 1) as nat);
    assert forall|i: int| 0 <= i < items.len() implies messages[i] == (#[trigger] items[i]).message by {
    }
    if start < items.len() && items[start].message is Tool {
        let head = messages.take(start);
        if split == start {
            lemma_assistant_len(head, 0);
        } else {
            assert(head[split] == items[split].message);
            assert forall|i: int| split + 1 <= i < head.len() implies !((
            #[trigger] head[i]) is Assistant) by {
                assert(head[i] == items[i].message);
            }
            lemma_assistant_len(head, (split + 1) as nat);
        }
    }
    assert(main_split(messages, at as nat) == split);
    if exists|i: int|
        0 <= i < split && i != at && ((#[trigger] items[i]).message is Assistant
            || items[i].message is Tool) {
        let i = choose|i: int|
            0 <= i < split && i != at && ((#[trigger] items[i]).message is Assistant
                || items[i].message is Tool);
        assert(is_activity(messages[i]));
        assert(Some(at as nat) != Some(i as nat));
    }
    if replaces_activity(messages, split as nat, Some(at as nat)) {
        let i = choose|i: int|
            0 <= i < split && Some(at as nat) != Some(i as nat) && is_activity(
                #[trigger] messages[i],
            );
        assert(items[i].message == messages[i]);
    }
    if let Some((cut_at, prompt)) = cut(CompactionMode::Main, items) {
        let kept = retained_messages(messages, cut_at, prompt);
        assert forall|i: int| split <= i < items.len() implies kept[1 + i - split] == (
        #[trigger] items[i]).message by {
            assert(kept[1 + i - split] == messages.skip(split)[i - split]);
        }
    }
}

/// In a context that satisfies the pairing rule the tail of a main-session
/// compaction holds at least the twenty most recent messages of the current turn,
/// and more only to keep a tool batch whole: it then begins with the assistant
/// message that opened the batch, and nothing but results of the batch stands
/// between.
pub proof fn tails_are_longer_only_for_a_whole_batch(items: Seq<ItemView>, at: int)
    requires
        paired(item_messages(items)),
        forall|i: int| 0 <= i < items.len() ==> crate::context::item_sound(#[trigger] items[i]),
        0 <= at < items.len() - 20,
        items[at].actual_user,
        forall|i: int| at < i < items.len() ==> !(#[trigger] items[i]).actual_user,
    ensures
        cut(CompactionMode::Main, items) matches Some((split, prompt)) ==> {
            let kept = retained_messages(item_messages(items), split, prompt);
            &&& at < split <= items.len() - 20
            &&& kept == seq![items[at].message] + item_messages(items).skip(split as int)
            &&& split < items.len() - 20 ==> items[split as int].message is Assistant && forall|
                i: int,
            |
                split < i <= items.len() - 20 ==> (#[trigger] items[i]).message is Tool
        },
{
    if let Some((split, prompt)) = cut(CompactionMode::Main, items) {
        let messages = item_messages(items);
        let start = items.len() - 20;
        crate::context::lemma_prompt_len(items, (at + 1) as nat);
        assert(crate::context::item_sound(items[at]));
        assert(messages[at] is User);
        let head = messages.take(start);
        lemma_assistant_len_is_last(head);
        if messages[start] is Tool {
            lemma_paired_suffix(messages, Seq::empty(), at);
            let turn = messages.skip(at);
            let n = assistant_len(head) as int;
            if n <= at {
                assert forall|i: int| 0 <= i < start - at implies !((
                #[trigger] turn[i]) is Assistant) by {
                    assert(turn[i] == head[at + i]);
                }
                assert(turn[start - at] == messages[start]);
                lemma_results_need_a_call(turn, Seq::empty(), start - at);
            }
            assert(n > at);
            assert(head[n - 1] == messages[n - 1]);
            lemma_paired_suffix(messages, Seq::empty(), n - 1);
            assert forall|i: int| n - 1 < i <= start implies (
            #[trigger] items[i]).message is Tool by {
                if !(messages[i] is Tool) {
                    assert(messages[i] == items[i].message);
                    if i != start {
                        lemma_paired_suffix(messages, Seq::empty(), i);
                        let rest = messages.skip(i);
                        assert forall|j: int| 0 <= j < start - i implies !((
                        #[trigger] rest[j]) is Assistant) by {
                            assert(rest[j] == head[i + j]);
                        }
                        assert(rest[start - i] == messages[start]);
                        lemma_results_need_a_call(rest, Seq::empty(), start - i);
                    }
                }
            }
        }
    }
}

/// What a compaction of a session of tool activity keeps: nothing but a tail that
/// begins with an assistant message, the first of the twenty most recent messages
/// or, where there is none among them, the last one before. Without one, in a
/// session of at most twenty messages, and where nothing in front of the tail is
/// activity, there is nothing to compact.
pub proof fn single_task_compactions_keep_recent_activity(items: Seq<ItemView>, split: int)
    requires
        0 <= split < items.len(),
        items[split].message is Assistant,
        if split >= items.len() - 20 {
            forall|i: int|
                items.len() - 20 <= i < split ==> !((#[trigger] items[i]).message is Assistant)
        } else {
            forall|i: int|
                split < i < items.len() ==> !((#[trigger] items[i]).message is Assistant)
        },
    ensures
        cut(CompactionMode::SingleTask, items) is Some <==> items.len() > 20 && exists|i: int|
            0 <= i < split && ((#[trigger] items[i]).message is Assistant
                || items[i].message is Tool),
        cut(CompactionMode::SingleTask, items) matches Some((cut_at, prompt)) ==> {
            let kept = retained_messages(item_messages(items), cut_at, prompt);
            &&& cut_at == split
            &&& prompt is None
            &&& kept.len() == items.len() - split
            &&& forall|i: int| split <= i < items.len() ==> kept[i - split] == (
            #[trigger] items[i]).message
            &&& summarised_len(cut_at, prompt) == split
        },
{
    let messages = item_messages(items);
    if items.len() > 20 {
        let start = items.len() - 20;
        let tail = messages.skip(start);
        let head = messages.take(start);
        if split >= start {
            assert(tail[split - start] == items[split].message);
            assert forall|i: int| 0 <= i < split - start implies !((
            #[trigger] tail[i]) is Assistant) by {
                assert(tail[i] == items[start + i].message);
            }
            lemma_first_assistant(tail, (split - start) as nat);
        } else {
            assert forall|i: int| 0 <= i < tail.len() implies !((#[trigger] tail[i]) is Assistant) by {
                assert(tail[i] == items[start + i].message);
            }
            lemma_first_assistant(tail, tail.len());
            assert(head[split] == items[split].message);
            assert forall|i: int| split + 1 <= i < head.len() implies !((
            #[trigger] head[i]) is Assistant) by {
                assert(head[i] == items[i].message);
            }
            lemma_assistant_len(head, (split + 1) as nat);
        }
        assert(single_task_split(messages) == Some(split as nat));
        if exists|i: int|
            0 <= i < split && ((#[trigger] items[i]).message is Assistant
                || items[i].message is Tool) {
            let i = choose|i: int|
                0 <= i < split && ((#[trigger] items[i]).message is Assistant
                    || items[i].message is Tool);
            assert(is_activity(messages[i]));
        }
        if replaces_activity(messages, split as nat, None) {
            let i = choose|i: int|
                0 <= i < split && None::<nat> != Some(i as nat) && is_activity(#[trigger] messages[i]);
            assert(items[i].message == messages[i]);
        }
    }
}

/// Without a prompt a main session has nothing to compact, and without an
/// assistant message a session of tool activity has nothing to compact.
pub proof fn compactions_need_something_to_keep(items: Seq<ItemView>)
    ensures
        (forall|i: int| 0 <= i < items.len() ==> !(#[trigger] items[i]).actual_user) ==> cut(
            CompactionMode::Main,
            items,
        ) is None,
        (forall|i: int| 0 <= i < items.len() ==> !((#[trigger] items[i]).message is Assistant))
            ==> cut(CompactionMode::SingleTask, items) is None,
{
    if forall|i: int| 0 <= i < items.len() ==> !(#[trigger] items[i]).actual_user {
        crate::context::lemma_prompt_len(items, 0);
    }
    if forall|i: int| 0 <= i < items.len() ==> !((#[trigger] items[i]).message is Assistant) {
        let messages = item_messages(items);
        let start = tail_start(messages.len()) as int;
        let tail = messages.skip(start);
        let head = messages.take(start);
        assert forall|i: int| 0 <= i < tail.len() implies !((#[trigger] tail[i]) is Assistant) by {
            assert(tail[i] == items[start + i].message);
        }
        assert forall|i: int| 0 <= i < head.len() implies !((#[trigger] head[i]) is Assistant) by {
            assert(head[i] == items[i].message);
        }
        lemma_first_assistant(tail, tail.len());
        lemma_assistant_len(head, 0);
    }
}

/// What becomes of an answer: one with tool calls or without a text fails; a
/// summary with a flaw is asked for again, and fails the second time with the
/// flaw; and any other is accepted as it is.
pub proof fn answers_are_judged_by_their_text(
    mode: CompactionMode,
    retained: Seq<MessageView>,
    request: Seq<MessageView>,
    attempt: AttemptView,
    response: AssistantView,
    usage: Option<UsageView>,
)
    ensures
        ({
            let verdict = judged(mode, retained, request, attempt, response, usage);
            if response.tool_calls.len() > 0 {
                verdict == (VerdictView::Failed {
                    error: "compaction response contains tool calls"@,
                })
            } else if response.content is None || trimmed(response.content->0).len() == 0 {
                verdict == (VerdictView::Failed { error: "compaction produced empty summary"@ })
            } else {
                let summary = response.content->0;
                match flaw_of(summary, retained, request) {
                    None => verdict == (VerdictView::Accepted {
                        entry: EntryView::Compaction {
                            summary,
                            retained,
                            current_prompt_at: match mode {
                                CompactionMode::Main => Some(0),
                                CompactionMode::SingleTask => None,
                            },
                            no_current_prompt: mode == CompactionMode::SingleTask,
                        },
                        summary,
                        usage: usage_total(attempt.spent, usage),
                    }),
                    Some(flaw) => if attempt.retried {
                        verdict matches VerdictView::Failed { error } && error == gate_words(flaw)
                    } else {
                        verdict matches VerdictView::Retry { attempt: next } && next.retried
                            && next.spent == usage_total(attempt.spent, usage)
                    },
                }
            }
        }),
{
}

/// The second request is the first one with something added to the last user
/// message: nothing of it is left out or changed.
pub proof fn second_requests_only_add(request: Seq<MessageView>)
    requires
        request.len() > 0,
    ensures
        retried(request).len() == request.len(),
        forall|i: int|
            0 <= i < request.len() - 1 ==> (#[trigger] retried(request)[i]) == request[i],
        match request.last() {
            MessageView::User { content, images } => {
                &&& retried(request).last() matches MessageView::User {
                    content: longer,
                    images: same,
                }
                &&& same == images
                &&& content.is_prefix_of(longer)
                &&& longer.skip(content.len() as int) == RETRY_HINT@
            },
            other => retried(request).last() == other,
        },
{
    if let MessageView::User { content, images } = request.last() {
        let longer = content + RETRY_HINT@;
        assert(longer.take(content.len() as int) =~= content);
        assert(longer.skip(content.len() as int) =~= RETRY_HINT@);
    }
}

/// A request copies the context item by item, as many as are sent: each with its
/// bounded text in place, and without its images for a model without vision. The
/// request for the summary is a plain message of the user.
pub proof fn requests_copy_item_by_item(
    items: Seq<ItemView>,
    bounded: Seq<Option<Seq<char>>>,
    vision: bool,
    n: nat,
    i: int,
)
    requires
        0 <= i < n,
    ensures
        request_messages(items, bounded, vision, n).len() == n,
        vision ==> request_messages(items, bounded, vision, n)[i] == projected(items[i], bounded[i]),
        !vision ==> request_messages(items, bounded, vision, n)[i] == stripped(
            projected(items[i], bounded[i]),
        ),
        summary_request() == (MessageView::User {
            content: COMPACTION_SUMMARY_PROMPT@,
            images: Seq::empty(),
        }),
{
}

} // verus!
