//! The provider context: which messages a model call sees, derived from the
//! session history, and which of their fields may be bounded.
use vstd::prelude::*;

use crate::codec::{persisted_bytes, persisted_len};
use crate::entry::{EntryView, SessionEntry};
use crate::goal::{goal_projection_text, projection, GoalSnapshot, GoalView};
use crate::message::{CallView, Message, MessageView, ToolCall};
use crate::pairs::{
    any_call, drop_call, has_call, placeholder, placeholder_message, placeholders, repaired_after,
    without_call,
};
use crate::text::{
    chars_of, decimal, decimal_text, has_prefix, same_text, text_of, trim, trimmed,
};

verus! {

/// Physical key of a persisted history entry.
#[derive(Debug, PartialEq, Eq)]
pub struct EntryLocation {
    pub key: String,
}

impl DeepView for EntryLocation {
    type V = Seq<char>;

    open spec fn deep_view(&self) -> Seq<char> {
        self.key@
    }
}

impl Clone for EntryLocation {
    fn clone(&self) -> (r: Self)
        ensures
            r.deep_view() == self.deep_view(),
    {
        EntryLocation { key: self.key.clone() }
    }
}

/// A persisted field whose projection may be bounded.
#[derive(Clone, Copy, Debug, PartialEq, Eq, Structural)]
pub enum FieldId {
    UserContent,
    AssistantContent,
    ToolContent,
    NoticeText,
    BgOutput,
    CompactionSummary,
    CompactionRetained,
}

/// One provider-context message plus what the bounded projection needs to know
/// of it.
#[derive(Debug, PartialEq)]
pub struct ContextItem {
    pub message: Message,
    /// Leading text of the message that is never bounded.
    pub prefix: String,
    /// Key of the persisted source entry; without one the message stays full.
    pub location: Option<EntryLocation>,
    /// The field to bound; `None` derives it from the kind of message.
    pub field: Option<FieldId>,
    /// Byte length of the complete field, where it is more than this message.
    pub field_total: Option<usize>,
    /// A real user message, not the projection of some other entry.
    pub actual_user: bool,
    /// Never bound this message.
    pub keep_full: bool,
}

/// Model of a [`ContextItem`].
#[verifier::ext_equal]
pub struct ItemView {
    pub message: MessageView,
    pub prefix: Seq<char>,
    pub location: Option<Seq<char>>,
    pub field: Option<FieldId>,
    pub field_total: Option<usize>,
    pub actual_user: bool,
    pub keep_full: bool,
}

impl DeepView for ContextItem {
    type V = ItemView;

    open spec fn deep_view(&self) -> ItemView {
        ItemView {
            message: self.message.deep_view(),
            prefix: self.prefix@,
            location: self.location.deep_view(),
            field: self.field,
            field_total: self.field_total,
            actual_user: self.actual_user,
            keep_full: self.keep_full,
        }
    }
}

impl Clone for ContextItem {
    fn clone(&self) -> (r: Self)
        ensures
            r.deep_view() == self.deep_view(),
    {
        ContextItem {
            message: self.message.clone(),
            prefix: self.prefix.clone(),
            location: self.location.clone(),
            field: self.field,
            field_total: self.field_total,
            actual_user: self.actual_user,
            keep_full: self.keep_full,
        }
    }
}

/// An item that no persisted entry stands behind.
pub open spec fn bare_item(message: MessageView) -> ItemView {
    ItemView {
        message,
        prefix: Seq::empty(),
        location: None,
        field: None,
        field_total: None,
        actual_user: false,
        keep_full: false,
    }
}

impl ContextItem {
    /// An item that no persisted entry stands behind.
    pub fn system(message: Message) -> (r: Self)
        ensures
            r.deep_view() == bare_item(message.deep_view()),
    {
        ContextItem {
            message,
            prefix: String::new(),
            location: None,
            field: None,
            field_total: None,
            actual_user: false,
            keep_full: false,
        }
    }
}

/// The messages of a list of items.
pub open spec fn item_messages(items: Seq<ItemView>) -> Seq<MessageView> {
    items.map_values(|item: ItemView| item.message)
}

/// One placeholder item for each call, in order.
pub open spec fn placeholder_items(calls: Seq<CallView>) -> Seq<ItemView> {
    calls.map_values(|call: CallView| bare_item(placeholder(call)))
}

/// The items of a repaired context: the pairing repair of their messages, each
/// surviving message with its own metadata.
pub open spec fn repaired_items_after(items: Seq<ItemView>, pending: Seq<CallView>) -> Seq<ItemView>
    decreases items.len(),
{
    if items.len() == 0 {
        placeholder_items(pending)
    } else {
        let rest = items.drop_first();
        match items[0].message {
            MessageView::Tool { call_id, synthetic, .. } => if !synthetic && has_call(
                pending,
                call_id,
            ) {
                seq![items[0]] + repaired_items_after(rest, without_call(pending, call_id))
            } else {
                repaired_items_after(rest, pending)
            },
            MessageView::Assistant(assistant) => placeholder_items(pending) + (seq![items[0]]
                + repaired_items_after(rest, assistant.tool_calls)),
            _ => placeholder_items(pending) + (seq![items[0]] + repaired_items_after(
                rest,
                Seq::empty(),
            )),
        }
    }
}

/// The repaired form of a whole list of items.
pub open spec fn repaired_items(items: Seq<ItemView>) -> Seq<ItemView> {
    repaired_items_after(items, Seq::empty())
}

/// Append one placeholder item for each open call.
fn flush_items(pending: &Vec<ToolCall>, out: &mut Vec<ContextItem>)
    ensures
        final(out).deep_view() == old(out).deep_view() + placeholder_items(pending.deep_view()),
{
    let ghost before = out.deep_view();
    let mut i: usize = 0;
    while i < pending.len()
        invariant
            i <= pending.len(),
            out.deep_view() == before + placeholder_items(pending.deep_view().take(i as int)),
        decreases pending.len() - i,
    {
        let ghost now = out.deep_view();
        out.push(ContextItem::system(placeholder_message(&pending[i])));
        i += 1;
        assert(out.deep_view() =~= now.push(bare_item(placeholder(pending.deep_view()[i - 1]))));
        assert(placeholder_items(pending.deep_view().take(i as int)) =~= placeholder_items(
            pending.deep_view().take(i - 1),
        ).push(bare_item(placeholder(pending.deep_view()[i - 1]))));
    }
    assert(pending.deep_view().take(pending@.len() as int) =~= pending.deep_view());
}

/// Pairing repair on items: the rules of
/// [`repair_tool_pairs`](crate::pairs::repair_tool_pairs), with the metadata of
/// each item kept beside its message.
pub fn repair_item_pairs(items: Vec<ContextItem>) -> (r: Vec<ContextItem>)
    ensures
        r.deep_view() == repaired_items(items.deep_view()),
{
    let mut out: Vec<ContextItem> = Vec::new();
    let mut pending: Vec<ToolCall> = Vec::new();
    let ghost whole = items.deep_view();
    assert(whole.skip(0) =~= whole);
    assert(pending.deep_view() =~= Seq::empty());
    let mut i: usize = 0;
    while i < items.len()
        invariant
            i <= items.len(),
            whole == items.deep_view(),
            repaired_items(whole) =~= out.deep_view() + repaired_items_after(
                whole.skip(i as int),
                pending.deep_view(),
            ),
        decreases items.len() - i,
    {
        let ghost before = out.deep_view();
        let ghost tail = whole.skip(i as int);
        proof {
            assert(tail[0] == items@[i as int].deep_view());
            assert(tail.drop_first() =~= whole.skip(i + 1));
        }
        match &items[i].message {
            Message::Tool { call_id, synthetic, .. } => {
                if !*synthetic && any_call(&pending, call_id.as_str()) {
                    pending = drop_call(&pending, call_id.as_str());
                    out.push(items[i].clone());
                    assert(out.deep_view() =~= before.push(tail[0]));
                }
            },
            Message::Assistant(assistant) => {
                flush_items(&pending, &mut out);
                let ghost flushed = out.deep_view();
                pending = assistant.tool_calls.clone();
                assert(pending.deep_view() =~= assistant.tool_calls.deep_view());
                out.push(items[i].clone());
                assert(out.deep_view() =~= flushed.push(tail[0]));
            },
            _ => {
                flush_items(&pending, &mut out);
                let ghost flushed = out.deep_view();
                pending = Vec::new();
                assert(pending.deep_view() =~= Seq::empty());
                out.push(items[i].clone());
                assert(out.deep_view() =~= flushed.push(tail[0]));
            },
        }
        i += 1;
    }
    assert(whole.skip(whole.len() as int) =~= Seq::empty());
    flush_items(&pending, &mut out);
    out
}

proof fn lemma_repaired_items_messages(items: Seq<ItemView>, pending: Seq<CallView>)
    ensures
        item_messages(repaired_items_after(items, pending)) == repaired_after(
            item_messages(items),
            pending,
        ),
    decreases items.len(),
{
    assert(item_messages(placeholder_items(pending)) =~= placeholders(pending));
    if items.len() > 0 {
        let rest = items.drop_first();
        assert(item_messages(items).drop_first() =~= item_messages(rest));
        let head = seq![items[0]];
        match items[0].message {
            MessageView::Tool { call_id, synthetic, .. } => {
                if !synthetic && has_call(pending, call_id) {
                    let open = without_call(pending, call_id);
                    lemma_repaired_items_messages(rest, open);
                    assert(item_messages(head + repaired_items_after(rest, open)) =~= seq![
                        items[0].message,
                    ] + item_messages(repaired_items_after(rest, open)));
                } else {
                    lemma_repaired_items_messages(rest, pending);
                }
            },
            MessageView::Assistant(assistant) => {
                let tail = repaired_items_after(rest, assistant.tool_calls);
                lemma_repaired_items_messages(rest, assistant.tool_calls);
                assert(item_messages(placeholder_items(pending) + (head + tail)) =~= placeholders(
                    pending,
                ) + (seq![items[0].message] + item_messages(tail)));
            },
            _ => {
                let tail = repaired_items_after(rest, Seq::empty());
                lemma_repaired_items_messages(rest, Seq::empty());
                assert(item_messages(placeholder_items(pending) + (head + tail)) =~= placeholders(
                    pending,
                ) + (seq![items[0].message] + item_messages(tail)));
            },
        }
    }
}

/// Repairing items and repairing their messages come to the same context.
pub proof fn item_repair_agrees_with_message_repair(items: Seq<ItemView>)
    ensures
        item_messages(repaired_items(items)) == crate::pairs::repaired(item_messages(items)),
{
    lemma_repaired_items_messages(items, Seq::empty());
}

/// What the context is derived from.
pub struct SourceView {
    /// Instructions put in front of every model call.
    pub prefix: Option<Seq<char>>,
    /// Directive repeated in front of a compaction summary.
    pub reminder: Option<Seq<char>>,
    /// The session goal.
    pub goal: Option<GoalView>,
    /// The goal was cleared, as opposed to never set.
    pub cleared: bool,
    pub history: Seq<EntryView>,
    /// Keys of the persisted history entries, in their order.
    pub locations: Seq<Option<Seq<char>>>,
}

/// The items in front of the conversation: the instructions and the goal. A
/// cleared goal is named as such, so that no older summary can bring it back.
pub open spec fn lead_items(source: SourceView) -> Seq<ItemView> {
    let prefix = match source.prefix {
        Some(text) => seq![bare_item(MessageView::System { content: text })],
        None => Seq::empty(),
    };
    let goal = match source.goal {
        Some(goal) => seq![
            bare_item(MessageView::System { content: "[session goal]\n"@ + projection(goal) }),
        ],
        None => if source.cleared {
            seq![bare_item(MessageView::System { content: "[session goal]\nnone (cleared)"@ })]
        } else {
            Seq::empty()
        },
    };
    prefix + goal
}

/// Number of entries up to and with the last compaction; 0 without one.
pub open spec fn compacted_len(history: Seq<EntryView>) -> nat
    decreases history.len(),
{
    if history.len() == 0 || history.last() is Compaction {
        history.len()
    } else {
        compacted_len(history.drop_last())
    }
}

/// The key of entry `index`, where one is known.
pub open spec fn location_at(locations: Seq<Option<Seq<char>>>, index: int) -> Option<Seq<char>> {
    if 0 <= index < locations.len() {
        locations[index]
    } else {
        None
    }
}

/// The text in front of a compaction summary.
pub open spec fn summary_prefix(reminder: Option<Seq<char>>) -> Seq<char> {
    let header = "[compacted summary of earlier conversation]\n"@;
    match reminder {
        Some(reminder) => header + "\n[standing directive: "@ + reminder + "]\n\n"@,
        None => header,
    }
}

/// Position of the first user message in a list, or its length without one.
pub open spec fn first_user(messages: Seq<MessageView>) -> nat
    decreases messages.len(),
{
    if messages.len() == 0 || messages[0] is User {
        0
    } else {
        1 + first_user(messages.drop_first())
    }
}

/// Where the current prompt stands in the retained part of a compaction: where
/// the entry says, nowhere if the entry says so, and otherwise at the first
/// user message.
pub open spec fn prompt_at(
    retained: Seq<MessageView>,
    current_prompt_at: Option<usize>,
    no_current_prompt: bool,
) -> Option<nat> {
    match current_prompt_at {
        Some(index) => Some(index as nat),
        None => if no_current_prompt || first_user(retained) == retained.len() {
            None
        } else {
            Some(first_user(retained))
        },
    }
}

/// One message of the retained part of a compaction.
pub open spec fn retained_item(
    message: MessageView,
    is_prompt: bool,
    location: Option<Seq<char>>,
    total: usize,
) -> ItemView {
    ItemView {
        message,
        prefix: Seq::empty(),
        location,
        field: Some(FieldId::CompactionRetained),
        field_total: Some(total),
        actual_user: message is User && is_prompt,
        keep_full: false,
    }
}

/// The items of a compaction: its summary, then the retained messages.
pub open spec fn compaction_items(
    entry: EntryView,
    reminder: Option<Seq<char>>,
    location: Option<Seq<char>>,
) -> Seq<ItemView>
    recommends
        entry is Compaction,
{
    let retained = entry->retained;
    let prompt = prompt_at(retained, entry->current_prompt_at, entry->no_current_prompt);
    let total = persisted_len(retained);
    let summary = ItemView {
        message: MessageView::User {
            content: summary_prefix(reminder) + entry->summary,
            images: Seq::empty(),
        },
        prefix: summary_prefix(reminder),
        location,
        field: Some(FieldId::CompactionSummary),
        field_total: None,
        actual_user: false,
        keep_full: false,
    };
    seq![summary] + Seq::new(
        retained.len(),
        |i: int| retained_item(retained[i], prompt == Some(i as nat), location, total),
    )
}

/// The first line of a background completion.
pub open spec fn completion_header(id: u64, label: Option<Seq<char>>) -> Seq<char> {
    match label {
        Some(label) if trimmed(label).len() > 0 => "[background task "@ + decimal(id as nat)
            + " completed: "@ + trimmed(label) + "]"@,
        _ => "[background task "@ + decimal(id as nat) + " completed]"@,
    }
}

/// What an entry after the last compaction contributes: messages as they are,
/// notices and background completions as user messages, and nothing for fork
/// provenance, errors and goal updates.
pub open spec fn entry_item(entry: EntryView, location: Option<Seq<char>>) -> Option<ItemView> {
    match entry {
        EntryView::Message { message } => Some(
            ItemView {
                message,
                prefix: Seq::empty(),
                location,
                field: None,
                field_total: None,
                actual_user: message is User,
                keep_full: false,
            },
        ),
        EntryView::Notice { text } => Some(
            ItemView {
                message: MessageView::User { content: text, images: Seq::empty() },
                prefix: Seq::empty(),
                location,
                field: Some(FieldId::NoticeText),
                field_total: None,
                actual_user: false,
                keep_full: false,
            },
        ),
        EntryView::BackgroundCompletion { id, output, label, .. } => {
            let prefix = completion_header(id, label) + "\n"@;
            Some(
                ItemView {
                    message: MessageView::User { content: prefix + output, images: Seq::empty() },
                    prefix,
                    location,
                    field: Some(FieldId::BgOutput),
                    field_total: None,
                    actual_user: false,
                    keep_full: false,
                },
            )
        },
        _ => None,
    }
}

/// The items of the entries `history[from..to]`.
pub open spec fn tail_items(
    history: Seq<EntryView>,
    locations: Seq<Option<Seq<char>>>,
    from: int,
    to: int,
) -> Seq<ItemView>
    decreases to - from,
{
    if to <= from {
        Seq::empty()
    } else {
        let head = tail_items(history, locations, from, to - 1);
        match entry_item(history[to - 1], location_at(locations, to - 1)) {
            Some(item) => head.push(item),
            None => head,
        }
    }
}

/// All items before the marks are set.
pub open spec fn unmarked_items(source: SourceView) -> Seq<ItemView> {
    let start = compacted_len(source.history) as int;
    let compaction = if start > 0 {
        compaction_items(
            source.history[start - 1],
            source.reminder,
            location_at(source.locations, start - 1),
        )
    } else {
        Seq::empty()
    };
    lead_items(source) + compaction + tail_items(
        source.history,
        source.locations,
        start,
        source.history.len() as int,
    )
}

/// A tool result of the pager.
pub open spec fn is_page(item: ItemView) -> bool {
    item.message matches MessageView::Tool { name, .. } && name == "read_output"@
}

/// Number of items up to and with the last real user message; 0 without one.
pub open spec fn prompt_len(items: Seq<ItemView>) -> nat
    decreases items.len(),
{
    if items.len() == 0 || items.last().actual_user {
        items.len()
    } else {
        prompt_len(items.drop_last())
    }
}

/// Number of items up to and with the last pager result; 0 without one.
pub open spec fn page_len(items: Seq<ItemView>) -> nat
    decreases items.len(),
{
    if items.len() == 0 || is_page(items.last()) {
        items.len()
    } else {
        page_len(items.drop_last())
    }
}

/// The items with the current prompt and the newest pager result kept full.
pub open spec fn marked_items(items: Seq<ItemView>) -> Seq<ItemView> {
    Seq::new(
        items.len(),
        |i: int|
            ItemView {
                keep_full: items[i].keep_full || i + 1 == prompt_len(items) || i + 1 == page_len(
                    items,
                ),
                ..items[i]
            },
    )
}

/// The items of a context before the pairing repair.
pub open spec fn context_of(source: SourceView) -> Seq<ItemView> {
    marked_items(unmarked_items(source))
}

/// Append an item to a list.
fn push_item(items: &mut Vec<ContextItem>, item: ContextItem)
    ensures
        final(items).deep_view() == old(items).deep_view().push(item.deep_view()),
{
    let ghost before = items.deep_view();
    items.push(item);
    assert(items.deep_view() =~= before.push(item.deep_view()));
}

/// The items in front of the conversation.
fn lead(prefix: &Option<String>, goal: &Option<GoalSnapshot>, cleared: bool) -> (r: Vec<
    ContextItem,
>)
    ensures
        forall|source: SourceView|
            source.prefix == prefix.deep_view() && source.goal == goal.deep_view() && source.cleared
                == cleared ==> r.deep_view() == #[trigger] lead_items(source),
{
    let mut items: Vec<ContextItem> = Vec::new();
    if let Some(text) = prefix {
        push_item(&mut items, ContextItem::system(Message::System { content: text.clone() }));
    }
    if let Some(goal) = goal {
        let mut content = "[session goal]\n".to_owned();
        content.push_str(goal_projection_text(goal).as_str());
        push_item(&mut items, ContextItem::system(Message::System { content }));
    } else if cleared {
        let content = "[session goal]\nnone (cleared)".to_owned();
        push_item(&mut items, ContextItem::system(Message::System { content }));
    }
    assert forall|source: SourceView|
        source.prefix == prefix.deep_view() && source.goal == goal.deep_view() && source.cleared
            == cleared implies items.deep_view() == #[trigger] lead_items(source) by {
        assert(items.deep_view() =~= lead_items(source));
    }
    items
}

/// The key of entry `index`, where one is known.
fn location_of(locations: &Vec<Option<EntryLocation>>, index: usize) -> (r: Option<EntryLocation>)
    ensures
        r.deep_view() == location_at(locations.deep_view(), index as int),
{
    if index < locations.len() {
        locations[index].clone()
    } else {
        None
    }
}

proof fn lemma_first_user(messages: Seq<MessageView>, n: nat)
    requires
        n <= messages.len(),
        forall|i: int| 0 <= i < n ==> !((#[trigger] messages[i]) is User),
        n < messages.len() ==> messages[n as int] is User,
    ensures
        first_user(messages) == n,
    decreases n,
{
    if n > 0 {
        let rest = messages.drop_first();
        assert forall|i: int| 0 <= i < n - 1 implies !((#[trigger] rest[i]) is User) by {
            assert(rest[i] == messages[i + 1]);
        }
        lemma_first_user(rest, (n - 1) as nat);
    }
}

/// Where the current prompt stands in the retained part of a compaction.
fn find_prompt(retained: &Vec<Message>, current_prompt_at: Option<usize>, no_current_prompt: bool) -> (r:
    Option<usize>)
    ensures
        prompt_at(retained.deep_view(), current_prompt_at, no_current_prompt) == match r {
            Some(index) => Some(index as nat),
            None => None,
        },
{
    if let Some(index) = current_prompt_at {
        return Some(index);
    }
    if no_current_prompt {
        return None;
    }
    let ghost views = retained.deep_view();
    let mut i: usize = 0;
    while i < retained.len()
        invariant
            i <= retained.len(),
            views == retained.deep_view(),
            forall|j: int| 0 <= j < i ==> !((#[trigger] views[j]) is User),
            current_prompt_at is None,
            !no_current_prompt,
        decreases retained.len() - i,
    {
        assert(views[i as int] == retained@[i as int].deep_view());
        if let Message::User { .. } = &retained[i] {
            proof {
                lemma_first_user(views, i as nat);
            }
            return Some(i);
        }
        i += 1;
    }
    proof {
        lemma_first_user(views, i as nat);
    }
    None
}

/// The text in front of a compaction summary.
fn summary_lead(reminder: &Option<String>) -> (r: String)
    ensures
        r@ == summary_prefix(reminder.deep_view()),
{
    let mut text = "[compacted summary of earlier conversation]\n".to_owned();
    if let Some(reminder) = reminder {
        text.push_str("\n[standing directive: ");
        text.push_str(reminder.as_str());
        text.push_str("]\n\n");
    }
    assert(text@ =~= summary_prefix(reminder.deep_view()));
    text
}

/// Append the items of a compaction entry.
fn push_compaction(
    items: &mut Vec<ContextItem>,
    entry: &SessionEntry,
    reminder: &Option<String>,
    location: Option<EntryLocation>,
)
    requires
        entry.deep_view() is Compaction,
    ensures
        final(items).deep_view() == old(items).deep_view() + compaction_items(
            entry.deep_view(),
            reminder.deep_view(),
            location.deep_view(),
        ),
{
    let ghost before = items.deep_view();
    let ghost all = compaction_items(
        entry.deep_view(),
        reminder.deep_view(),
        location.deep_view(),
    );
    if let SessionEntry::Compaction { summary, retained, current_prompt_at, no_current_prompt } =
        entry {
        let prefix = summary_lead(reminder);
        let mut content = prefix.clone();
        content.push_str(summary.as_str());
        let images = Vec::new();
        let lead = ContextItem {
            message: Message::User { content, images },
            prefix,
            location: location.clone(),
            field: Some(FieldId::CompactionSummary),
            field_total: None,
            actual_user: false,
            keep_full: false,
        };
        assert(images.deep_view() =~= Seq::empty());
        assert(lead.deep_view() == all[0]);
        push_item(items, lead);
        assert(items.deep_view() =~= before + all.take(1));
        let total: usize = persisted_bytes(retained);
        let prompt = find_prompt(retained, *current_prompt_at, *no_current_prompt);
        let ghost shown = all.skip(1);
        assert forall|j: int| 0 <= j < retained@.len() implies (#[trigger] shown[j])
            == retained_item(
            retained@[j].deep_view(),
            prompt matches Some(index) && index == j,
            location.deep_view(),
            total,
        ) by {
            assert(shown[j] == all[j + 1]);
            assert(retained.deep_view()[j] == retained@[j].deep_view());
        }
        let mut i: usize = 0;
        while i < retained.len()
            invariant
                i <= retained.len(),
                all.len() == retained@.len() + 1,
                shown == all.skip(1),
                items.deep_view() == before + all.take(i + 1),
                forall|j: int|
                    0 <= j < retained@.len() ==> (#[trigger] shown[j]) == retained_item(
                        retained@[j].deep_view(),
                        prompt matches Some(index) && index == j,
                        location.deep_view(),
                        total,
                    ),
            decreases retained.len() - i,
        {
            let is_user = match &retained[i] {
                Message::User { .. } => true,
                _ => false,
            };
            let is_prompt = match prompt {
                Some(index) => index == i,
                None => false,
            };
            let item = ContextItem {
                message: retained[i].clone(),
                prefix: String::new(),
                location: location.clone(),
                field: Some(FieldId::CompactionRetained),
                field_total: Some(total),
                actual_user: is_user && is_prompt,
                keep_full: false,
            };
            assert(item.deep_view() == shown[i as int]);
            push_item(items, item);
            i += 1;
            assert(before + all.take(i + 1) =~= (before + all.take(i as int)).push(all[i as int]));
        }
        assert(all.take(all.len() as int) =~= all);
    }
}

/// The first line of a background completion.
pub fn completion_line(id: u64, label: &Option<String>) -> (r: String)
    ensures
        r@ == completion_header(id, label.deep_view()),
{
    let mut text = "[background task ".to_owned();
    text.push_str(decimal_text(id).as_str());
    if let Some(label) = label {
        let label = trim(label.as_str());
        if !label.as_str().is_empty() {
            text.push_str(" completed: ");
            text.push_str(label.as_str());
            text.push_str("]");
            return text;
        }
    }
    text.push_str(" completed]");
    text
}

/// What an entry after the last compaction contributes.
fn item_of(entry: &SessionEntry, location: Option<EntryLocation>) -> (r: Option<ContextItem>)
    ensures
        r.deep_view() == entry_item(entry.deep_view(), location.deep_view()),
{
    match entry {
        SessionEntry::Message { message } => {
            let actual_user = match message {
                Message::User { .. } => true,
                _ => false,
            };
            Some(
                ContextItem {
                    message: message.clone(),
                    prefix: String::new(),
                    location,
                    field: None,
                    field_total: None,
                    actual_user,
                    keep_full: false,
                },
            )
        },
        SessionEntry::Notice { text } => {
            let images = Vec::new();
            assert(images.deep_view() =~= Seq::empty());
            Some(
                ContextItem {
                    message: Message::User { content: text.clone(), images },
                    prefix: String::new(),
                    location,
                    field: Some(FieldId::NoticeText),
                    field_total: None,
                    actual_user: false,
                    keep_full: false,
                },
            )
        },
        SessionEntry::BackgroundCompletion { id, output, label, .. } => {
            let mut prefix = completion_line(*id, label);
            prefix.push_str("\n");
            let mut content = prefix.clone();
            content.push_str(output.as_str());
            let images = Vec::new();
            assert(images.deep_view() =~= Seq::empty());
            Some(
                ContextItem {
                    message: Message::User { content, images },
                    prefix,
                    location,
                    field: Some(FieldId::BgOutput),
                    field_total: None,
                    actual_user: false,
                    keep_full: false,
                },
            )
        },
        _ => None,
    }
}

proof fn lemma_compacted_len(history: Seq<EntryView>, n: nat)
    requires
        n <= history.len(),
        forall|i: int| n <= i < history.len() ==> !((#[trigger] history[i]) is Compaction),
        n > 0 ==> history[n - 1] is Compaction,
    ensures
        compacted_len(history) == n,
    decreases history.len(),
{
    if history.len() > n {
        assert(!(history[history.len() - 1] is Compaction));
        lemma_compacted_len(history.drop_last(), n);
    }
}

/// Number of entries up to and with the last compaction; 0 without one.
fn end_of_compaction(history: &Vec<SessionEntry>) -> (r: usize)
    ensures
        r == compacted_len(history.deep_view()),
        r <= history@.len(),
        r > 0 ==> history@[r - 1].deep_view() is Compaction,
{
    let ghost views = history.deep_view();
    let mut n: usize = history.len();
    while n > 0
        invariant
            n <= history.len(),
            views == history.deep_view(),
            forall|i: int| n <= i < views.len() ==> !((#[trigger] views[i]) is Compaction),
        decreases n,
    {
        assert(views[n - 1] == history@[n - 1].deep_view());
        if let SessionEntry::Compaction { .. } = &history[n - 1] {
            proof {
                lemma_compacted_len(views, n as nat);
            }
            return n;
        }
        n -= 1;
    }
    proof {
        lemma_compacted_len(views, 0);
    }
    0
}

pub proof fn lemma_prompt_len(items: Seq<ItemView>, n: nat)
    requires
        n <= items.len(),
        forall|i: int| n <= i < items.len() ==> !(#[trigger] items[i]).actual_user,
        n > 0 ==> items[n - 1].actual_user,
    ensures
        prompt_len(items) == n,
    decreases items.len(),
{
    if items.len() > n {
        assert(!items[items.len() - 1].actual_user);
        lemma_prompt_len(items.drop_last(), n);
    }
}

/// Number of items up to and with the last real user message; 0 without one.
pub fn end_of_prompt(items: &Vec<ContextItem>) -> (r: usize)
    ensures
        r == prompt_len(items.deep_view()),
        r <= items@.len(),
{
    let ghost views = items.deep_view();
    let mut n: usize = items.len();
    while n > 0 && !items[n - 1].actual_user
        invariant
            n <= items.len(),
            views == items.deep_view(),
            forall|i: int| n <= i < views.len() ==> !(#[trigger] views[i]).actual_user,
        decreases n,
    {
        n -= 1;
    }
    proof {
        if n > 0 {
            assert(views[n - 1] == items@[n - 1].deep_view());
        }
        lemma_prompt_len(views, n as nat);
    }
    n
}

proof fn lemma_page_len(items: Seq<ItemView>, n: nat)
    requires
        n <= items.len(),
        forall|i: int| n <= i < items.len() ==> !is_page(#[trigger] items[i]),
        n > 0 ==> is_page(items[n - 1]),
    ensures
        page_len(items) == n,
    decreases items.len(),
{
    if items.len() > n {
        assert(!is_page(items[items.len() - 1]));
        lemma_page_len(items.drop_last(), n);
    }
}

/// Whether an item is a tool result of the pager.
fn is_page_item(item: &ContextItem) -> (r: bool)
    ensures
        r == is_page(item.deep_view()),
{
    match &item.message {
        Message::Tool { name, .. } => same_text(name.as_str(), "read_output"),
        _ => false,
    }
}

/// Number of items up to and with the last pager result; 0 without one.
fn end_of_page(items: &Vec<ContextItem>) -> (r: usize)
    ensures
        r == page_len(items.deep_view()),
        r <= items@.len(),
{
    let ghost views = items.deep_view();
    let mut n: usize = items.len();
    while n > 0 && !is_page_item(&items[n - 1])
        invariant
            n <= items.len(),
            views == items.deep_view(),
            forall|i: int| n <= i < views.len() ==> !is_page(#[trigger] views[i]),
        decreases n,
    {
        n -= 1;
    }
    proof {
        if n > 0 {
            assert(views[n - 1] == items@[n - 1].deep_view());
        }
        lemma_page_len(views, n as nat);
    }
    n
}

/// Keep the item `n - 1` full; no item for 0.
fn keep_full(items: &mut Vec<ContextItem>, n: usize)
    requires
        n <= old(items)@.len(),
    ensures
        final(items)@.len() == old(items)@.len(),
        forall|i: int|
            0 <= i < old(items)@.len() ==> (#[trigger] final(items)@[i]).deep_view() == (ItemView {
                keep_full: old(items)@[i].keep_full || i + 1 == n,
                ..old(items)@[i].deep_view()
            }),
{
    if n > 0 {
        let mut item = items[n - 1].clone();
        item.keep_full = true;
        items.set(n - 1, item);
    }
}

/// The models of the things that a context is derived from.
pub open spec fn source_view(
    prefix: Option<String>,
    reminder: Option<String>,
    goal: Option<GoalSnapshot>,
    cleared: bool,
    history: Vec<SessionEntry>,
    locations: Vec<Option<EntryLocation>>,
) -> SourceView {
    SourceView {
        prefix: prefix.deep_view(),
        reminder: reminder.deep_view(),
        goal: goal.deep_view(),
        cleared,
        history: history.deep_view(),
        locations: locations.deep_view(),
    }
}

/// One item for each provider message, in context order: the instructions, the
/// goal, the latest compaction and everything after it.
pub fn context_items(
    prefix: &Option<String>,
    reminder: &Option<String>,
    goal: &Option<GoalSnapshot>,
    cleared: bool,
    history: &Vec<SessionEntry>,
    locations: &Vec<Option<EntryLocation>>,
) -> (r: Vec<ContextItem>)
    ensures
        r.deep_view() == context_of(
            source_view(*prefix, *reminder, *goal, cleared, *history, *locations),
        ),
{
    let ghost source = source_view(*prefix, *reminder, *goal, cleared, *history, *locations);
    let mut items = lead(prefix, goal, cleared);
    assert(items.deep_view() == lead_items(source));
    let start: usize = end_of_compaction(history);
    if start > 0 {
        let location = location_of(locations, start - 1);
        push_compaction(&mut items, &history[start - 1], reminder, location);
    } else {
        assert(items.deep_view() =~= items.deep_view() + Seq::<ItemView>::empty());
    }
    let ghost head = items.deep_view();
    let mut i: usize = start;
    assert(tail_items(source.history, source.locations, start as int, start as int)
        =~= Seq::empty());
    assert(head =~= head + Seq::<ItemView>::empty());
    while i < history.len()
        invariant
            start <= i <= history.len(),
            source.history == history.deep_view(),
            source.locations == locations.deep_view(),
            items.deep_view() == head + tail_items(
                source.history,
                source.locations,
                start as int,
                i as int,
            ),
        decreases history.len() - i,
    {
        let ghost done = tail_items(source.history, source.locations, start as int, i as int);
        assert(source.history[i as int] == history@[i as int].deep_view());
        let location = location_of(locations, i);
        if let Some(item) = item_of(&history[i], location) {
            push_item(&mut items, item);
            assert((head + done).push(item.deep_view()) =~= head + done.push(item.deep_view()));
        }
        i += 1;
    }
    let ghost unmarked = items.deep_view();
    assert(unmarked == unmarked_items(source));
    let prompt: usize = end_of_prompt(&items);
    let page: usize = end_of_page(&items);
    let ghost before = items@;
    assert(forall|j: int| 0 <= j < before.len() ==> #[trigger] unmarked[j] == before[j].deep_view());
    keep_full(&mut items, prompt);
    keep_full(&mut items, page);
    assert(items.deep_view() =~= marked_items(unmarked));
    items
}

/// The messages of a list of items.
pub fn messages_of(items: &Vec<ContextItem>) -> (r: Vec<Message>)
    ensures
        r.deep_view() == item_messages(items.deep_view()),
{
    let mut out: Vec<Message> = Vec::new();
    let mut i: usize = 0;
    while i < items.len()
        invariant
            i <= items.len(),
            out@.len() == i,
            forall|j: int|
                0 <= j < i ==> (#[trigger] out@[j]).deep_view() == items@[j].message.deep_view(),
        decreases items.len() - i,
    {
        out.push(items[i].message.clone());
        i += 1;
    }
    assert(out.deep_view() =~= item_messages(items.deep_view()));
    out
}

/// A field to be bounded: its text, where it is persisted, and how many bytes
/// the complete field has.
#[derive(Debug, PartialEq)]
pub struct BoundRequest {
    pub text: String,
    pub location: EntryLocation,
    pub field: FieldId,
    pub total: usize,
}

/// Model of a [`BoundRequest`].
#[verifier::ext_equal]
pub struct RequestView {
    pub text: Seq<char>,
    pub location: Seq<char>,
    pub field: FieldId,
    pub total: usize,
}

impl DeepView for BoundRequest {
    type V = RequestView;

    open spec fn deep_view(&self) -> RequestView {
        RequestView {
            text: self.text@,
            location: self.location.deep_view(),
            field: self.field,
            total: self.total,
        }
    }
}

/// The never-bounded prefix of an item really leads its message, and only user
/// messages count as a real user's.
pub open spec fn item_sound(item: ItemView) -> bool {
    &&& item.actual_user ==> item.message is User
    &&& match item.message {
        MessageView::User { content, .. } => has_prefix(content, item.prefix),
        _ => item.prefix.len() == 0,
    }
}

/// The field that an item stands for; none for system messages.
pub open spec fn item_field(item: ItemView) -> Option<FieldId> {
    match item.field {
        Some(field) => Some(field),
        None => match item.message {
            MessageView::User { .. } => Some(FieldId::UserContent),
            MessageView::Assistant(_) => Some(FieldId::AssistantContent),
            MessageView::Tool { .. } => Some(FieldId::ToolContent),
            MessageView::System { .. } => None,
        },
    }
}

/// The text of an item that may be bounded; none for system messages and for
/// assistant messages without content.
pub open spec fn item_text(item: ItemView) -> Option<Seq<char>> {
    match item.message {
        MessageView::User { content, .. } => Some(content.skip(item.prefix.len() as int)),
        MessageView::Assistant(assistant) => assistant.content,
        MessageView::Tool { content, .. } => Some(content),
        MessageView::System { .. } => None,
    }
}

/// What has to be bounded before an item may be sent: nothing for items that
/// are kept full or that no persisted entry stands behind.
pub open spec fn bound_request(item: ItemView) -> Option<RequestView> {
    match (item_field(item), item.location, item_text(item)) {
        (Some(field), Some(location), Some(text)) if !item.keep_full => Some(
            RequestView {
                text,
                location,
                field,
                total: match item.field_total {
                    Some(total) => total,
                    None => vstd::utf8::encode_utf8(text).len() as usize,
                },
            },
        ),
        _ => None,
    }
}

/// The message of an item with its text replaced, where that had to be bounded.
/// Every other message stays as it is, whatever text is given for it.
pub open spec fn projected(item: ItemView, bounded: Option<Seq<char>>) -> MessageView {
    let text = if bound_request(item) is Some {
        bounded
    } else {
        None
    };
    match (item.message, text) {
        (MessageView::User { content, images }, Some(text)) => MessageView::User {
            content: item.prefix + text,
            images,
        },
        (MessageView::Assistant(assistant), Some(text)) => MessageView::Assistant(
            crate::message::AssistantView { content: Some(text), ..assistant },
        ),
        (
            MessageView::Tool { call_id, name, content, images, is_error, synthetic },
            Some(text),
        ) => MessageView::Tool { call_id, name, content: text, images, is_error, synthetic },
        _ => item.message,
    }
}

/// What has to be bounded before `item` may be sent.
pub fn projection_request(item: &ContextItem) -> (r: Option<BoundRequest>)
    requires
        item_sound(item.deep_view()),
    ensures
        r.deep_view() == bound_request(item.deep_view()),
{
    if item.keep_full {
        return None;
    }
    let field = match item.field {
        Some(field) => field,
        None => match &item.message {
            Message::User { .. } => FieldId::UserContent,
            Message::Assistant(_) => FieldId::AssistantContent,
            Message::Tool { .. } => FieldId::ToolContent,
            Message::System { .. } => return None,
        },
    };
    let location = match &item.location {
        Some(location) => location.clone(),
        None => return None,
    };
    let text = match &item.message {
        Message::User { content, .. } => {
            let chars = chars_of(content.as_str());
            let skip: usize = chars_of(item.prefix.as_str()).len();
            let rest = text_of(&chars, skip, chars.len());
            assert(chars@.subrange(skip as int, chars@.len() as int) =~= content@.skip(
                item.prefix@.len() as int,
            ));
            rest
        },
        Message::Assistant(assistant) => match &assistant.content {
            Some(content) => content.clone(),
            None => return None,
        },
        Message::Tool { content, .. } => content.clone(),
        Message::System { .. } => return None,
    };
    let total: usize = match item.field_total {
        Some(total) => total,
        None => text.as_str().len(),
    };
    Some(BoundRequest { text, location, field, total })
}

/// Whether a field of `item` has to be bounded before the item may be sent.
fn is_boundable(item: &ContextItem) -> (r: bool)
    ensures
        r == (bound_request(item.deep_view()) is Some),
{
    if item.keep_full || item.location.is_none() {
        return false;
    }
    match &item.message {
        Message::User { .. } => true,
        Message::Assistant(assistant) => assistant.content.is_some(),
        Message::Tool { .. } => true,
        Message::System { .. } => false,
    }
}

/// The request copy of `item`: its message, with its text replaced by `bounded`
/// where it has to be bounded and that is given.
pub fn project_item(item: &ContextItem, bounded: &Option<String>) -> (r: Message)
    ensures
        r.deep_view() == projected(item.deep_view(), bounded.deep_view()),
{
    if !is_boundable(item) {
        return item.message.clone();
    }
    let text = match bounded {
        Some(text) => text,
        None => return item.message.clone(),
    };
    match &item.message {
        Message::User { images, .. } => {
            let mut content = item.prefix.clone();
            content.push_str(text.as_str());
            let copied = images.clone();
            assert(copied.deep_view() =~= images.deep_view());
            Message::User { content, images: copied }
        },
        Message::Assistant(assistant) => {
            let mut assistant = assistant.clone();
            assistant.content = Some(text.clone());
            Message::Assistant(assistant)
        },
        Message::Tool { call_id, name, images, is_error, synthetic, .. } => {
            let copied = images.clone();
            assert(copied.deep_view() =~= images.deep_view());
            Message::Tool {
                call_id: call_id.clone(),
                name: name.clone(),
                content: text.clone(),
                images: copied,
                is_error: *is_error,
                synthetic: *synthetic,
            }
        },
        Message::System { .. } => item.message.clone(),
    }
}

/// Bounding that leaves the text of a field alone leaves the message alone.
pub proof fn full_projection_is_lossless(item: ItemView)
    requires
        item_sound(item),
    ensures
        projected(item, None) == item.message,
        bound_request(item) matches Some(request) ==> projected(item, Some(request.text))
            == item.message,
{
    if let MessageView::User { content, .. } = item.message {
        assert(content =~= content.take(item.prefix.len() as int) + content.skip(
            item.prefix.len() as int,
        ));
    }
}

/// Two messages of one kind that differ in their text at most: they have the same
/// images, tool calls and call ids, flags and reasoning, and system messages also
/// the same text.
pub open spec fn same_but_text(a: MessageView, b: MessageView) -> bool {
    match (a, b) {
        (MessageView::System { content: x }, MessageView::System { content: y }) => x == y,
        (MessageView::User { images: x, .. }, MessageView::User { images: y, .. }) => x == y,
        (MessageView::Assistant(x), MessageView::Assistant(y)) => x.tool_calls == y.tool_calls
            && x.reasoning == y.reasoning,
        (
            MessageView::Tool {
                call_id: id_a,
                name: name_a,
                images: images_a,
                is_error: error_a,
                synthetic: synthetic_a,
                ..
            },
            MessageView::Tool {
                call_id: id_b,
                name: name_b,
                images: images_b,
                is_error: error_b,
                synthetic: synthetic_b,
                ..
            },
        ) => id_a == id_b && name_a == name_b && images_a == images_b && error_a == error_b
            && synthetic_a == synthetic_b,
        _ => false,
    }
}

/// Whatever the bounded text is, a projection changes nothing but the text of a
/// message, and the never-bounded prefix still leads a user message.
pub proof fn projection_changes_text_only(item: ItemView, bounded: Option<Seq<char>>)
    requires
        item_sound(item),
    ensures
        same_but_text(item.message, projected(item, bounded)),
        projected(item, bounded) matches MessageView::User { content, .. } ==> has_prefix(
            content,
            item.prefix,
        ),
{
    if let (MessageView::User { .. }, Some(text)) = (item.message, bounded) {
        assert((item.prefix + text).take(item.prefix.len() as int) =~= item.prefix);
    }
}

/// What need not be bounded is sent as it is, whatever text is given for it.
pub proof fn unbounded_items_are_sent_as_they_are(item: ItemView, bounded: Option<Seq<char>>)
    ensures
        bound_request(item) is None ==> projected(item, bounded) == item.message,
{
}

/// The last real user message of a list, with what is known of it.
pub open spec fn last_prompt(items: Seq<ItemView>) -> Option<ItemView> {
    if prompt_len(items) == 0 {
        None
    } else {
        Some(items[prompt_len(items) - 1])
    }
}

proof fn lemma_last_prompt_concat(a: Seq<ItemView>, b: Seq<ItemView>)
    ensures
        last_prompt(a + b) == match last_prompt(b) {
            Some(item) => Some(item),
            None => last_prompt(a),
        },
    decreases b.len(),
{
    if b.len() == 0 {
        assert(a + b =~= a);
    } else {
        let whole = a + b;
        assert(whole.last() == b.last());
        assert(whole.drop_last() =~= a + b.drop_last());
        lemma_last_prompt_concat(a, b.drop_last());
        lemma_prompt_len_is_last(whole.drop_last());
        lemma_prompt_len_is_last(b.drop_last());
    }
}

proof fn lemma_placeholders_hold_no_prompt(calls: Seq<CallView>)
    ensures
        last_prompt(placeholder_items(calls)) is None,
    decreases calls.len(),
{
    if calls.len() > 0 {
        assert(placeholder_items(calls).drop_last() =~= placeholder_items(calls.drop_last()));
        lemma_placeholders_hold_no_prompt(calls.drop_last());
    }
}

proof fn lemma_repair_keeps_the_prompt(items: Seq<ItemView>, pending: Seq<CallView>)
    requires
        forall|i: int| 0 <= i < items.len() ==> item_sound(#[trigger] items[i]),
    ensures
        last_prompt(repaired_items_after(items, pending)) == last_prompt(items),
    decreases items.len(),
{
    lemma_placeholders_hold_no_prompt(pending);
    if items.len() > 0 {
        let first = seq![items[0]];
        let rest = items.drop_first();
        assert(items =~= first + rest);
        reveal_with_fuel(prompt_len, 2);
        assert(first.drop_last() =~= Seq::empty());
        assert(first.last() == items[0]);
        lemma_last_prompt_concat(first, rest);
        assert(item_sound(items[0]));
        assert forall|i: int| 0 <= i < rest.len() implies item_sound(#[trigger] rest[i]) by {
            assert(rest[i] == items[i + 1]);
        }
        match items[0].message {
            MessageView::Tool { call_id, synthetic, .. } => {
                let open = if !synthetic && has_call(pending, call_id) {
                    without_call(pending, call_id)
                } else {
                    pending
                };
                lemma_repair_keeps_the_prompt(rest, open);
                lemma_last_prompt_concat(first, repaired_items_after(rest, open));
            },
            _ => {
                let open = match items[0].message {
                    MessageView::Assistant(assistant) => assistant.tool_calls,
                    _ => Seq::empty(),
                };
                let tail = repaired_items_after(rest, open);
                lemma_repair_keeps_the_prompt(rest, open);
                lemma_last_prompt_concat(first, tail);
                lemma_last_prompt_concat(placeholder_items(pending), first + tail);
            },
        }
    }
}

/// In the context that is sent, too, the last real user message is kept full.
pub proof fn sent_prompts_are_kept_full(source: SourceView)
    ensures
        last_prompt(repaired_items(context_of(source))) matches Some(item) ==> item.keep_full
            && bound_request(item) is None,
{
    let marked = context_of(source);
    let unmarked = unmarked_items(source);
    context_items_are_sound(source);
    lemma_repair_keeps_the_prompt(marked, Seq::empty());
    lemma_prompt_len_is_last(unmarked);
    lemma_prompt_len_is_last(marked);
    let n = prompt_len(unmarked);
    assert forall|i: int| n <= i < marked.len() implies !(#[trigger] marked[i]).actual_user by {
        assert(!unmarked[i].actual_user);
    }
    lemma_prompt_len(marked, n);
}

/// Whether no item of a list has a persisted entry behind it.
pub open spec fn unlocated(items: Seq<ItemView>) -> bool {
    forall|i: int| 0 <= i < items.len() ==> (#[trigger] items[i]).location is None
}

proof fn lemma_tail_items_unlocated(
    history: Seq<EntryView>,
    locations: Seq<Option<Seq<char>>>,
    from: int,
    to: int,
)
    requires
        forall|i: int| 0 <= i < locations.len() ==> (#[trigger] locations[i]) is None,
    ensures
        unlocated(tail_items(history, locations, from, to)),
    decreases to - from,
{
    if from < to {
        lemma_tail_items_unlocated(history, locations, from, to - 1);
    }
}

proof fn lemma_repaired_unlocated(items: Seq<ItemView>, pending: Seq<CallView>)
    requires
        unlocated(items),
    ensures
        unlocated(repaired_items_after(items, pending)),
    decreases items.len(),
{
    let whole = repaired_items_after(items, pending);
    let first = placeholder_items(pending);
    assert(unlocated(first)) by {
        assert forall|i: int| 0 <= i < first.len() implies (#[trigger] first[i]).location is None by {
            assert(first[i] == bare_item(placeholder(pending[i])));
        }
    }
    if items.len() > 0 {
        let rest = items.drop_first();
        assert(items[0].location is None);
        assert(unlocated(rest)) by {
            assert forall|i: int| 0 <= i < rest.len() implies (#[trigger] rest[i]).location is None by {
                assert(rest[i] == items[i + 1]);
            }
        }
        match items[0].message {
            MessageView::Tool { call_id, synthetic, .. } => {
                if !synthetic && has_call(pending, call_id) {
                    lemma_repaired_unlocated(rest, without_call(pending, call_id));
                } else {
                    lemma_repaired_unlocated(rest, pending);
                }
            },
            _ => {
                let open = match items[0].message {
                    MessageView::Assistant(assistant) => assistant.tool_calls,
                    _ => Seq::empty(),
                };
                lemma_repaired_unlocated(rest, open);
                let tail = repaired_items_after(rest, open);
                assert(whole == first + (seq![items[0]] + tail));
            },
        }
    }
}

/// Without keys no item of a context has one.
pub proof fn contexts_without_keys_are_unlocated(source: SourceView)
    requires
        forall|i: int| 0 <= i < source.locations.len() ==> (#[trigger] source.locations[i]) is None,
    ensures
        unlocated(repaired_items(context_of(source))),
{
    let start = compacted_len(source.history) as int;
    lemma_tail_items_unlocated(
        source.history,
        source.locations,
        start,
        source.history.len() as int,
    );
    let unmarked = unmarked_items(source);
    assert(unlocated(unmarked)) by {
        let lead = lead_items(source);
        let tail = tail_items(
            source.history,
            source.locations,
            start,
            source.history.len() as int,
        );
        let compaction = if start > 0 {
            compaction_items(
                source.history[start - 1],
                source.reminder,
                location_at(source.locations, start - 1),
            )
        } else {
            Seq::empty()
        };
        assert forall|i: int| 0 <= i < unmarked.len() implies (#[trigger] unmarked[i]).location is None by {
            if i < lead.len() {
                assert(unmarked[i] == lead[i]);
            } else if i < lead.len() + compaction.len() {
                assert(unmarked[i] == compaction[i - lead.len()]);
            } else {
                assert(unmarked[i] == tail[i - lead.len() - compaction.len()]);
            }
        }
    }
    let marked = context_of(source);
    assert forall|i: int| 0 <= i < marked.len() implies (#[trigger] marked[i]).location is None by {
        assert(unmarked[i].location is None);
    }
    lemma_repaired_unlocated(marked, Seq::empty());
}

proof fn lemma_entry_item_sound(entry: EntryView, location: Option<Seq<char>>)
    ensures
        entry_item(entry, location) matches Some(item) ==> item_sound(item),
{
    if let Some(item) = entry_item(entry, location) {
        if let MessageView::User { content, .. } = item.message {
            assert(content.take(item.prefix.len() as int) =~= item.prefix);
        }
    }
}

proof fn lemma_tail_items_sound(
    history: Seq<EntryView>,
    locations: Seq<Option<Seq<char>>>,
    from: int,
    to: int,
)
    ensures
        forall|i: int|
            0 <= i < tail_items(history, locations, from, to).len() ==> item_sound(
                #[trigger] tail_items(history, locations, from, to)[i],
            ),
    decreases to - from,
{
    if from < to {
        lemma_tail_items_sound(history, locations, from, to - 1);
        lemma_entry_item_sound(history[to - 1], location_at(locations, to - 1));
        let head = tail_items(history, locations, from, to - 1);
        let whole = tail_items(history, locations, from, to);
        assert forall|i: int| 0 <= i < whole.len() implies item_sound(#[trigger] whole[i]) by {
            if i < head.len() {
                assert(whole[i] == head[i]);
                assert(item_sound(head[i]));
            }
        }
    }
}

/// Every item of a context is sound, before and after the pairing repair.
pub proof fn context_items_are_sound(source: SourceView)
    ensures
        forall|i: int|
            0 <= i < context_of(source).len() ==> item_sound(#[trigger] context_of(source)[i]),
        forall|i: int|
            0 <= i < repaired_items(context_of(source)).len() ==> item_sound(
                #[trigger] repaired_items(context_of(source))[i],
            ),
{
    let start = compacted_len(source.history) as int;
    lemma_tail_items_sound(
        source.history,
        source.locations,
        start,
        source.history.len() as int,
    );
    let unmarked = unmarked_items(source);
    assert forall|i: int| 0 <= i < unmarked.len() implies item_sound(#[trigger] unmarked[i]) by {
        let lead = lead_items(source);
        if i < lead.len() {
            assert(lead[i].prefix.len() == 0);
            assert(unmarked[i] == lead[i]);
        } else if start > 0 {
            let entry = source.history[start - 1];
            let location = location_at(source.locations, start - 1);
            let items = compaction_items(entry, source.reminder, location);
            if i < lead.len() + items.len() {
                assert(unmarked[i] == items[i - lead.len()]);
                let content = summary_prefix(source.reminder) + entry->summary;
                assert(content.take(summary_prefix(source.reminder).len() as int)
                    =~= summary_prefix(source.reminder));
                if let MessageView::User { content, .. } = items[i - lead.len()].message {
                    assert(content.take(0) =~= Seq::empty());
                }
            }
        }
    }
    let marked = context_of(source);
    assert forall|i: int| 0 <= i < marked.len() implies item_sound(#[trigger] marked[i]) by {
        assert(item_sound(unmarked[i]));
    }
    lemma_repaired_items_sound(marked, Seq::empty());
}

proof fn lemma_repaired_items_sound(items: Seq<ItemView>, pending: Seq<CallView>)
    requires
        forall|i: int| 0 <= i < items.len() ==> item_sound(#[trigger] items[i]),
    ensures
        forall|i: int|
            0 <= i < repaired_items_after(items, pending).len() ==> item_sound(
                #[trigger] repaired_items_after(items, pending)[i],
            ),
    decreases items.len(),
{
    let whole = repaired_items_after(items, pending);
    let first = placeholder_items(pending);
    if items.len() > 0 {
        let rest = items.drop_first();
        assert forall|i: int| 0 <= i < rest.len() implies item_sound(#[trigger] rest[i]) by {
            assert(rest[i] == items[i + 1]);
        }
        assert(item_sound(items[0]));
        match items[0].message {
            MessageView::Tool { call_id, synthetic, .. } => {
                if !synthetic && has_call(pending, call_id) {
                    let open = without_call(pending, call_id);
                    let tail = repaired_items_after(rest, open);
                    lemma_repaired_items_sound(rest, open);
                    assert forall|i: int| 0 <= i < whole.len() implies item_sound(
                        #[trigger] whole[i],
                    ) by {
                        if i > 0 {
                            assert(whole[i] == tail[i - 1]);
                        }
                    }
                } else {
                    let tail = repaired_items_after(rest, pending);
                    lemma_repaired_items_sound(rest, pending);
                    assert(whole == tail);
                    assert forall|i: int| 0 <= i < whole.len() implies item_sound(
                        #[trigger] whole[i],
                    ) by {
                        assert(item_sound(tail[i]));
                    }
                }
            },
            _ => {
                let open = match items[0].message {
                    MessageView::Assistant(assistant) => assistant.tool_calls,
                    _ => Seq::empty(),
                };
                let tail = repaired_items_after(rest, open);
                lemma_repaired_items_sound(rest, open);
                assert(whole == first + (seq![items[0]] + tail));
                assert forall|i: int| 0 <= i < whole.len() implies item_sound(
                    #[trigger] whole[i],
                ) by {
                    if i < first.len() {
                        assert(whole[i] == first[i]);
                    } else if i > first.len() {
                        assert(whole[i] == tail[i - first.len() - 1]);
                    }
                }
            },
        }
    } else {
        assert forall|i: int| 0 <= i < whole.len() implies item_sound(#[trigger] whole[i]) by {
            assert(whole[i] == bare_item(placeholder(pending[i])));
        }
    }
}

/// The current prompt is never bounded: the last real user message of a
/// context is kept full.
pub proof fn current_prompt_is_kept_full(source: SourceView)
    ensures
        ({
            let items = context_of(source);
            let n = prompt_len(unmarked_items(source));
            n > 0 ==> items[n - 1].actual_user && bound_request(items[n - 1]) is None && forall|
                i: int,
            |
                n <= i < items.len() ==> !(#[trigger] items[i]).actual_user
        }),
{
    lemma_prompt_len_is_last(unmarked_items(source));
}

/// The newest pager result is never bounded: it is the page that the model asked
/// to see.
pub proof fn newest_page_is_kept_full(source: SourceView)
    ensures
        ({
            let items = context_of(source);
            let n = page_len(unmarked_items(source));
            n > 0 ==> is_page(items[n - 1]) && bound_request(items[n - 1]) is None && forall|i: int|
                n <= i < items.len() ==> !is_page(#[trigger] items[i])
        }),
{
    let unmarked = unmarked_items(source);
    lemma_page_len_is_last(unmarked);
    assert forall|i: int| 0 <= i < unmarked.len() implies is_page(#[trigger] context_of(source)[i])
        == is_page(unmarked[i]) by {}
}

proof fn lemma_page_len_is_last(items: Seq<ItemView>)
    ensures
        page_len(items) <= items.len(),
        page_len(items) > 0 ==> is_page(items[page_len(items) - 1]),
        forall|i: int| page_len(items) <= i < items.len() ==> !is_page(#[trigger] items[i]),
    decreases items.len(),
{
    if items.len() > 0 && !is_page(items.last()) {
        let head = items.drop_last();
        lemma_page_len_is_last(head);
        assert forall|i: int| page_len(items) <= i < items.len() implies !is_page(
            #[trigger] items[i],
        ) by {
            if i < head.len() {
                assert(head[i] == items[i]);
            }
        }
    }
}

/// System messages, and messages that no persisted entry stands behind, are
/// never bounded: no message points to a place that cannot be read.
pub proof fn only_persisted_fields_are_bounded(item: ItemView)
    ensures
        item.location is None ==> bound_request(item) is None,
        item.message is System ==> bound_request(item) is None,
        bound_request(item) matches Some(request) ==> item.location == Some(request.location),
{
}

pub proof fn lemma_prompt_len_is_last(items: Seq<ItemView>)
    ensures
        prompt_len(items) <= items.len(),
        prompt_len(items) > 0 ==> items[prompt_len(items) - 1].actual_user,
        forall|i: int| prompt_len(items) <= i < items.len() ==> !(#[trigger] items[i]).actual_user,
    decreases items.len(),
{
    if items.len() > 0 && !items.last().actual_user {
        let head = items.drop_last();
        lemma_prompt_len_is_last(head);
        assert forall|i: int| prompt_len(items) <= i < items.len() implies !(
        #[trigger] items[i]).actual_user by {
            if i < head.len() {
                assert(head[i] == items[i]);
            }
        }
    }
}

/// Fork provenance, harness errors and goal updates never reach the provider:
/// appending one leaves the conversation part of the context unchanged.
pub proof fn audit_entries_stay_out_of_context(
    history: Seq<EntryView>,
    locations: Seq<Option<Seq<char>>>,
    entry: EntryView,
    location: Option<Seq<char>>,
)
    requires
        entry is ForkedFrom || entry is Error || entry is GoalUpdated,
        history.len() == locations.len(),
    ensures
        compacted_len(history.push(entry)) == compacted_len(history),
        tail_items(
            history.push(entry),
            locations.push(location),
            compacted_len(history) as int,
            history.len() as int + 1,
        ) == tail_items(
            history,
            locations,
            compacted_len(history) as int,
            history.len() as int,
        ),
{
    assert(history.push(entry).drop_last() =~= history);
    lemma_tail_items_local(
        history,
        locations,
        history.push(entry),
        locations.push(location),
        compacted_len(history) as int,
        history.len() as int,
    );
}

proof fn lemma_tail_items_local(
    history: Seq<EntryView>,
    locations: Seq<Option<Seq<char>>>,
    longer: Seq<EntryView>,
    longer_locations: Seq<Option<Seq<char>>>,
    from: int,
    to: int,
)
    requires
        to <= history.len() <= longer.len(),
        history.len() == locations.len(),
        longer.len() == longer_locations.len(),
        0 <= from,
        forall|i: int| 0 <= i < history.len() ==> history[i] == #[trigger] longer[i],
        forall|i: int| 0 <= i < history.len() ==> locations[i] == #[trigger] longer_locations[i],
    ensures
        tail_items(longer, longer_locations, from, to) == tail_items(history, locations, from, to),
    decreases to - from,
{
    if from < to {
        lemma_tail_items_local(history, locations, longer, longer_locations, from, to - 1);
        assert(history[to - 1] == longer[to - 1]);
        assert(locations[to - 1] == longer_locations[to - 1]);
    }
}

/// A context without a history holds the instructions, then the goal as it is
/// projected; a goal that was cleared is named as cleared.
pub proof fn contexts_begin_with_instructions_and_goal(source: SourceView)
    requires
        source.history.len() == 0,
    ensures
        ({
            let messages = item_messages(context_of(source));
            let goal = match source.goal {
                Some(goal) => Some("[session goal]\n"@ + projection(goal)),
                None => if source.cleared {
                    Some("[session goal]\nnone (cleared)"@)
                } else {
                    None
                },
            };
            match (source.prefix, goal) {
                (None, None) => messages.len() == 0,
                (Some(text), None) => messages == seq![MessageView::System { content: text }],
                (None, Some(goal)) => messages == seq![MessageView::System { content: goal }],
                (Some(text), Some(goal)) => messages == seq![
                    MessageView::System { content: text },
                    MessageView::System { content: goal },
                ],
            }
        }),
{
    let messages = item_messages(context_of(source));
    let all = unmarked_items(source);
    assert(all =~= lead_items(source));
    assert forall|i: int| 0 <= i < messages.len() implies #[trigger] messages[i]
        == lead_items(source)[i].message by {}
    let goal = match source.goal {
        Some(goal) => Some("[session goal]\n"@ + projection(goal)),
        None => if source.cleared {
            Some("[session goal]\nnone (cleared)"@)
        } else {
            None
        },
    };
    match (source.prefix, goal) {
        (None, None) => {},
        (Some(text), None) => {
            assert(messages =~= seq![MessageView::System { content: text }]);
        },
        (None, Some(goal)) => {
            assert(messages =~= seq![MessageView::System { content: goal }]);
        },
        (Some(text), Some(goal)) => {
            assert(messages =~= seq![
                MessageView::System { content: text },
                MessageView::System { content: goal },
            ]);
        },
    }
}

/// A context goes on with its history: a message is added as it is, a notice as
/// the words of a user, and the output of a background task likewise, under a line
/// that names the task. Where a fork comes from, errors and goals add nothing.
pub proof fn contexts_go_on_with_the_history(
    source: SourceView,
    entry: EntryView,
    location: Option<Seq<char>>,
)
    requires
        source.history.len() == source.locations.len(),
        !(entry is Compaction),
    ensures
        ({
            let after = SourceView {
                history: source.history.push(entry),
                locations: source.locations.push(location),
                ..source
            };
            let before = item_messages(context_of(source));
            item_messages(context_of(after)) == match entry {
                EntryView::Message { message } => before.push(message),
                EntryView::Notice { text } => before.push(
                    MessageView::User { content: text, images: Seq::empty() },
                ),
                EntryView::BackgroundCompletion { id, output, label, .. } => before.push(
                    MessageView::User {
                        content: (if label is Some && trimmed(label->0).len() > 0 {
                            "[background task "@ + decimal(id as nat) + " completed: "@ + trimmed(
                                label->0,
                            ) + "]"@
                        } else {
                            "[background task "@ + decimal(id as nat) + " completed]"@
                        }) + "\n"@ + output,
                        images: Seq::empty(),
                    },
                ),
                _ => before,
            }
        }),
{
    let after = SourceView {
        history: source.history.push(entry),
        locations: source.locations.push(location),
        ..source
    };
    let n = source.history.len() as int;
    let start = compacted_len(source.history) as int;
    lemma_compacted_len_fits(source.history);
    assert(after.history.drop_last() =~= source.history);
    assert(compacted_len(after.history) == start);
    lemma_tail_items_local(
        source.history,
        source.locations,
        after.history,
        after.locations,
        start,
        n,
    );
    assert(after.history[n] == entry);
    if start > 0 {
        assert(after.history[start - 1] == source.history[start - 1]);
        assert(location_at(after.locations, start - 1) == location_at(source.locations, start - 1));
    }
    let old = unmarked_items(source);
    let new = unmarked_items(after);
    let before = item_messages(context_of(source));
    let messages = item_messages(context_of(after));
    match entry_item(entry, location_at(after.locations, n)) {
        Some(item) => {
            assert(new =~= old.push(item));
            assert forall|i: int| 0 <= i < old.len() implies #[trigger] messages[i] == before[i] by {
                assert(new[i] == old[i]);
            }
            assert(messages =~= before.push(item.message));
        },
        None => {
            assert(new =~= old);
            assert(messages =~= before);
        },
    }
}

proof fn lemma_compacted_len_fits(history: Seq<EntryView>)
    ensures
        compacted_len(history) <= history.len(),
    decreases history.len(),
{
    if history.len() > 0 && !(history.last() is Compaction) {
        lemma_compacted_len_fits(history.drop_last());
    }
}

/// A compaction takes the place of everything before it: behind the instructions
/// and the goal, the context is the summary, under its heading and the standing
/// directive, and then what was retained, word for word.
pub proof fn compactions_take_the_place_of_the_past(
    source: SourceView,
    summary: Seq<char>,
    retained: Seq<MessageView>,
    at: Option<usize>,
    none: bool,
    location: Option<Seq<char>>,
)
    requires
        source.history.len() == source.locations.len(),
    ensures
        ({
            let entry = EntryView::Compaction {
                summary,
                retained,
                current_prompt_at: at,
                no_current_prompt: none,
            };
            let after = SourceView {
                history: source.history.push(entry),
                locations: source.locations.push(location),
                ..source
            };
            let bare = SourceView { history: Seq::empty(), locations: Seq::empty(), ..source };
            let heading = "[compacted summary of earlier conversation]\n"@;
            let lead = match source.reminder {
                Some(reminder) => heading + "\n[standing directive: "@ + reminder + "]\n\n"@,
                None => heading,
            };
            item_messages(context_of(after)) == item_messages(context_of(bare)).push(
                MessageView::User { content: lead + summary, images: Seq::empty() },
            ) + retained
        }),
{
    let entry = EntryView::Compaction {
        summary,
        retained,
        current_prompt_at: at,
        no_current_prompt: none,
    };
    let after = SourceView {
        history: source.history.push(entry),
        locations: source.locations.push(location),
        ..source
    };
    let bare = SourceView { history: Seq::empty(), locations: Seq::empty(), ..source };
    let n = source.history.len() as int;
    assert(compacted_len(after.history) == n + 1);
    let lead = lead_items(source);
    let shown = compaction_items(entry, source.reminder, location_at(after.locations, n));
    let all = unmarked_items(after);
    assert(after.history[n] == entry);
    assert(all =~= lead + shown);
    assert(unmarked_items(bare) =~= lead);
    let messages = item_messages(context_of(after));
    let first = item_messages(context_of(bare));
    let summed = MessageView::User {
        content: summary_prefix(source.reminder) + summary,
        images: Seq::empty(),
    };
    assert forall|i: int| 0 <= i < messages.len() implies #[trigger] messages[i] == (first.push(
        summed,
    ) + retained)[i] by {
        if i < lead.len() {
            assert(all[i] == lead[i]);
            assert(first[i] == lead[i].message);
        } else {
            assert(all[i] == shown[i - lead.len()]);
            if i > lead.len() {
                assert(shown[i - lead.len()].message == retained[i - lead.len() - 1]);
            }
        }
    }
    assert(messages =~= first.push(summed) + retained);
}

/// Which of the retained messages is the prompt: the one that the compaction
/// names, none where it says that there is none, and the first user message of an
/// old compaction that says nothing.
pub proof fn compactions_name_their_prompt(
    retained: Seq<MessageView>,
    at: Option<usize>,
    none: bool,
    first: int,
)
    requires
        0 <= first <= retained.len(),
        forall|i: int| 0 <= i < first ==> !((#[trigger] retained[i]) is User),
        first < retained.len() ==> retained[first] is User,
    ensures
        at matches Some(index) ==> prompt_at(retained, at, none) == Some(index as nat),
        at is None && none ==> prompt_at(retained, at, none) is None,
        at is None && !none ==> prompt_at(retained, at, none) == if first < retained.len() {
            Some(first as nat)
        } else {
            None
        },
{
    lemma_first_user_at(retained, first as nat);
}

proof fn lemma_first_user_at(messages: Seq<MessageView>, n: nat)
    requires
        n <= messages.len(),
        forall|i: int| 0 <= i < n ==> !((#[trigger] messages[i]) is User),
        n < messages.len() ==> messages[n as int] is User,
    ensures
        first_user(messages) == n,
    decreases n,
{
    if n > 0 {
        let rest = messages.drop_first();
        assert(!(messages[0] is User));
        assert forall|i: int| 0 <= i < n - 1 implies !((#[trigger] rest[i]) is User) by {
            assert(rest[i] == messages[i + 1]);
        }
        lemma_first_user_at(rest, (n - 1) as nat);
    }
}

/// Only two messages of a context are kept full: the last one of a real user, and
/// the newest page of the pager.
pub proof fn only_the_prompt_and_the_newest_page_are_kept_full(source: SourceView, at: int)
    requires
        0 <= at < context_of(source).len(),
    ensures
        ({
            let items = context_of(source);
            let is_pager = |item: ItemView|
                item.message matches MessageView::Tool { name, .. } && name == "read_output"@;
            items[at].keep_full <==> (items[at].actual_user && forall|i: int|
                at < i < items.len() ==> !(#[trigger] items[i]).actual_user) || (is_pager(items[at])
                && forall|i: int| at < i < items.len() ==> !is_pager(#[trigger] items[i]))
        }),
{
    let all = unmarked_items(source);
    let items = context_of(source);
    lemma_prompt_len_is_last(all);
    lemma_page_len_is_last(all);
    lemma_unmarked_are_not_full(source);
    assert forall|i: int| 0 <= i < items.len() implies (#[trigger] items[i]).actual_user
        == all[i].actual_user && is_page(items[i]) == is_page(all[i]) by {}
    let is_pager = |item: ItemView|
        item.message matches MessageView::Tool { name, .. } && name == "read_output"@;
    assert forall|i: int| 0 <= i < items.len() implies is_pager(#[trigger] items[i]) == is_page(
        items[i],
    ) by {}
    let p = prompt_len(all) as int;
    let q = page_len(all) as int;
    if items[at].actual_user && at + 1 < p {
        assert(items[p - 1].actual_user);
    }
    if is_page(items[at]) && at + 1 < q {
        assert(is_pager(items[q - 1]));
    }
}

proof fn lemma_unmarked_are_not_full(source: SourceView)
    ensures
        forall|i: int|
            0 <= i < unmarked_items(source).len() ==> !(#[trigger] unmarked_items(
                source,
            )[i]).keep_full,
{
    let start = compacted_len(source.history) as int;
    let all = unmarked_items(source);
    let lead = lead_items(source);
    let compaction = if start > 0 {
        compaction_items(
            source.history[start - 1],
            source.reminder,
            location_at(source.locations, start - 1),
        )
    } else {
        Seq::empty()
    };
    let tail = tail_items(source.history, source.locations, start, source.history.len() as int);
    lemma_tail_is_not_full(source.history, source.locations, start, source.history.len() as int);
    assert forall|i: int| 0 <= i < all.len() implies !(#[trigger] all[i]).keep_full by {
        if i < lead.len() {
            assert(all[i] == lead[i]);
        } else if i < lead.len() + compaction.len() {
            assert(all[i] == compaction[i - lead.len()]);
        } else {
            assert(all[i] == tail[i - lead.len() - compaction.len()]);
        }
    }
}

proof fn lemma_tail_is_not_full(
    history: Seq<EntryView>,
    locations: Seq<Option<Seq<char>>>,
    from: int,
    to: int,
)
    ensures
        forall|i: int|
            0 <= i < tail_items(history, locations, from, to).len() ==> !(#[trigger] tail_items(
                history,
                locations,
                from,
                to,
            )[i]).keep_full,
    decreases to - from,
{
    if from < to {
        lemma_tail_is_not_full(history, locations, from, to - 1);
        let head = tail_items(history, locations, from, to - 1);
        let whole = tail_items(history, locations, from, to);
        assert forall|i: int| 0 <= i < whole.len() implies !(#[trigger] whole[i]).keep_full by {
            if i < head.len() {
                assert(whole[i] == head[i]);
            }
        }
    }
}

/// What is bounded is the text of a message behind its prefix, under the key of
/// its entry and the name of its field; what is sent in its place stands behind
/// the same prefix.
pub proof fn bounded_texts_take_their_place(item: ItemView, short: Seq<char>)
    requires
        item_sound(item),
    ensures
        bound_request(item) matches Some(request) ==> {
            &&& !item.keep_full
            &&& item.location == Some(request.location)
            &&& item.field is Some ==> item.field == Some(request.field)
            &&& item.field_total is Some ==> item.field_total == Some(request.total)
            &&& item.field_total is None ==> request.total == vstd::utf8::encode_utf8(
                request.text,
            ).len() as usize
            &&& match item.message {
                MessageView::User { content, images } => content == item.prefix + request.text
                    && projected(item, Some(short)) == (MessageView::User {
                    content: item.prefix + short,
                    images,
                }) && (item.field is None ==> request.field == FieldId::UserContent),
                MessageView::Assistant(assistant) => assistant.content == Some(request.text)
                    && projected(item, Some(short)) == MessageView::Assistant(
                    crate::message::AssistantView {
                        content: Some(short),
                        tool_calls: assistant.tool_calls,
                        reasoning: assistant.reasoning,
                    },
                ) && (item.field is None ==> request.field == FieldId::AssistantContent),
                MessageView::Tool { call_id, name, content, images, is_error, synthetic } => content
                    == request.text && projected(item, Some(short)) == (MessageView::Tool {
                    call_id,
                    name,
                    content: short,
                    images,
                    is_error,
                    synthetic,
                }) && (item.field is None ==> request.field == FieldId::ToolContent),
                MessageView::System { .. } => false,
            }
        },
        bound_request(item) is None ==> item.keep_full || item.location is None
            || item.message is System || (item.message matches MessageView::Assistant(assistant)
            && assistant.content is None),
{
    if let MessageView::User { content, .. } = item.message {
        assert(content =~= content.take(item.prefix.len() as int) + content.skip(
            item.prefix.len() as int,
        ));
    }
}

/// What enters a context keeps its key: the item of a new entry is found under the
/// key of the entry, and only a message of the user counts as the user's own words.
pub proof fn items_keep_the_key_of_their_entry(
    source: SourceView,
    entry: EntryView,
    location: Option<Seq<char>>,
)
    requires
        source.history.len() == source.locations.len(),
        entry is Message || entry is Notice || entry is BackgroundCompletion,
    ensures
        ({
            let after = SourceView {
                history: source.history.push(entry),
                locations: source.locations.push(location),
                ..source
            };
            let items = context_of(after);
            &&& items.len() > 0
            &&& items.last().location == location
            &&& items.last().actual_user <==> (entry matches EntryView::Message { message }
                && message is User)
            &&& entry is Message ==> items.last().field is None && items.last().prefix.len() == 0
            &&& entry is Notice ==> items.last().field == Some(FieldId::NoticeText)
            &&& entry is BackgroundCompletion ==> items.last().field == Some(FieldId::BgOutput)
        }),
{
    let after = SourceView {
        history: source.history.push(entry),
        locations: source.locations.push(location),
        ..source
    };
    let n = source.history.len() as int;
    let start = compacted_len(source.history) as int;
    lemma_compacted_len_fits(source.history);
    assert(after.history.drop_last() =~= source.history);
    assert(after.history[n] == entry);
    assert(compacted_len(after.history) == start);
    let item = entry_item(entry, location_at(after.locations, n))->0;
    let tail = tail_items(after.history, after.locations, start, n + 1);
    let all = unmarked_items(after);
    assert(tail.last() == item);
    assert(all[all.len() - 1] == item);
}

/// The items of a compaction are all found under its key, the summary as a summary
/// and what was retained as retained, and only the prompt that it names counts as
/// the user's own words.
pub proof fn compacted_items_keep_the_key(
    summary: Seq<char>,
    retained: Seq<MessageView>,
    at: Option<usize>,
    none: bool,
    reminder: Option<Seq<char>>,
    location: Option<Seq<char>>,
    i: int,
)
    requires
        0 <= i < retained.len(),
    ensures
        ({
            let entry = EntryView::Compaction {
                summary,
                retained,
                current_prompt_at: at,
                no_current_prompt: none,
            };
            let items = compaction_items(entry, reminder, location);
            &&& items.len() == 1 + retained.len()
            &&& items[0].location == location && items[0].field == Some(
                FieldId::CompactionSummary,
            ) && !items[0].actual_user
            &&& items[1 + i].location == location && items[1 + i].field == Some(
                FieldId::CompactionRetained,
            )
            &&& items[1 + i].message == retained[i]
            &&& at matches Some(index) ==> (items[1 + i].actual_user <==> i == index
                && retained[i] is User)
            &&& at is None && none ==> !items[1 + i].actual_user
        }),
{
}

proof fn lemma_repaired_items_come_from(items: Seq<ItemView>, pending: Seq<CallView>)
    ensures
        forall|i: int|
            0 <= i < repaired_items_after(items, pending).len() ==> items.contains(
                #[trigger] repaired_items_after(items, pending)[i],
            ) || (repaired_items_after(items, pending)[i].message matches MessageView::Tool {
                synthetic,
                ..
            } && synthetic && repaired_items_after(items, pending)[i].location is None),
    decreases items.len(),
{
    let out = repaired_items_after(items, pending);
    if items.len() > 0 {
        let rest = items.drop_first();
        let (lead, open, kept) = match items[0].message {
            MessageView::Tool { call_id, synthetic, .. } => if !synthetic && has_call(
                pending,
                call_id,
            ) {
                (Seq::<ItemView>::empty(), without_call(pending, call_id), true)
            } else {
                (Seq::<ItemView>::empty(), pending, false)
            },
            MessageView::Assistant(assistant) => (
                placeholder_items(pending),
                assistant.tool_calls,
                true,
            ),
            _ => (placeholder_items(pending), Seq::empty(), true),
        };
        let tail = repaired_items_after(rest, open);
        let head = if kept {
            lead + seq![items[0]]
        } else {
            lead
        };
        lemma_repaired_items_come_from(rest, open);
        assert(out =~= head + tail);
        assert forall|i: int| 0 <= i < out.len() implies items.contains(#[trigger] out[i]) || (
        out[i].message matches MessageView::Tool { synthetic, .. } && synthetic
            && out[i].location is None) by {
            if i < lead.len() {
                assert(out[i] == bare_item(placeholder(pending[i])));
            } else if i < head.len() {
                assert(out[i] == items[0]);
            } else {
                assert(out[i] == tail[i - head.len()]);
                if rest.contains(out[i]) {
                    let k = choose|k: int| 0 <= k < rest.len() && rest[k] == out[i];
                    assert(items[k + 1] == out[i]);
                }
            }
        }
    }
}

/// The repair keeps what it keeps with everything that is known of it: its key, its
/// field and its marks. What it adds is synthetic and has no key.
pub proof fn repaired_items_keep_what_is_known(items: Seq<ItemView>, at: int)
    requires
        0 <= at < repaired_items(items).len(),
    ensures
        items.contains(repaired_items(items)[at]) || (repaired_items(
            items,
        )[at].message matches MessageView::Tool { synthetic, .. } && synthetic && repaired_items(
            items,
        )[at].location is None),
{
    lemma_repaired_items_come_from(items, Seq::empty());
}

/// The messages of a list of items are those of the items, in order.
pub proof fn items_hold_their_messages(items: Seq<ItemView>, i: int)
    ensures
        item_messages(items).len() == items.len(),
        0 <= i < items.len() ==> item_messages(items)[i] == items[i].message,
{
}

} // verus!
