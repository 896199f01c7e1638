//! The provider's pairing rule: every tool call of an assistant message is
//! answered by a tool result before the conversation goes on, and every tool
//! result answers such a call. Interrupted turns break the rule; the repair
//! restores it.
use vstd::prelude::*;

use crate::message::{CallView, Message, MessageView, ToolCall, INTERRUPTED};
use crate::text::same_text;

verus! {

/// The synthetic error result for a call that was never answered.
pub open spec fn placeholder(call: CallView) -> MessageView {
    MessageView::Tool {
        call_id: call.id,
        name: call.name,
        content: INTERRUPTED@,
        images: Seq::empty(),
        is_error: true,
        synthetic: true,
    }
}

/// One placeholder for each call, in order.
pub open spec fn placeholders(calls: Seq<CallView>) -> Seq<MessageView> {
    calls.map_values(|call: CallView| placeholder(call))
}

/// Some call of `calls` has the id `id`.
pub open spec fn has_call(calls: Seq<CallView>, id: Seq<char>) -> bool {
    exists|i: int| 0 <= i < calls.len() && (#[trigger] calls[i]).id == id
}

/// The calls whose id is not `id`.
pub open spec fn without_call(calls: Seq<CallView>, id: Seq<char>) -> Seq<CallView> {
    calls.filter(|call: CallView| call.id != id)
}

/// The repaired form of `messages` where the calls `pending` are still open:
/// a real result stays if it answers an open call and closes it, placeholders
/// and orphaned results go, and a call that is still open when the next
/// message or the end comes gets a placeholder there.
pub open spec fn repaired_after(messages: Seq<MessageView>, pending: Seq<CallView>) -> Seq<
    MessageView,
>
    decreases messages.len(),
{
    if messages.len() == 0 {
        placeholders(pending)
    } else {
        let rest = messages.drop_first();
        match messages[0] {
            MessageView::Tool { call_id, synthetic, .. } => if !synthetic && has_call(
                pending,
                call_id,
            ) {
                seq![messages[0]] + repaired_after(rest, without_call(pending, call_id))
            } else {
                repaired_after(rest, pending)
            },
            MessageView::Assistant(assistant) => placeholders(pending) + (seq![messages[0]]
                + repaired_after(rest, assistant.tool_calls)),
            _ => placeholders(pending) + (seq![messages[0]] + repaired_after(rest, Seq::empty())),
        }
    }
}

/// The repaired form of a whole context.
pub open spec fn repaired(messages: Seq<MessageView>) -> Seq<MessageView> {
    repaired_after(messages, Seq::empty())
}

/// Whether one of `calls` has the id `id`.
pub fn any_call(calls: &Vec<ToolCall>, id: &str) -> (r: bool)
    ensures
        r == has_call(calls.deep_view(), id@),
{
    let mut i: usize = 0;
    while i < calls.len()
        invariant
            i <= calls.len(),
            forall|j: int| 0 <= j < i ==> (#[trigger] calls.deep_view()[j]).id != id@,
        decreases calls.len() - i,
    {
        if same_text(calls[i].id.as_str(), id) {
            assert(calls.deep_view()[i as int].id == id@);
            return true;
        }
        i += 1;
    }
    false
}

/// The calls whose id is not `id`.
pub fn drop_call(calls: &Vec<ToolCall>, id: &str) -> (r: Vec<ToolCall>)
    ensures
        r.deep_view() == without_call(calls.deep_view(), id@),
{
    let mut out: Vec<ToolCall> = Vec::new();
    let mut i: usize = 0;
    let ghost keep = |call: CallView| call.id != id@;
    proof {
        reveal(Seq::filter);
    }
    while i < calls.len()
        invariant
            i <= calls.len(),
            keep == (|call: CallView| call.id != id@),
            out.deep_view() == calls.deep_view().take(i as int).filter(keep),
        decreases calls.len() - i,
    {
        proof {
            reveal(Seq::filter);
            let head = calls.deep_view().take(i + 1);
            assert(head.drop_last() =~= calls.deep_view().take(i as int));
            assert(head.last() == calls.deep_view()[i as int]);
        }
        if !same_text(calls[i].id.as_str(), id) {
            let ghost before = out.deep_view();
            out.push(calls[i].clone());
            assert(out.deep_view() =~= before.push(calls.deep_view()[i as int]));
        }
        i += 1;
    }
    assert(calls.deep_view().take(calls@.len() as int) =~= calls.deep_view());
    out
}

/// The synthetic error result for `call`.
pub fn placeholder_message(call: &ToolCall) -> (r: Message)
    ensures
        r.deep_view() == placeholder(call.deep_view()),
{
    let r = Message::Tool {
        call_id: call.id.clone(),
        name: call.name.clone(),
        content: INTERRUPTED.to_owned(),
        images: Vec::new(),
        is_error: true,
        synthetic: true,
    };
    assert(r.deep_view() =~= placeholder(call.deep_view()));
    r
}

/// Append one placeholder for each open call.
fn flush(pending: &Vec<ToolCall>, out: &mut Vec<Message>)
    ensures
        final(out).deep_view() == old(out).deep_view() + placeholders(pending.deep_view()),
{
    let ghost before = out.deep_view();
    let mut i: usize = 0;
    while i < pending.len()
        invariant
            i <= pending.len(),
            out.deep_view() == before + placeholders(pending.deep_view().take(i as int)),
        decreases pending.len() - i,
    {
        let ghost now = out.deep_view();
        out.push(placeholder_message(&pending[i]));
        i += 1;
        assert(out.deep_view() =~= now.push(placeholder(pending.deep_view()[i - 1])));
        assert(placeholders(pending.deep_view().take(i as int)) =~= placeholders(
            pending.deep_view().take(i - 1),
        ).push(placeholder(pending.deep_view()[i - 1])));
    }
    assert(pending.deep_view().take(pending@.len() as int) =~= pending.deep_view());
}

/// Restore the pairing rule in a context that interrupted turns left broken.
pub fn repair_tool_pairs(messages: Vec<Message>) -> (r: Vec<Message>)
    ensures
        r.deep_view() == repaired(messages.deep_view()),
{
    let mut out: Vec<Message> = Vec::new();
    let mut pending: Vec<ToolCall> = Vec::new();
    let ghost whole = messages.deep_view();
    assert(whole.skip(0) =~= whole);
    assert(pending.deep_view() =~= Seq::empty());
    let mut i: usize = 0;
    while i < messages.len()
        invariant
            i <= messages.len(),
            whole == messages.deep_view(),
            repaired(whole) =~= out.deep_view() + repaired_after(
                whole.skip(i as int),
                pending.deep_view(),
            ),
        decreases messages.len() - i,
    {
        let ghost before = out.deep_view();
        let ghost tail = whole.skip(i as int);
        proof {
            assert(tail[0] == messages@[i as int].deep_view());
            assert(tail.drop_first() =~= whole.skip(i + 1));
        }
        match &messages[i] {
            Message::Tool { call_id, synthetic, .. } => {
                if !*synthetic && any_call(&pending, call_id.as_str()) {
                    pending = drop_call(&pending, call_id.as_str());
                    out.push(messages[i].clone());
                    assert(out.deep_view() =~= before.push(tail[0]));
                }
            },
            Message::Assistant(assistant) => {
                flush(&pending, &mut out);
                let ghost flushed = out.deep_view();
                pending = assistant.tool_calls.clone();
                assert(pending.deep_view() =~= assistant.tool_calls.deep_view());
                out.push(messages[i].clone());
                assert(out.deep_view() =~= flushed.push(tail[0]));
            },
            _ => {
                flush(&pending, &mut out);
                let ghost flushed = out.deep_view();
                pending = Vec::new();
                assert(pending.deep_view() =~= Seq::empty());
                out.push(messages[i].clone());
                assert(out.deep_view() =~= flushed.push(tail[0]));
            },
        }
        i += 1;
    }
    assert(whole.skip(whole.len() as int) =~= Seq::empty());
    flush(&pending, &mut out);
    out
}

/// The provider's pairing rule for `messages` where the calls `pending` are
/// still open: each result answers an open call and closes it, and nothing but
/// results comes while a call is open.
pub open spec fn paired_after(messages: Seq<MessageView>, pending: Seq<CallView>) -> bool
    decreases messages.len(),
{
    if messages.len() == 0 {
        pending.len() == 0
    } else {
        let rest = messages.drop_first();
        match messages[0] {
            MessageView::Tool { call_id, .. } => has_call(pending, call_id) && paired_after(
                rest,
                without_call(pending, call_id),
            ),
            MessageView::Assistant(assistant) => pending.len() == 0 && paired_after(
                rest,
                assistant.tool_calls,
            ),
            _ => pending.len() == 0 && paired_after(rest, Seq::empty()),
        }
    }
}

/// The provider's pairing rule for a whole context.
pub open spec fn paired(messages: Seq<MessageView>) -> bool {
    paired_after(messages, Seq::empty())
}

/// No two calls share an id.
pub open spec fn distinct_calls(calls: Seq<CallView>) -> bool {
    forall|i: int, j: int| 0 <= i < j < calls.len() ==> (#[trigger] calls[i]).id != (#[trigger] calls[j]).id
}

/// The calls of every assistant message have ids of their own.
pub open spec fn distinct_batches(messages: Seq<MessageView>) -> bool {
    forall|i: int|
        0 <= i < messages.len() ==> ((#[trigger] messages[i]) matches MessageView::Assistant(a)
            ==> distinct_calls(a.tool_calls))
}

proof fn lemma_without_call(calls: Seq<CallView>, id: Seq<char>)
    requires
        distinct_calls(calls),
    ensures
        distinct_calls(without_call(calls, id)),
        forall|i: int|
            0 <= i < without_call(calls, id).len() ==> calls.contains(
                #[trigger] without_call(calls, id)[i],
            ),
    decreases calls.len(),
{
    reveal(Seq::filter);
    if calls.len() > 0 {
        let head = calls.drop_last();
        lemma_without_call(head, id);
        let kept = without_call(head, id);
        assert forall|i: int| 0 <= i < without_call(calls, id).len() implies calls.contains(
            #[trigger] without_call(calls, id)[i],
        ) by {
            if i < kept.len() {
                assert(head.contains(kept[i]));
                let k = choose|k: int| 0 <= k < head.len() && head[k] == kept[i];
                assert(calls[k] == kept[i]);
            } else {
                assert(calls[calls.len() - 1] == calls.last());
            }
        }
        assert forall|i: int, j: int| 0 <= i < j < without_call(calls, id).len() implies (
        #[trigger] without_call(calls, id)[i]).id != (#[trigger] without_call(calls, id)[j]).id by {
            if j == kept.len() {
                assert(head.contains(kept[i]));
                let k = choose|k: int| 0 <= k < head.len() && head[k] == kept[i];
                assert(calls[k].id != calls[calls.len() - 1].id);
            } else {
                assert(kept[i].id != kept[j].id);
            }
        }
    }
}

/// Without its first call's id, a list of distinct calls loses its first call.
pub proof fn lemma_without_first(calls: Seq<CallView>)
    requires
        distinct_calls(calls),
        calls.len() > 0,
    ensures
        without_call(calls, calls[0].id) == calls.drop_first(),
    decreases calls.len(),
{
    reveal(Seq::filter);
    if calls.len() > 1 {
        let head = calls.drop_last();
        lemma_without_first(head);
        assert(calls[0].id != calls[calls.len() - 1].id);
        assert(head.drop_first().push(calls.last()) =~= calls.drop_first());
    } else {
        let keep = |call: CallView| call.id != calls[0].id;
        assert(calls.drop_last() =~= Seq::empty());
        assert(calls.drop_last().filter(keep) =~= Seq::empty());
        assert(calls.drop_first() =~= Seq::empty());
    }
}

proof fn lemma_placeholders_close(calls: Seq<CallView>, rest: Seq<MessageView>)
    requires
        distinct_calls(calls),
    ensures
        paired_after(placeholders(calls) + rest, calls) == paired_after(rest, Seq::empty()),
    decreases calls.len(),
{
    let whole = placeholders(calls) + rest;
    if calls.len() > 0 {
        lemma_without_first(calls);
        assert(whole[0] == placeholder(calls[0]));
        assert(whole.drop_first() =~= placeholders(calls.drop_first()) + rest);
        assert(has_call(calls, calls[0].id));
        lemma_placeholders_close(calls.drop_first(), rest);
    } else {
        assert(whole =~= rest);
        assert(calls =~= Seq::empty());
    }
}

proof fn lemma_repaired_after_is_paired(messages: Seq<MessageView>, pending: Seq<CallView>)
    requires
        distinct_calls(pending),
        distinct_batches(messages),
    ensures
        paired_after(repaired_after(messages, pending), pending),
    decreases messages.len(),
{
    if messages.len() == 0 {
        lemma_placeholders_close(pending, Seq::empty());
        assert(placeholders(pending) + Seq::<MessageView>::empty() =~= placeholders(pending));
    } else {
        let rest = messages.drop_first();
        let head = seq![messages[0]];
        assert forall|i: int| 0 <= i < rest.len() implies ((#[trigger] rest[i]) matches MessageView::Assistant(a)
            ==> distinct_calls(a.tool_calls)) by {
            assert(rest[i] == messages[i + 1]);
        }
        match messages[0] {
            MessageView::Tool { call_id, synthetic, .. } => {
                if !synthetic && has_call(pending, call_id) {
                    let open = without_call(pending, call_id);
                    lemma_without_call(pending, call_id);
                    lemma_repaired_after_is_paired(rest, open);
                    assert((head + repaired_after(rest, open)).drop_first() =~= repaired_after(
                        rest,
                        open,
                    ));
                } else {
                    lemma_repaired_after_is_paired(rest, pending);
                }
            },
            MessageView::Assistant(assistant) => {
                let tail = repaired_after(rest, assistant.tool_calls);
                lemma_repaired_after_is_paired(rest, assistant.tool_calls);
                lemma_placeholders_close(pending, head + tail);
                assert((head + tail).drop_first() =~= tail);
            },
            _ => {
                let tail = repaired_after(rest, Seq::empty());
                lemma_repaired_after_is_paired(rest, Seq::empty());
                lemma_placeholders_close(pending, head + tail);
                assert((head + tail).drop_first() =~= tail);
            },
        }
    }
}

/// A repaired context satisfies the provider's pairing rule, provided that no
/// assistant message uses one call id twice.
pub proof fn repair_restores_the_pairing_rule(messages: Seq<MessageView>)
    requires
        distinct_batches(messages),
    ensures
        paired(repaired(messages)),
{
    lemma_repaired_after_is_paired(messages, Seq::empty());
}

proof fn lemma_placeholders_are_skipped(
    calls: Seq<CallView>,
    rest: Seq<MessageView>,
    pending: Seq<CallView>,
)
    ensures
        repaired_after(placeholders(calls) + rest, pending) == repaired_after(rest, pending),
    decreases calls.len(),
{
    let whole = placeholders(calls) + rest;
    if calls.len() > 0 {
        assert(whole[0] == placeholder(calls[0]));
        assert(whole.drop_first() =~= placeholders(calls.drop_first()) + rest);
        lemma_placeholders_are_skipped(calls.drop_first(), rest, pending);
    } else {
        assert(whole =~= rest);
    }
}

proof fn lemma_repair_is_stable(messages: Seq<MessageView>, pending: Seq<CallView>)
    ensures
        repaired_after(repaired_after(messages, pending), pending) == repaired_after(
            messages,
            pending,
        ),
    decreases messages.len(),
{
    if messages.len() == 0 {
        lemma_placeholders_are_skipped(pending, Seq::empty(), pending);
        assert(placeholders(pending) + Seq::<MessageView>::empty() =~= placeholders(pending));
    } else {
        let rest = messages.drop_first();
        let head = seq![messages[0]];
        match messages[0] {
            MessageView::Tool { call_id, synthetic, .. } => {
                if !synthetic && has_call(pending, call_id) {
                    let open = without_call(pending, call_id);
                    lemma_repair_is_stable(rest, open);
                    assert((head + repaired_after(rest, open)).drop_first() =~= repaired_after(
                        rest,
                        open,
                    ));
                } else {
                    lemma_repair_is_stable(rest, pending);
                }
            },
            MessageView::Assistant(assistant) => {
                let tail = repaired_after(rest, assistant.tool_calls);
                lemma_repair_is_stable(rest, assistant.tool_calls);
                lemma_placeholders_are_skipped(pending, head + tail, pending);
                assert((head + tail).drop_first() =~= tail);
            },
            _ => {
                let tail = repaired_after(rest, Seq::empty());
                lemma_repair_is_stable(rest, Seq::empty());
                lemma_placeholders_are_skipped(pending, head + tail, pending);
                assert((head + tail).drop_first() =~= tail);
            },
        }
    }
}

/// Repairing a repaired context changes nothing.
pub proof fn repair_is_idempotent(messages: Seq<MessageView>)
    ensures
        repaired(repaired(messages)) == repaired(messages),
{
    lemma_repair_is_stable(messages, Seq::empty());
}

/// The messages that are not tool results.
pub open spec fn conversation(messages: Seq<MessageView>) -> Seq<MessageView>
    decreases messages.len(),
{
    if messages.len() == 0 {
        Seq::empty()
    } else if messages[0] is Tool {
        conversation(messages.drop_first())
    } else {
        seq![messages[0]] + conversation(messages.drop_first())
    }
}

proof fn lemma_placeholders_say_nothing(calls: Seq<CallView>, rest: Seq<MessageView>)
    ensures
        conversation(placeholders(calls) + rest) == conversation(rest),
    decreases calls.len(),
{
    let whole = placeholders(calls) + rest;
    if calls.len() > 0 {
        assert(whole[0] == placeholder(calls[0]));
        assert(whole.drop_first() =~= placeholders(calls.drop_first()) + rest);
        lemma_placeholders_say_nothing(calls.drop_first(), rest);
    } else {
        assert(whole =~= rest);
    }
}

proof fn lemma_repair_keeps_conversation(messages: Seq<MessageView>, pending: Seq<CallView>)
    ensures
        conversation(repaired_after(messages, pending)) == conversation(messages),
    decreases messages.len(),
{
    if messages.len() == 0 {
        lemma_placeholders_say_nothing(pending, Seq::empty());
        assert(placeholders(pending) + Seq::<MessageView>::empty() =~= placeholders(pending));
    } else {
        let rest = messages.drop_first();
        let head = seq![messages[0]];
        match messages[0] {
            MessageView::Tool { call_id, synthetic, .. } => {
                if !synthetic && has_call(pending, call_id) {
                    let open = without_call(pending, call_id);
                    lemma_repair_keeps_conversation(rest, open);
                    assert((head + repaired_after(rest, open)).drop_first() =~= repaired_after(
                        rest,
                        open,
                    ));
                } else {
                    lemma_repair_keeps_conversation(rest, pending);
                }
            },
            MessageView::Assistant(assistant) => {
                let tail = repaired_after(rest, assistant.tool_calls);
                lemma_repair_keeps_conversation(rest, assistant.tool_calls);
                lemma_placeholders_say_nothing(pending, head + tail);
                assert((head + tail).drop_first() =~= tail);
            },
            _ => {
                let tail = repaired_after(rest, Seq::empty());
                lemma_repair_keeps_conversation(rest, Seq::empty());
                lemma_placeholders_say_nothing(pending, head + tail);
                assert((head + tail).drop_first() =~= tail);
            },
        }
    }
}

/// The repair touches tool results only: user, system and assistant messages
/// all stay, in their order.
pub proof fn repair_keeps_the_conversation(messages: Seq<MessageView>)
    ensures
        conversation(repaired(messages)) == conversation(messages),
{
    lemma_repair_keeps_conversation(messages, Seq::empty());
}

proof fn lemma_paired_stays(messages: Seq<MessageView>, pending: Seq<CallView>)
    requires
        paired_after(messages, pending),
        forall|i: int|
            0 <= i < messages.len() ==> match #[trigger] messages[i] {
                MessageView::Tool { synthetic, .. } => !synthetic,
                _ => true,
            },
    ensures
        repaired_after(messages, pending) == messages,
    decreases messages.len(),
{
    if messages.len() == 0 {
        assert(placeholders(pending) =~= messages);
    } else {
        let rest = messages.drop_first();
        assert forall|i: int| 0 <= i < rest.len() implies match #[trigger] rest[i] {
            MessageView::Tool { synthetic, .. } => !synthetic,
            _ => true,
        } by {
            assert(rest[i] == messages[i + 1]);
        }
        match messages[0] {
            MessageView::Tool { call_id, .. } => {
                lemma_paired_stays(rest, without_call(pending, call_id));
            },
            MessageView::Assistant(assistant) => {
                lemma_paired_stays(rest, assistant.tool_calls);
                assert(placeholders(pending) =~= Seq::empty());
            },
            _ => {
                lemma_paired_stays(rest, Seq::empty());
                assert(placeholders(pending) =~= Seq::empty());
            },
        }
        assert(repaired_after(messages, pending) =~= messages);
    }
}

/// A context that satisfies the pairing rule, with real results only, is left as
/// it is: every result keeps its place and its text.
pub proof fn paired_contexts_stay_as_they_are(messages: Seq<MessageView>)
    requires
        paired(messages),
        forall|i: int|
            0 <= i < messages.len() ==> match #[trigger] messages[i] {
                MessageView::Tool { synthetic, .. } => !synthetic,
                _ => true,
            },
    ensures
        repaired(messages) == messages,
{
    lemma_paired_stays(messages, Seq::empty());
}

/// Whether the result at `at` answers a call of the assistant message at `from`,
/// with nothing but results between them.
pub open spec fn answers_at(messages: Seq<MessageView>, from: int, at: int, id: Seq<char>) -> bool {
    &&& 0 <= from < at
    &&& messages[from] matches MessageView::Assistant(assistant) && exists|k: int|
        0 <= k < assistant.tool_calls.len() && (#[trigger] assistant.tool_calls[k]).id == id
    &&& forall|i: int| from < i < at ==> (#[trigger] messages[i]) is Tool
}

proof fn lemma_without_keeps(calls: Seq<CallView>, id: Seq<char>, k: int)
    requires
        0 <= k < without_call(calls, id).len(),
    ensures
        exists|m: int| 0 <= m < calls.len() && #[trigger] calls[m] == without_call(calls, id)[k],
    decreases calls.len(),
{
    reveal(Seq::filter);
    let head = calls.drop_last();
    let kept = without_call(head, id);
    if k < kept.len() {
        lemma_without_keeps(head, id, k);
        let m = choose|m: int| 0 <= m < head.len() && #[trigger] head[m] == kept[k];
        assert(calls[m] == kept[k]);
    } else {
        assert(calls[calls.len() - 1] == without_call(calls, id)[k]);
    }
}

proof fn lemma_results_answer(
    messages: Seq<MessageView>,
    pending: Seq<CallView>,
    at: int,
    id: Seq<char>,
)
    requires
        0 <= at < repaired_after(messages, pending).len(),
        repaired_after(messages, pending)[at] matches MessageView::Tool { call_id, .. } && call_id
            == id,
    ensures
        ({
            let out = repaired_after(messages, pending);
            ||| {
                &&& forall|i: int| 0 <= i < at ==> (#[trigger] out[i]) is Tool
                &&& exists|k: int| 0 <= k < pending.len() && (#[trigger] pending[k]).id == id
            }
            ||| exists|from: int| #[trigger] answers_at(out, from, at, id)
        }),
    decreases messages.len(),
{
    let out = repaired_after(messages, pending);
    if messages.len() == 0 {
        assert(out[at] == placeholder(pending[at]));
        assert(pending[at].id == id);
    } else {
        let rest = messages.drop_first();
        match messages[0] {
            MessageView::Tool { call_id, synthetic, .. } => {
                if !synthetic && has_call(pending, call_id) {
                    if at == 0 {
                        let k = choose|k: int|
                            0 <= k < pending.len() && (#[trigger] pending[k]).id == call_id;
                        assert(pending[k].id == id);
                    } else {
                        let open = without_call(pending, call_id);
                        let tail = repaired_after(rest, open);
                        assert(out[at] == tail[at - 1]);
                        lemma_results_answer(rest, open, at - 1, id);
                        lemma_shifted(seq![messages[0]], tail, at - 1, id);
                        assert(out =~= seq![messages[0]] + tail);
                        if exists|k: int| 0 <= k < open.len() && (#[trigger] open[k]).id == id {
                            let k = choose|k: int|
                                0 <= k < open.len() && (#[trigger] open[k]).id == id;
                            lemma_without_keeps(pending, call_id, k);
                            let m = choose|m: int|
                                0 <= m < pending.len() && #[trigger] pending[m] == open[k];
                            assert(pending[m].id == id);
                        }
                        if forall|i: int| 0 <= i < at - 1 ==> (#[trigger] tail[i]) is Tool {
                            assert forall|i: int| 0 <= i < at implies (
                            #[trigger] out[i]) is Tool by {
                                if i > 0 {
                                    assert(out[i] == tail[i - 1]);
                                }
                            }
                        }
                    }
                } else {
                    lemma_results_answer(rest, pending, at, id);
                }
            },
            _ => {
                let calls = match messages[0] {
                    MessageView::Assistant(assistant) => assistant.tool_calls,
                    _ => Seq::empty(),
                };
                let lead = placeholders(pending);
                let tail = repaired_after(rest, calls);
                let head = lead + seq![messages[0]];
                assert(out =~= head + tail);
                if at < lead.len() {
                    assert(out[at] == placeholder(pending[at]));
                    assert(pending[at].id == id);
                    assert forall|i: int| 0 <= i < at implies (#[trigger] out[i]) is Tool by {
                        assert(out[i] == placeholder(pending[i]));
                    }
                } else {
                    assert(at != lead.len());
                    let k = at - head.len();
                    assert(out[at] == tail[k]);
                    lemma_results_answer(rest, calls, k, id);
                    lemma_shifted(head, tail, k, id);
                    if forall|i: int| 0 <= i < k ==> (#[trigger] tail[i]) is Tool {
                        if exists|m: int| 0 <= m < calls.len() && (#[trigger] calls[m]).id == id {
                            assert forall|i: int| lead.len() < i < at implies (
                            #[trigger] out[i]) is Tool by {
                                assert(out[i] == tail[i - head.len()]);
                            }
                            assert(out[lead.len() as int] == messages[0]);
                            assert(answers_at(out, lead.len() as int, at, id));
                        }
                    }
                }
            },
        }
    }
}

proof fn lemma_shifted(head: Seq<MessageView>, tail: Seq<MessageView>, at: int, id: Seq<char>)
    requires
        0 <= at < tail.len(),
    ensures
        (exists|from: int| #[trigger] answers_at(tail, from, at, id)) ==> exists|from: int| #[trigger]
            answers_at(head + tail, from, head.len() + at, id),
{
    if exists|from: int| #[trigger] answers_at(tail, from, at, id) {
        let from = choose|from: int| #[trigger] answers_at(tail, from, at, id);
        let whole = head + tail;
        assert(whole[head.len() + from] == tail[from]);
        assert forall|i: int| head.len() + from < i < head.len() + at implies (
        #[trigger] whole[i]) is Tool by {
            assert(whole[i] == tail[i - head.len()]);
        }
        assert(answers_at(whole, head.len() + from, head.len() + at, id));
    }
}

/// Every result of a repaired context answers a call: an assistant message that
/// made a call with its id stands before it, with nothing but results between.
pub proof fn repaired_results_answer_calls(messages: Seq<MessageView>, at: int, id: Seq<char>)
    requires
        0 <= at < repaired(messages).len(),
        repaired(messages)[at] matches MessageView::Tool { call_id, .. } && call_id == id,
    ensures
        exists|from: int| #[trigger] answers_at(repaired(messages), from, at, id),
{
    lemma_results_answer(messages, Seq::empty(), at, id);
}

/// The repair invents no result but placeholders, and a placeholder says so: it is
/// an error, marked as synthetic, under the id and the name of its call.
pub proof fn placeholders_say_what_they_are(call: CallView)
    ensures
        placeholder(call) matches MessageView::Tool {
            call_id,
            name,
            content,
            images,
            is_error,
            synthetic,
        } && call_id == call.id && name == call.name && images.len() == 0 && is_error && synthetic
            && content == "[turn interrupted before a tool result was produced]"@,
{
}

proof fn lemma_nothing_invented(messages: Seq<MessageView>, pending: Seq<CallView>)
    ensures
        forall|i: int|
            0 <= i < repaired_after(messages, pending).len() ==> messages.contains(
                #[trigger] repaired_after(messages, pending)[i],
            ) || (repaired_after(messages, pending)[i] matches MessageView::Tool { synthetic, .. }
                && synthetic),
    decreases messages.len(),
{
    let out = repaired_after(messages, pending);
    if messages.len() > 0 {
        let rest = messages.drop_first();
        let (lead, open, kept) = match messages[0] {
            MessageView::Tool { call_id, synthetic, .. } => if !synthetic && has_call(
                pending,
                call_id,
            ) {
                (Seq::<MessageView>::empty(), without_call(pending, call_id), true)
            } else {
                (Seq::<MessageView>::empty(), pending, false)
            },
            MessageView::Assistant(assistant) => (
                placeholders(pending),
                assistant.tool_calls,
                true,
            ),
            _ => (placeholders(pending), Seq::empty(), true),
        };
        let tail = repaired_after(rest, open);
        let head = if kept {
            lead + seq![messages[0]]
        } else {
            lead
        };
        lemma_nothing_invented(rest, open);
        assert(out =~= head + tail);
        assert forall|i: int| 0 <= i < out.len() implies messages.contains(#[trigger] out[i]) || (
        out[i] matches MessageView::Tool { synthetic, .. } && synthetic) by {
            if i < lead.len() {
                assert(out[i] == placeholder(pending[i]));
            } else if i < head.len() {
                assert(out[i] == messages[0]);
            } else {
                assert(out[i] == tail[i - head.len()]);
                if rest.contains(out[i]) {
                    let k = choose|k: int| 0 <= k < rest.len() && rest[k] == out[i];
                    assert(messages[k + 1] == out[i]);
                }
            }
        }
    }
}

/// What a repaired context holds was there before, but for synthetic results.
pub proof fn repairs_invent_nothing_real(messages: Seq<MessageView>, at: int)
    requires
        0 <= at < repaired(messages).len(),
    ensures
        messages.contains(repaired(messages)[at]) || (repaired(
            messages,
        )[at] matches MessageView::Tool { synthetic, .. } && synthetic),
{
    lemma_nothing_invented(messages, Seq::empty());
}

} // verus!
