//! Executable equality of values by what they hold.
use vstd::prelude::*;

use crate::entry::SessionEntry;
use crate::goal::GoalSnapshot;
use crate::message::{AssistantMessage, ImagePart, Message, ToolCall};
use crate::text::same_text;

verus! {

/// Types whose values can be compared by their models.
pub trait Same: DeepView {
    /// Whether both values hold the same.
    fn same(&self, other: &Self) -> (r: bool)
        ensures
            r == (self.deep_view() == other.deep_view()),
    ;
}

impl Same for String {
    fn same(&self, other: &Self) -> (r: bool) {
        same_text(self.as_str(), other.as_str())
    }
}

impl Same for u64 {
    fn same(&self, other: &Self) -> (r: bool) {
        *self == *other
    }
}

impl Same for usize {
    fn same(&self, other: &Self) -> (r: bool) {
        *self == *other
    }
}

impl Same for i64 {
    fn same(&self, other: &Self) -> (r: bool) {
        *self == *other
    }
}

impl Same for i32 {
    fn same(&self, other: &Self) -> (r: bool) {
        *self == *other
    }
}

impl<T: Same> Same for Option<T> {
    fn same(&self, other: &Self) -> (r: bool) {
        match (self, other) {
            (Some(a), Some(b)) => a.same(b),
            (None, None) => true,
            _ => false,
        }
    }
}

impl<T: Same> Same for Vec<T> {
    fn same(&self, other: &Self) -> (r: bool) {
        if self.len() != other.len() {
            assert(self.deep_view().len() != other.deep_view().len());
            return false;
        }
        let mut i: usize = 0;
        while i < self.len()
            invariant
                i <= self.len(),
                self.len() == other.len(),
                forall|j: int|
                    0 <= j < i ==> (#[trigger] self.deep_view()[j]) == other.deep_view()[j],
            decreases self.len() - i,
        {
            if !self[i].same(&other[i]) {
                assert(self.deep_view()[i as int] != other.deep_view()[i as int]);
                return false;
            }
            i += 1;
        }
        assert(self.deep_view() =~= other.deep_view());
        true
    }
}

impl Same for ImagePart {
    fn same(&self, other: &Self) -> (r: bool) {
        self.hash.same(&other.hash) && self.mime.same(&other.mime)
    }
}

impl Same for ToolCall {
    fn same(&self, other: &Self) -> (r: bool) {
        self.id.same(&other.id) && self.name.same(&other.name) && self.arguments.same(
            &other.arguments,
        )
    }
}

impl Same for AssistantMessage {
    fn same(&self, other: &Self) -> (r: bool) {
        self.content.same(&other.content) && self.tool_calls.same(&other.tool_calls)
            && self.reasoning.same(&other.reasoning)
    }
}

impl Same for Message {
    fn same(&self, other: &Self) -> (r: bool) {
        match (self, other) {
            (Message::System { content: a }, Message::System { content: b }) => a.same(b),
            (
                Message::User { content: a, images: x },
                Message::User { content: b, images: y },
            ) => a.same(b) && x.same(y),
            (Message::Assistant(a), Message::Assistant(b)) => a.same(b),
            (
                Message::Tool {
                    call_id: id_a,
                    name: name_a,
                    content: a,
                    images: x,
                    is_error: error_a,
                    synthetic: synthetic_a,
                },
                Message::Tool {
                    call_id: id_b,
                    name: name_b,
                    content: b,
                    images: y,
                    is_error: error_b,
                    synthetic: synthetic_b,
                },
            ) => id_a.same(id_b) && name_a.same(name_b) && a.same(b) && x.same(y) && *error_a
                == *error_b && *synthetic_a == *synthetic_b,
            _ => false,
        }
    }
}

impl Same for GoalSnapshot {
    fn same(&self, other: &Self) -> (r: bool) {
        self.id.same(&other.id) && self.revision == other.revision && self.objective.same(
            &other.objective,
        ) && self.success_criteria.same(&other.success_criteria) && self.status == other.status
            && self.progress.same(&other.progress) && self.evidence.same(&other.evidence)
            && self.blocked_reason.same(&other.blocked_reason)
    }
}

impl Same for SessionEntry {
    fn same(&self, other: &Self) -> (r: bool) {
        match (self, other) {
            (SessionEntry::Message { message: a }, SessionEntry::Message { message: b }) => a.same(
                b,
            ),
            (
                SessionEntry::Compaction {
                    summary: summary_a,
                    retained: retained_a,
                    current_prompt_at: at_a,
                    no_current_prompt: none_a,
                },
                SessionEntry::Compaction {
                    summary: summary_b,
                    retained: retained_b,
                    current_prompt_at: at_b,
                    no_current_prompt: none_b,
                },
            ) => summary_a.same(summary_b) && retained_a.same(retained_b) && at_a.same(at_b)
                && *none_a == *none_b,
            (SessionEntry::Notice { text: a }, SessionEntry::Notice { text: b }) => a.same(b),
            (
                SessionEntry::BackgroundCompletion {
                    id: id_a,
                    output: output_a,
                    label: label_a,
                    started_at_ms: started_a,
                    duration_ms: duration_a,
                    exit_code: exit_a,
                    signal: signal_a,
                    status: status_a,
                    kind: kind_a,
                },
                SessionEntry::BackgroundCompletion {
                    id: id_b,
                    output: output_b,
                    label: label_b,
                    started_at_ms: started_b,
                    duration_ms: duration_b,
                    exit_code: exit_b,
                    signal: signal_b,
                    status: status_b,
                    kind: kind_b,
                },
            ) => *id_a == *id_b && output_a.same(output_b) && label_a.same(label_b)
                && started_a.same(started_b) && duration_a.same(duration_b) && exit_a.same(exit_b)
                && signal_a.same(signal_b) && status_a.same(status_b) && kind_a.same(kind_b),
            (
                SessionEntry::ForkedFrom {
                    source: source_a,
                    at: at_a,
                    event_time: time_a,
                    seq: seq_a,
                },
                SessionEntry::ForkedFrom {
                    source: source_b,
                    at: at_b,
                    event_time: time_b,
                    seq: seq_b,
                },
            ) => source_a.same(source_b) && *at_a == *at_b && time_a.same(time_b) && seq_a.same(
                seq_b,
            ),
            (SessionEntry::Error { text: a }, SessionEntry::Error { text: b }) => a.same(b),
            (SessionEntry::GoalUpdated { goal: a }, SessionEntry::GoalUpdated { goal: b }) => a.same(
                b,
            ),
            _ => false,
        }
    }
}

} // verus!
