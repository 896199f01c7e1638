//! Subagents: the register of live ones, what a delegation asks for, and what a
//! subagent is told, resumes from and gives back.
use vstd::prelude::*;

use crate::agent::{fresh_agent, Agent, AgentView};
use crate::codex::{SpecView, ToolSpec};
use crate::compaction::CompactionMode;
use crate::config::{BackendView, SessionBackend};
use crate::entry;
use crate::entry::{
    entries_result, entry_views, fork_prefix, forked, forks_end_at_a_turn_boundary, turn_boundary,
    EntryView,
};
use crate::json::{add_item, bool_of, get, lemma_object_view, put, str_of, Json, JsonView};
use crate::path::{absolute, is_absolute, join_path, joined_path};
use crate::sandbox::{Sandbox, SandboxView};
use crate::table::{lookup, Table};
use crate::text::{
    decimal, decimal_text, join, joined, preview, previewed, same_text, split_words, trim, trimmed,
    words,
};

verus! {

/// What is known of a live subagent.
#[derive(Debug, PartialEq)]
pub struct SessionEntry {
    pub model: String,
    pub role: Option<String>,
    /// The directory that the subagent works in.
    pub cwd: String,
    pub session_id: String,
    pub context_window: Option<u64>,
}

/// Model of a [`SessionEntry`].
#[verifier::ext_equal]
pub struct LiveView {
    pub model: Seq<char>,
    pub role: Option<Seq<char>>,
    pub cwd: Seq<char>,
    pub session_id: Seq<char>,
    pub context_window: Option<u64>,
}

impl DeepView for SessionEntry {
    type V = LiveView;

    open spec fn deep_view(&self) -> LiveView {
        LiveView {
            model: self.model@,
            role: self.role.deep_view(),
            cwd: self.cwd@,
            session_id: self.session_id@,
            context_window: self.context_window,
        }
    }
}

impl Clone for SessionEntry {
    fn clone(&self) -> (r: Self)
        ensures
            r.deep_view() == self.deep_view(),
    {
        SessionEntry {
            model: self.model.clone(),
            role: self.role.clone(),
            cwd: self.cwd.clone(),
            session_id: self.session_id.clone(),
            context_window: self.context_window,
        }
    }
}

/// A register of live subagents, by the id of their background task.
#[derive(Debug, PartialEq)]
pub struct Register {
    pub entries: Vec<(u64, SessionEntry)>,
}

impl DeepView for Register {
    type V = Seq<(u64, LiveView)>;

    open spec fn deep_view(&self) -> Seq<(u64, LiveView)> {
        self.entries.deep_view()
    }
}

/// The registers of a program. A [`Sessions`] stands for one of them.
#[derive(Debug, PartialEq)]
pub struct Registers {
    pub slots: Vec<Register>,
}

impl DeepView for Registers {
    type V = Seq<Seq<(u64, LiveView)>>;

    open spec fn deep_view(&self) -> Seq<Seq<(u64, LiveView)>> {
        self.slots.deep_view()
    }
}

/// Whether no task is registered twice.
pub open spec fn distinct_tasks(entries: Seq<(u64, LiveView)>) -> bool {
    forall|i: int, j: int|
        0 <= i < j < entries.len() ==> (#[trigger] entries[i]).0 != (#[trigger] entries[j]).0
}

/// The registrations of the other tasks.
pub open spec fn without_task(entries: Seq<(u64, LiveView)>, id: u64) -> Seq<(u64, LiveView)>
    decreases entries.len(),
{
    if entries.len() == 0 {
        Seq::empty()
    } else if entries.last().0 == id {
        without_task(entries.drop_last(), id)
    } else {
        without_task(entries.drop_last(), id).push(entries.last())
    }
}

/// The subagent that a task is registered with.
pub open spec fn registered(entries: Seq<(u64, LiveView)>, id: u64) -> Option<LiveView>
    decreases entries.len(),
{
    if entries.len() == 0 {
        None
    } else if entries.last().0 == id {
        Some(entries.last().1)
    } else {
        registered(entries.drop_last(), id)
    }
}

proof fn lemma_registered(entries: Seq<(u64, LiveView)>, id: u64, at: int)
    requires
        0 <= at <= entries.len(),
        forall|i: int| at <= i < entries.len() ==> (#[trigger] entries[i]).0 != id,
    ensures
        registered(entries, id) == registered(entries.take(at), id),
    decreases entries.len(),
{
    if at < entries.len() {
        assert(entries[entries.len() - 1].0 != id);
        lemma_registered(entries.drop_last(), id, at);
        assert(entries.drop_last().take(at) =~= entries.take(at));
    } else {
        assert(entries.take(at) =~= entries);
    }
}

proof fn lemma_without_task(entries: Seq<(u64, LiveView)>, id: u64)
    ensures
        without_task(entries, id).len() <= entries.len(),
        forall|i: int|
            0 <= i < without_task(entries, id).len() ==> (#[trigger] without_task(
                entries,
                id,
            )[i]).0 != id,
        distinct_tasks(entries) ==> distinct_tasks(without_task(entries, id)),
        forall|e: (u64, LiveView)|
            #[trigger] without_task(entries, id).contains(e) <==> entries.contains(e) && e.0 != id,
    decreases entries.len(),
{
    if entries.len() > 0 {
        let head = entries.drop_last();
        let rest = without_task(head, id);
        lemma_without_task(head, id);
        assert(entries =~= head.push(entries.last()));
        let whole = without_task(entries, id);
        assert forall|e: (u64, LiveView)|
            #[trigger] whole.contains(e) <==> entries.contains(e) && e.0 != id by {
            if entries.contains(e) && e.0 != id {
                let k = choose|k: int| 0 <= k < entries.len() && entries[k] == e;
                if k < head.len() {
                    assert(head[k] == e);
                    assert(rest.contains(e));
                    let m = choose|m: int| 0 <= m < rest.len() && rest[m] == e;
                    assert(whole[m] == e);
                } else {
                    assert(whole[whole.len() - 1] == e);
                }
            }
            if whole.contains(e) {
                let m = choose|m: int| 0 <= m < whole.len() && whole[m] == e;
                if m < rest.len() {
                    assert(rest[m] == e);
                    assert(rest.contains(e));
                    assert(head.contains(e));
                    let k = choose|k: int| 0 <= k < head.len() && head[k] == e;
                    assert(entries[k] == e);
                } else {
                    assert(entries[entries.len() - 1] == e);
                }
            }
        }
        if distinct_tasks(entries) {
            assert forall|i: int, j: int| 0 <= i < j < head.len() implies (#[trigger] head[i]).0
                != (#[trigger] head[j]).0 by {
                assert(entries[i] == head[i] && entries[j] == head[j]);
            }
            assert forall|i: int, j: int| 0 <= i < j < whole.len() implies (#[trigger] whole[i]).0
                != (#[trigger] whole[j]).0 by {
                assert(whole[i] == rest[i]);
                if j < rest.len() {
                    assert(whole[j] == rest[j]);
                } else {
                    assert(rest.contains(rest[i]));
                    assert(head.contains(rest[i]));
                    let k = choose|k: int| 0 <= k < head.len() && head[k] == rest[i];
                    assert(entries[k].0 != entries[entries.len() - 1].0);
                }
            }
        }
    }
}

impl Register {
    /// A register without subagents.
    fn new() -> (r: Self)
        ensures
            r.deep_view() == Seq::<(u64, LiveView)>::empty(),
    {
        let r = Register { entries: Vec::new() };
        assert(r.deep_view() =~= Seq::empty());
        r
    }

    /// The subagent of a task.
    fn get(&self, id: u64) -> (r: Option<SessionEntry>)
        ensures
            r.deep_view() == registered(self.deep_view(), id),
    {
        let ghost views = self.deep_view();
        assert(views.len() == self.entries@.len());
        let mut n: usize = self.entries.len();
        while n > 0
            invariant
                n <= self.entries@.len(),
                views == self.deep_view(),
                views.len() == self.entries@.len(),
                forall|i: int| n <= i < views.len() ==> (#[trigger] views[i]).0 != id,
            decreases n,
        {
            assert(views[n - 1] == self.entries@[n - 1].deep_view());
            if self.entries[n - 1].0 == id {
                proof {
                    lemma_registered(views, id, n as int);
                    assert(views.take(n as int).last() == views[n - 1]);
                }
                return Some(self.entries[n - 1].1.clone());
            }
            n -= 1;
        }
        proof {
            lemma_registered(views, id, 0);
        }
        None
    }

    /// End the registration of a task.
    fn remove(&mut self, id: u64)
        ensures
            final(self).deep_view() == without_task(old(self).deep_view(), id),
            distinct_tasks(old(self).deep_view()) ==> distinct_tasks(final(self).deep_view()),
    {
        let ghost views = self.deep_view();
        let ghost total = self.entries@.len();
        assert(views.len() == total);
        let mut i: usize = 0;
        let ghost mut seen: int = 0;
        assert(views.take(0) =~= Seq::empty());
        assert(self.deep_view() =~= without_task(views.take(0), id) + views.skip(0));
        while i < self.entries.len()
            invariant
                0 <= seen <= views.len(),
                i <= self.entries@.len(),
                i == without_task(views.take(seen), id).len(),
                self.entries@.len() - i == views.len() - seen,
                self.deep_view() == without_task(views.take(seen), id) + views.skip(seen),
            decreases self.entries@.len() - i,
        {
            let ghost before = self.deep_view();
            let ghost kept = without_task(views.take(seen), id);
            proof {
                let head = views.take(seen + 1);
                assert(head.drop_last() =~= views.take(seen));
                assert(head.last() == views[seen]);
                assert(before[i as int] == views.skip(seen)[0]);
                assert(before[i as int] == self.entries@[i as int].deep_view());
            }
            if self.entries[i].0 == id {
                self.entries.remove(i);
                assert(self.deep_view() =~= before.remove(i as int));
                assert(self.deep_view() =~= kept + views.skip(seen + 1));
            } else {
                assert(before =~= kept.push(views[seen]) + views.skip(seen + 1));
                i += 1;
            }
            proof {
                seen = seen + 1;
            }
        }
        proof {
            assert(views.take(seen) =~= views);
            assert(views.skip(seen) =~= Seq::empty());
            assert(self.deep_view() =~= without_task(views, id));
            lemma_without_task(views, id);
        }
    }

    /// Register the subagent of a task, in place of an earlier one.
    fn insert(&mut self, id: u64, entry: SessionEntry)
        ensures
            final(self).deep_view() == without_task(old(self).deep_view(), id).push(
                (id, entry.deep_view()),
            ),
            registered(final(self).deep_view(), id) == Some(entry.deep_view()),
            distinct_tasks(old(self).deep_view()) ==> distinct_tasks(final(self).deep_view()),
    {
        let ghost views = self.deep_view();
        self.remove(id);
        let ghost kept = self.deep_view();
        self.entries.push((id, entry));
        proof {
            lemma_without_task(views, id);
            assert(self.deep_view() =~= kept.push((id, entry.deep_view())));
            assert(self.deep_view().drop_last() =~= kept);
        }
    }

    /// Every task with its subagent.
    fn list(&self) -> (r: Vec<(u64, SessionEntry)>)
        ensures
            r.deep_view() == self.deep_view(),
    {
        let ghost views = self.deep_view();
        let mut out: Vec<(u64, SessionEntry)> = Vec::new();
        let mut i: usize = 0;
        assert(out.deep_view() =~= views.take(0));
        while i < self.entries.len()
            invariant
                i <= self.entries@.len(),
                views == self.deep_view(),
                out.deep_view() == views.take(i as int),
            decreases self.entries@.len() - i,
        {
            let ghost before = out.deep_view();
            let entry = (self.entries[i].0, self.entries[i].1.clone());
            out.push(entry);
            proof {
                assert(views.len() == self.entries@.len());
                assert(views[i as int] == self.entries@[i as int].deep_view());
                assert(out.deep_view() =~= before.push(entry.deep_view()));
                assert(views.take(i + 1) =~= views.take(i as int).push(views[i as int]));
            }
            i += 1;
        }
        assert(views.take(views.len() as int) =~= views);
        assert(views.len() == self.entries@.len());
        out
    }

    /// Whether a session runs as a live subagent.
    fn is_live(&self, session_id: &str) -> (r: bool)
        ensures
            r == live(self.deep_view(), session_id@),
    {
        let ghost views = self.deep_view();
        let mut i: usize = 0;
        while i < self.entries.len()
            invariant
                i <= self.entries@.len(),
                views == self.deep_view(),
                forall|k: int| 0 <= k < i ==> (#[trigger] views[k]).1.session_id != session_id@,
            decreases self.entries@.len() - i,
        {
            assert(views.len() == self.entries@.len());
            assert(views[i as int] == self.entries@[i as int].deep_view());
            if same_text(self.entries[i].1.session_id.as_str(), session_id) {
                return true;
            }
            i += 1;
        }
        assert(views.len() == self.entries@.len());
        false
    }
}

/// Whether no register has a task twice.
pub open spec fn all_distinct(registers: Seq<Seq<(u64, LiveView)>>) -> bool {
    forall|i: int| 0 <= i < registers.len() ==> distinct_tasks(#[trigger] registers[i])
}

impl Registers {
    /// No registers yet.
    pub fn new() -> (r: Self)
        ensures
            r.deep_view() == Seq::<Seq<(u64, LiveView)>>::empty(),
    {
        let r = Registers { slots: Vec::new() };
        assert(r.deep_view() =~= Seq::empty());
        r
    }
}

impl Default for Registers {
    fn default() -> (r: Self)
        ensures
            r.deep_view() == Seq::<Seq<(u64, LiveView)>>::empty(),
    {
        Registers::new()
    }
}

/// The live subagents of a session, by the id of their background task: a handle
/// on one of the registers. Its clones are handles on the same register.
#[derive(Debug, PartialEq)]
pub struct Sessions {
    /// Which register it is.
    pub slot: usize,
}

impl Clone for Sessions {
    fn clone(&self) -> (r: Self)
        ensures
            r == *self,
    {
        Sessions { slot: self.slot }
    }
}

/// Whether the register of a handle is among these.
pub open spec fn opened_in(registers: Seq<Seq<(u64, LiveView)>>, sessions: Sessions) -> bool {
    sessions.slot < registers.len()
}

/// What the register of a handle holds.
pub open spec fn register_of(registers: Seq<Seq<(u64, LiveView)>>, sessions: Sessions) -> Seq<
    (u64, LiveView),
> {
    if opened_in(registers, sessions) {
        registers[sessions.slot as int]
    } else {
        Seq::empty()
    }
}

/// The registers after a task was removed through a handle.
pub open spec fn task_removed(
    registers: Seq<Seq<(u64, LiveView)>>,
    sessions: Sessions,
    id: u64,
) -> Seq<Seq<(u64, LiveView)>> {
    if opened_in(registers, sessions) {
        registers.update(
            sessions.slot as int,
            without_task(registers[sessions.slot as int], id),
        )
    } else {
        registers
    }
}

/// The registers after a task was registered through a handle, in place of an
/// earlier registration of the task.
pub open spec fn task_inserted(
    registers: Seq<Seq<(u64, LiveView)>>,
    sessions: Sessions,
    id: u64,
    entry: LiveView,
) -> Seq<Seq<(u64, LiveView)>> {
    registers.update(
        sessions.slot as int,
        without_task(registers[sessions.slot as int], id).push((id, entry)),
    )
}

impl Sessions {
    /// A handle on a register of its own, without subagents.
    pub fn new(registers: &mut Registers) -> (r: Self)
        ensures
            final(registers).deep_view() == old(registers).deep_view().push(Seq::empty()),
            r.slot == old(registers).deep_view().len(),
            all_distinct(old(registers).deep_view()) ==> all_distinct(final(registers).deep_view()),
    {
        let ghost before = registers.deep_view();
        let slot: usize = registers.slots.len();
        registers.slots.push(Register::new());
        assert(registers.deep_view() =~= before.push(Seq::empty()));
        Sessions { slot }
    }

    /// The subagent of a task.
    pub fn get(&self, registers: &Registers, id: u64) -> (r: Option<SessionEntry>)
        ensures
            r.deep_view() == registered(register_of(registers.deep_view(), *self), id),
    {
        if self.slot < registers.slots.len() {
            registers.slots[self.slot].get(id)
        } else {
            None
        }
    }

    /// Register the subagent of a task, in place of an earlier one.
    pub fn insert(&self, registers: &mut Registers, id: u64, entry: SessionEntry)
        requires
            opened_in(old(registers).deep_view(), *self),
        ensures
            final(registers).deep_view() == task_inserted(
                old(registers).deep_view(),
                *self,
                id,
                entry.deep_view(),
            ),
            registered(register_of(final(registers).deep_view(), *self), id) == Some(
                entry.deep_view(),
            ),
            all_distinct(old(registers).deep_view()) ==> all_distinct(final(registers).deep_view()),
    {
        let ghost before = registers.deep_view();
        let ghost at = self.slot as int;
        assert(before[at] == registers.slots@[at].deep_view());
        registers.slots[self.slot].insert(id, entry);
        assert(registers.deep_view() =~= task_inserted(before, *self, id, entry.deep_view()));
    }

    /// End the registration of a task.
    pub fn remove(&self, registers: &mut Registers, id: u64)
        ensures
            final(registers).deep_view() == task_removed(old(registers).deep_view(), *self, id),
            registered(register_of(final(registers).deep_view(), *self), id) is None,
            all_distinct(old(registers).deep_view()) ==> all_distinct(final(registers).deep_view()),
    {
        let ghost before = registers.deep_view();
        let ghost at = self.slot as int;
        assert(before.len() == registers.slots@.len());
        if self.slot < registers.slots.len() {
            assert(before[at] == registers.slots@[at].deep_view());
            registers.slots[self.slot].remove(id);
            assert(registers.deep_view() =~= task_removed(before, *self, id));
            proof {
                cleanup_happens_once(before[at], id);
            }
        }
    }

    /// Every task with its subagent.
    pub fn list(&self, registers: &Registers) -> (r: Vec<(u64, SessionEntry)>)
        ensures
            r.deep_view() == register_of(registers.deep_view(), *self),
    {
        if self.slot < registers.slots.len() {
            registers.slots[self.slot].list()
        } else {
            let none: Vec<(u64, SessionEntry)> = Vec::new();
            assert(none.deep_view() =~= Seq::empty());
            none
        }
    }

    /// Whether a session runs as a live subagent.
    pub fn is_live(&self, registers: &Registers, session_id: &str) -> (r: bool)
        ensures
            r == live(register_of(registers.deep_view(), *self), session_id@),
    {
        self.slot < registers.slots.len() && registers.slots[self.slot].is_live(session_id)
    }
}

/// Whether a session runs as a live subagent.
pub open spec fn live(entries: Seq<(u64, LiveView)>, session_id: Seq<char>) -> bool {
    exists|i: int| 0 <= i < entries.len() && (#[trigger] entries[i]).1.session_id == session_id
}

/// What is left to undo of a registration: once, whoever comes first.
#[derive(Debug, PartialEq)]
pub struct DelegateCleanup {
    /// The task, until the registration is undone.
    pub id: Option<u64>,
    /// Where the task is registered.
    pub sessions: Sessions,
    /// Whether the task stands in the parent's record of running tasks.
    pub recovery: bool,
}

impl DelegateCleanup {
    pub fn new(id: Option<u64>, sessions: Sessions, recovery: bool) -> (r: Self)
        ensures
            r.id == id,
            r.sessions == sessions,
            r.recovery == recovery,
    {
        DelegateCleanup { id, sessions, recovery }
    }

    /// Undo the registration, and tell which task leaves the parent's record. A
    /// second call does nothing.
    pub fn cleanup(&mut self, registers: &mut Registers) -> (r: Option<u64>)
        ensures
            final(self).id is None,
            final(self).sessions == old(self).sessions,
            final(self).recovery == old(self).recovery,
            final(registers).deep_view() == match old(self).id {
                Some(id) => task_removed(old(registers).deep_view(), old(self).sessions, id),
                None => old(registers).deep_view(),
            },
            r == if old(self).recovery {
                old(self).id
            } else {
                None
            },
    {
        match self.id.take() {
            Some(id) => {
                self.sessions.remove(registers, id);
                if self.recovery {
                    Some(id)
                } else {
                    None
                }
            },
            None => None,
        }
    }

    /// Undo the registration for good.
    pub fn finish(self, registers: &mut Registers) -> (r: Option<u64>)
        ensures
            final(registers).deep_view() == match self.id {
                Some(id) => task_removed(old(registers).deep_view(), self.sessions, id),
                None => old(registers).deep_view(),
            },
            r == if self.recovery {
                self.id
            } else {
                None
            },
    {
        let mut guard = self;
        guard.cleanup(registers)
    }
}

/// A text with every run of white space as one space.
pub open spec fn single_line(text: Seq<char>) -> Seq<char> {
    joined(words(text), " "@)
}

fn on_one_line(text: &str) -> (r: String)
    ensures
        r@ == single_line(text@),
{
    join(&split_words(text), " ")
}

/// Width of a title in the task panel, in characters.
pub const LABEL_WIDTH: usize = 40;

/// The title of a delegation in the task panel: the caller's label, else the
/// role, else the beginning of the task.
pub open spec fn label_of(
    label: Option<Seq<char>>,
    role: Option<Seq<char>>,
    task: Seq<char>,
) -> Seq<char> {
    match label {
        Some(label) if trimmed(label).len() > 0 => previewed(
            single_line(trimmed(label)),
            LABEL_WIDTH as nat,
        ),
        _ => match role {
            Some(role) => single_line(role),
            None => previewed(single_line(task), LABEL_WIDTH as nat),
        },
    }
}

/// The title of a delegation in the task panel.
pub fn task_label(label: Option<&str>, role: Option<&str>, task: &str) -> (r: String)
    ensures
        r@ == label_of(label.deep_view(), role.deep_view(), task@),
{
    if let Some(label) = label {
        let label = trim(label);
        if !label.as_str().is_empty() {
            return preview(on_one_line(label.as_str()).as_str(), LABEL_WIDTH);
        }
    }
    match role {
        Some(role) => on_one_line(role),
        None => preview(on_one_line(task).as_str(), LABEL_WIDTH),
    }
}

/// How a subagent ended.
#[derive(Debug, PartialEq)]
pub enum SessionResult {
    /// With an answer, where there is one.
    Completed { answer: Option<String> },
    /// With an error.
    Failed { error: String },
    /// The user cancelled it.
    Cancelled,
    /// It was closed without a result.
    Closed,
}

/// Model of a [`SessionResult`].
#[verifier::ext_equal]
pub enum ResultView {
    Completed { answer: Option<Seq<char>> },
    Failed { error: Seq<char> },
    Cancelled,
    Closed,
}

impl DeepView for SessionResult {
    type V = ResultView;

    open spec fn deep_view(&self) -> ResultView {
        match self {
            SessionResult::Completed { answer } => ResultView::Completed {
                answer: answer.deep_view(),
            },
            SessionResult::Failed { error } => ResultView::Failed { error: error@ },
            SessionResult::Cancelled => ResultView::Cancelled,
            SessionResult::Closed => ResultView::Closed,
        }
    }
}

/// Whether a subagent completed, and the text that it ended with.
pub open spec fn output_of(result: ResultView) -> (bool, Seq<char>) {
    match result {
        ResultView::Completed { answer: Some(text) } => (true, text),
        ResultView::Completed { answer: None } => (true, Seq::empty()),
        ResultView::Failed { error } => (false, "subagent failed: "@ + error),
        ResultView::Cancelled => (false, "subagent cancelled"@),
        ResultView::Closed => (false, "subagent closed"@),
    }
}

/// Whether a subagent completed, and the text that it ended with.
pub fn result_output(result: SessionResult) -> (r: (bool, String))
    ensures
        r.deep_view() == output_of(result.deep_view()),
{
    match result {
        SessionResult::Completed { answer } => match answer {
            Some(text) => (true, text),
            None => {
                let empty = String::new();
                assert(empty@ =~= Seq::empty());
                (true, empty)
            },
        },
        SessionResult::Failed { error } => {
            let mut text = "subagent failed: ".to_owned();
            text.push_str(error.as_str());
            (false, text)
        },
        SessionResult::Cancelled => (false, "subagent cancelled".to_owned()),
        SessionResult::Closed => (false, "subagent closed".to_owned()),
    }
}

/// How a subagent ended, from how its task ended and the result that it left
/// behind.
pub fn runner_result(join_error: Option<String>, finished: Option<SessionResult>) -> (r:
    SessionResult)
    ensures
        r.deep_view() == match join_error {
            Some(error) => ResultView::Failed { error: error@ },
            None => match finished {
                Some(result) => result.deep_view(),
                None => ResultView::Closed,
            },
        },
{
    match join_error {
        Some(error) => SessionResult::Failed { error },
        None => match finished {
            Some(result) => result,
            None => SessionResult::Closed,
        },
    }
}

/// The text of a subagent under its session.
pub open spec fn headed(kind: Seq<char>, session_id: Seq<char>, output: Seq<char>) -> Seq<char> {
    kind + " session: "@ + session_id + "\n"@ + output
}

/// The text of a subagent under its session.
pub fn session_output(kind: &str, session_id: &str, output: &str) -> (r: String)
    ensures
        r@ == headed(kind@, session_id@, output@),
{
    let mut text = kind.to_owned();
    text.push_str(" session: ");
    text.push_str(session_id);
    text.push_str("\n");
    text.push_str(output);
    text
}

/// What the caller is told of a subagent that it waited for.
pub fn sync_result(session_id: &str, result: SessionResult) -> (r: Result<String, String>)
    ensures
        match r {
            Ok(text) => output_of(result.deep_view()).0 && text@ == headed(
                "subagent"@,
                session_id@,
                output_of(result.deep_view()).1,
            ),
            Err(text) => !output_of(result.deep_view()).0 && text@ == headed(
                "subagent"@,
                session_id@,
                output_of(result.deep_view()).1,
            ),
        },
{
    let (completed, output) = result_output(result);
    let text = session_output("subagent", session_id, output.as_str());
    if completed {
        Ok(text)
    } else {
        Err(text)
    }
}

/// What the caller is told of a subagent that runs in the background, behind
/// what the task register says.
pub fn started_text(started: &str, session_id: &str) -> (r: String)
    ensures
        r@ == started@ + "\nsubagent session: "@ + session_id@,
{
    let mut text = started.to_owned();
    text.push_str("\nsubagent session: ");
    text.push_str(session_id);
    text
}

/// The sandbox of a read-only role: nothing is writable and there is no
/// network.
pub open spec fn narrowed(sandbox: SandboxView) -> SandboxView {
    SandboxView {
        network: false,
        workspace_writable: false,
        writable_paths: Seq::empty(),
        writable_mounts: Seq::empty(),
        ..sandbox
    }
}

/// The sandbox of a read-only role.
pub fn read_only_policy(sandbox: &Sandbox) -> (r: Sandbox)
    ensures
        r.deep_view() == narrowed(sandbox.deep_view()),
{
    let mut narrow = sandbox.clone();
    narrow.network = false;
    narrow.workspace_writable = false;
    narrow.writable_paths = Vec::new();
    narrow.writable_mounts = Vec::new();
    assert(narrow.deep_view() =~= narrowed(sandbox.deep_view()));
    narrow
}

/// What a subagent of a role is told behind the role's own words, in front of
/// the model's name.
pub const ROLE_OPENING: &'static str =
    "\n\nYou are running as a subagent inside the e-agent coding assistant (on the `";

/// What a subagent without a role is told, in front of the model's name.
pub const TASK_OPENING: &'static str =
    "You are a subagent inside the e-agent coding assistant (running on the `";

/// What a subagent is told behind the model's name.
pub const TASK_CLOSING: &'static str =
    "` model). Work autonomously on the delegated task with the file/bash tools and, when configured, public web search, then return a concise final answer.";

/// What the subagent of a side conversation is told, in front of the model's
/// name.
pub const FORK_OPENING: &'static str =
    "You are a persistent subagent in a btw fork of the main e-agent session (running on the `";

/// What the subagent of a side conversation is told behind the model's name.
pub const FORK_CLOSING: &'static str =
    "` model). This is an interactive side conversation that continues the main session's history outside the main line: discuss the user's question with the file/bash tools and, when configured, public web search, and keep the conversation going — the user may keep replying, so do not treat a single answer as final.";

/// What a subagent of a read-only role is told.
pub const READ_ONLY_NOTE: &'static str =
    "\n\nThis role is read-only: no write_file/edit_file; bash, when present, runs in a read-only sandbox with network disabled.";

/// What every subagent is told of background tasks.
pub const BACKGROUND_NOTE: &'static str =
    "\n\n后台任务（background bash）完成时会自动以 `[background task N completed]` 消息注入，无需轮询：dispatch 后台任务后继续其它工作或直接等待即可，不要反复调用 get_background_tasks / sleep 重查。若你 dispatch 了后台任务且其结果属于最终答案的一部分：在后台任务完成之前不要给出最终答案收尾（FinishWhenIdle 会等待它完成并自动注入结果触发新 turn）；收到 `[background task N completed]` 注入后，把结果整合进你的完整最终答案，不要只简短确认「完成了」——你的任务是给出含后台任务结果的完整答案。";

/// The head of the workspace's own instructions.
pub const AGENTS_HEAD: &'static str = "\n\n## AGENTS.md\n\n";

/// The instructions of a subagent. Those of the workspace are added where they
/// are not blank.
pub open spec fn instructions_of(
    role_prompt: Option<Seq<char>>,
    interactive: bool,
    read_only: bool,
    model: Seq<char>,
    agents: Option<Seq<char>>,
) -> Seq<char> {
    let opening = match role_prompt {
        Some(template) => template + ROLE_OPENING@ + model + TASK_CLOSING@,
        None => if interactive {
            FORK_OPENING@ + model + FORK_CLOSING@
        } else {
            TASK_OPENING@ + model + TASK_CLOSING@
        },
    };
    let noted = if read_only {
        opening + READ_ONLY_NOTE@ + BACKGROUND_NOTE@
    } else {
        opening + BACKGROUND_NOTE@
    };
    match agents {
        Some(content) if trimmed(content).len() > 0 => noted + AGENTS_HEAD@ + content,
        _ => noted,
    }
}

/// The instructions of a subagent.
pub fn subagent_instructions(
    role_prompt: Option<&str>,
    interactive: bool,
    read_only: bool,
    model: &str,
    agents: Option<&str>,
) -> (r: String)
    ensures
        r@ == instructions_of(
            role_prompt.deep_view(),
            interactive,
            read_only,
            model@,
            agents.deep_view(),
        ),
{
    let mut text = String::new();
    match role_prompt {
        Some(template) => {
            text.push_str(template);
            text.push_str(ROLE_OPENING);
            text.push_str(model);
            text.push_str(TASK_CLOSING);
            assert(text@ =~= template@ + ROLE_OPENING@ + model@ + TASK_CLOSING@);
        },
        None => if interactive {
            text.push_str(FORK_OPENING);
            text.push_str(model);
            text.push_str(FORK_CLOSING);
            assert(text@ =~= FORK_OPENING@ + model@ + FORK_CLOSING@);
        } else {
            text.push_str(TASK_OPENING);
            text.push_str(model);
            text.push_str(TASK_CLOSING);
            assert(text@ =~= TASK_OPENING@ + model@ + TASK_CLOSING@);
        },
    }
    if read_only {
        text.push_str(READ_ONLY_NOTE);
    }
    text.push_str(BACKGROUND_NOTE);
    if let Some(content) = agents {
        if !trim(content).as_str().is_empty() {
            text.push_str(AGENTS_HEAD);
            text.push_str(content);
        }
    }
    text
}

/// The session of a subagent before its first turn. A delegated task is compacted
/// as one task; a side conversation is compacted as the session that it left.
pub open spec fn started_agent(
    context_window: Option<u64>,
    instructions: Seq<char>,
    interactive: bool,
    resumed: Option<Seq<EntryView>>,
) -> AgentView {
    let told = AgentView {
        context_window,
        context_prefix: Some(instructions),
        compaction_mode: if interactive {
            CompactionMode::Main
        } else {
            CompactionMode::SingleTask
        },
        ..fresh_agent()
    };
    match resumed {
        Some(history) => told.restored(history),
        None => told,
    }
}

/// The session of a subagent before its first turn.
pub fn start_agent(
    context_window: Option<u64>,
    instructions: String,
    interactive: bool,
    resumed: Option<Vec<entry::SessionEntry>>,
) -> (r: Agent)
    ensures
        r.deep_view() == started_agent(
            context_window,
            instructions@,
            interactive,
            resumed.deep_view(),
        ),
{
    let mode = if interactive {
        CompactionMode::Main
    } else {
        CompactionMode::SingleTask
    };
    let mut agent = Agent::new().with_compaction_mode(mode);
    if let Some(window) = context_window {
        agent.set_context_window(window);
    }
    agent.set_context_prefix(instructions);
    if let Some(history) = resumed {
        agent.restore_history(history);
    }
    agent
}

/// Where a subagent stores its session.
#[derive(Debug, PartialEq)]
pub struct PersistConfig {
    pub root: String,
    pub session_id: String,
    pub backend: SessionBackend,
}

/// Model of a [`PersistConfig`].
#[verifier::ext_equal]
pub struct PersistView {
    pub root: Seq<char>,
    pub session_id: Seq<char>,
    pub backend: BackendView,
}

impl DeepView for PersistConfig {
    type V = PersistView;

    open spec fn deep_view(&self) -> PersistView {
        PersistView {
            root: self.root@,
            session_id: self.session_id@,
            backend: self.backend.deep_view(),
        }
    }
}

/// The notice at the start of a side conversation.
pub const FORK_NOTICE: &'static str = "（btw fork：在主线之外继续探讨）";

/// The history that a side conversation starts with: the source up to its last
/// completed turn, where it comes from, and a notice.
pub open spec fn fork_history(source: Seq<char>, entries: Seq<EntryView>) -> Result<
    Seq<EntryView>,
    Seq<char>,
> {
    match forked(entries, None) {
        Ok(prefix) => Ok(
            prefix.push(
                EntryView::ForkedFrom {
                    source,
                    at: prefix.len() as usize,
                    event_time: None,
                    seq: None,
                },
            ).push(EntryView::Notice { text: FORK_NOTICE@ }),
        ),
        Err(error) => Err(error),
    }
}

/// The history that a side conversation starts with.
pub fn btw_fork_entries(source: &str, entries: &[entry::SessionEntry]) -> (r: Result<
    Vec<entry::SessionEntry>,
    String,
>)
    ensures
        entries_result(r) == fork_history(source@, entry_views(entries@)),
{
    match fork_prefix(entries, None) {
        Ok(prefix) => {
            let mut history = prefix;
            let ghost kept = history.deep_view();
            assert(kept.len() == history@.len());
            let marker = entry::SessionEntry::ForkedFrom {
                source: source.to_owned(),
                at: history.len(),
                event_time: None,
                seq: None,
            };
            history.push(marker);
            assert(history.deep_view() =~= kept.push(marker.deep_view()));
            let notice = entry::SessionEntry::Notice { text: FORK_NOTICE.to_owned() };
            history.push(notice);
            assert(history.deep_view() =~= kept.push(marker.deep_view()).push(notice.deep_view()));
            Ok(history)
        },
        Err(error) => Err(error),
    }
}

/// The question that opens a side conversation, or the error where it is blank.
pub fn btw_question(question: &str) -> (r: Result<String, String>)
    ensures
        match r {
            Ok(text) => text@ == trimmed(question@) && text@.len() > 0,
            Err(error) => trimmed(question@).len() == 0 && error@ == "prompt must not be empty"@,
        },
{
    let text = trim(question);
    if text.as_str().is_empty() {
        return Err("prompt must not be empty".to_owned());
    }
    Ok(text)
}

/// How the history of a side conversation is stored.
#[derive(Clone, Copy, Debug, PartialEq, Eq, Structural)]
pub enum ForkWrite {
    /// The text file is written anew.
    Rewrite,
    /// The rows are appended.
    Append,
}

/// The parent's record of running tasks: workspace and session.
#[derive(Debug, PartialEq)]
pub struct RecordPlace {
    pub root: String,
    pub session: String,
}

/// Model of a [`RecordPlace`].
#[verifier::ext_equal]
pub struct PlaceView {
    pub root: Seq<char>,
    pub session: Seq<char>,
}

impl DeepView for RecordPlace {
    type V = PlaceView;

    open spec fn deep_view(&self) -> PlaceView {
        PlaceView { root: self.root@, session: self.session@ }
    }
}

impl Clone for RecordPlace {
    fn clone(&self) -> (r: Self)
        ensures
            r.deep_view() == self.deep_view(),
    {
        RecordPlace { root: self.root.clone(), session: self.session.clone() }
    }
}

/// The session that a record belongs to.
pub open spec fn recording_session(record: Option<PlaceView>) -> Option<Seq<char>> {
    match record {
        Some(record) => Some(record.session),
        None => None,
    }
}

/// The session that a record belongs to.
fn session_of(record: &Option<RecordPlace>) -> (r: Option<String>)
    ensures
        r.deep_view() == recording_session(record.deep_view()),
{
    match record {
        Some(record) => Some(record.session.clone()),
        None => None,
    }
}

/// What a side conversation takes over from the session that it leaves.
#[derive(Debug, PartialEq)]
pub struct BtwContext {
    pub model: String,
    pub context_window: Option<u64>,
    /// The root of the workspace.
    pub workspace: String,
    pub sandbox: Option<Sandbox>,
    pub read_only: bool,
    /// Where the side conversation is stored.
    pub persist_root: String,
    pub backend: SessionBackend,
    /// Where the running task is recorded.
    pub record_in: Option<RecordPlace>,
}

/// Model of a [`BtwContext`].
#[verifier::ext_equal]
pub struct BtwContextView {
    pub model: Seq<char>,
    pub context_window: Option<u64>,
    pub workspace: Seq<char>,
    pub sandbox: Option<SandboxView>,
    pub read_only: bool,
    pub persist_root: Seq<char>,
    pub backend: BackendView,
    pub record_in: Option<PlaceView>,
}

impl DeepView for BtwContext {
    type V = BtwContextView;

    open spec fn deep_view(&self) -> BtwContextView {
        BtwContextView {
            model: self.model@,
            context_window: self.context_window,
            workspace: self.workspace@,
            sandbox: self.sandbox.deep_view(),
            read_only: self.read_only,
            persist_root: self.persist_root@,
            backend: self.backend.deep_view(),
            record_in: self.record_in.deep_view(),
        }
    }
}

/// What a side conversation starts with.
#[derive(Debug, PartialEq)]
pub struct BtwPlan {
    /// The first prompt.
    pub task: String,
    /// The title in the task panel.
    pub label: String,
    pub entries: Vec<entry::SessionEntry>,
    pub write: ForkWrite,
    pub persist: PersistConfig,
    pub live: SessionEntry,
    pub sandbox: Option<Sandbox>,
    pub read_only: bool,
    /// The repository's own data stays read-only.
    pub protect_git: bool,
    pub parent_session: Option<String>,
    /// Where the running task is recorded.
    pub recorded: Option<RecordPlace>,
}

/// Model of a [`BtwPlan`].
#[verifier::ext_equal]
pub struct BtwView {
    pub task: Seq<char>,
    pub label: Seq<char>,
    pub entries: Seq<EntryView>,
    pub write: ForkWrite,
    pub persist: PersistView,
    pub live: LiveView,
    pub sandbox: Option<SandboxView>,
    pub read_only: bool,
    pub protect_git: bool,
    pub parent_session: Option<Seq<char>>,
    pub recorded: Option<PlaceView>,
}

impl DeepView for BtwPlan {
    type V = BtwView;

    open spec fn deep_view(&self) -> BtwView {
        BtwView {
            task: self.task@,
            label: self.label@,
            entries: self.entries.deep_view(),
            write: self.write,
            persist: self.persist.deep_view(),
            live: self.live.deep_view(),
            sandbox: self.sandbox.deep_view(),
            read_only: self.read_only,
            protect_git: self.protect_git,
            parent_session: self.parent_session.deep_view(),
            recorded: self.recorded.deep_view(),
        }
    }
}

/// What a side conversation under the id `session_id` starts with, or the error.
pub open spec fn btw_plan(
    source: Seq<char>,
    question: Seq<char>,
    entries: Seq<EntryView>,
    context: BtwContextView,
    session_id: Seq<char>,
) -> Result<BtwView, Seq<char>> {
    if trimmed(question).len() == 0 {
        Err("prompt must not be empty"@)
    } else {
        match fork_history(source, entries) {
            Err(error) => Err("cannot fork session "@ + source + ": "@ + error),
            Ok(history) => Ok(
                BtwView {
                    task: trimmed(question),
                    label: "btw: "@ + label_of(None, None, trimmed(question)),
                    entries: history,
                    write: match context.backend {
                        BackendView::Jsonl => ForkWrite::Rewrite,
                        _ => ForkWrite::Append,
                    },
                    persist: PersistView {
                        root: context.persist_root,
                        session_id,
                        backend: context.backend,
                    },
                    live: LiveView {
                        model: context.model,
                        role: None,
                        cwd: context.workspace,
                        session_id,
                        context_window: context.context_window,
                    },
                    sandbox: context.sandbox,
                    read_only: context.read_only,
                    protect_git: true,
                    parent_session: recording_session(context.record_in),
                    recorded: context.record_in,
                },
            ),
        }
    }
}

/// A result as its model.
pub open spec fn btw_result(r: Result<BtwPlan, String>) -> Result<BtwView, Seq<char>> {
    match r {
        Ok(plan) => Ok(plan.deep_view()),
        Err(error) => Err(error@),
    }
}

/// What a side conversation from the session `source` starts with, or the error.
/// `session_id` is its fresh id.
pub fn plan_btw(
    source: &str,
    question: &str,
    entries: &[entry::SessionEntry],
    context: BtwContext,
    session_id: &str,
) -> (r: Result<BtwPlan, String>)
    ensures
        btw_result(r) == btw_plan(
            source@,
            question@,
            entry_views(entries@),
            context.deep_view(),
            session_id@,
        ),
{
    let task = match btw_question(question) {
        Ok(task) => task,
        Err(error) => {
            return Err(error);
        },
    };
    match btw_fork_entries(source, entries) {
        Err(error) => {
            let mut text = "cannot fork session ".to_owned();
            text.push_str(source);
            text.push_str(": ");
            text.push_str(error.as_str());
            Err(text)
        },
        Ok(history) => {
            let mut label = "btw: ".to_owned();
            label.push_str(task_label(None, None, task.as_str()).as_str());
            let write = match &context.backend {
                SessionBackend::Jsonl => ForkWrite::Rewrite,
                _ => ForkWrite::Append,
            };
            Ok(
                BtwPlan {
                    task,
                    label,
                    entries: history,
                    write,
                    persist: PersistConfig {
                        root: context.persist_root,
                        session_id: session_id.to_owned(),
                        backend: context.backend,
                    },
                    live: SessionEntry {
                        model: context.model,
                        role: None,
                        cwd: context.workspace,
                        session_id: session_id.to_owned(),
                        context_window: context.context_window,
                    },
                    sandbox: context.sandbox,
                    read_only: context.read_only,
                    protect_git: true,
                    parent_session: session_of(&context.record_in),
                    recorded: context.record_in,
                },
            )
        },
    }
}

/// A role as its template describes it.
#[derive(Debug, PartialEq)]
pub struct RoleTemplate {
    pub prompt: String,
    /// The role may not write.
    pub read_only: bool,
    /// The repository's own data stays read-only.
    pub protect_git: bool,
}

/// Model of a [`RoleTemplate`].
#[verifier::ext_equal]
pub struct TemplateView {
    pub prompt: Seq<char>,
    pub read_only: bool,
    pub protect_git: bool,
}

impl DeepView for RoleTemplate {
    type V = TemplateView;

    open spec fn deep_view(&self) -> TemplateView {
        TemplateView {
            prompt: self.prompt@,
            read_only: self.read_only,
            protect_git: self.protect_git,
        }
    }
}

/// The model of a role and its context window.
#[derive(Debug, PartialEq)]
pub struct Route {
    pub model: String,
    pub context_window: Option<u64>,
}

/// Model of a [`Route`].
#[verifier::ext_equal]
pub struct RouteView {
    pub model: Seq<char>,
    pub context_window: Option<u64>,
}

impl DeepView for Route {
    type V = RouteView;

    open spec fn deep_view(&self) -> RouteView {
        RouteView { model: self.model@, context_window: self.context_window }
    }
}

/// How subagents are started from a session.
#[derive(Debug, PartialEq)]
pub struct Delegate {
    /// The model of subagents without a routed role.
    pub subagent_model: String,
    pub subagent_context_window: Option<u64>,
    /// The root of the caller's workspace.
    pub workspace: String,
    pub sessions: Sessions,
    /// Where subagents store their sessions, where they do.
    pub persist_root: Option<String>,
    pub role_models: Table<String>,
    pub role_context_windows: Table<Option<u64>>,
    /// Roles are routed by the configuration of the moment, not by the two
    /// tables.
    pub live_routes: bool,
    /// The workspace that holds the role templates.
    pub roles_root: Option<String>,
    pub sandbox: Option<Sandbox>,
    /// Where running tasks are recorded.
    pub record_in: Option<RecordPlace>,
    pub persist_backend: SessionBackend,
    /// How long a finished subagent waits for its background tasks, in seconds.
    pub finalize_wait: Option<u64>,
}

/// Model of a [`Delegate`].
#[verifier::ext_equal]
pub struct DelegateView {
    pub subagent_model: Seq<char>,
    pub subagent_context_window: Option<u64>,
    pub workspace: Seq<char>,
    pub sessions: Sessions,
    pub persist_root: Option<Seq<char>>,
    pub role_models: Map<Seq<char>, Seq<char>>,
    pub role_context_windows: Map<Seq<char>, Option<u64>>,
    pub live_routes: bool,
    pub roles_root: Option<Seq<char>>,
    pub sandbox: Option<SandboxView>,
    pub record_in: Option<PlaceView>,
    pub persist_backend: BackendView,
    pub finalize_wait: Option<u64>,
}

impl DeepView for Delegate {
    type V = DelegateView;

    open spec fn deep_view(&self) -> DelegateView {
        DelegateView {
            subagent_model: self.subagent_model@,
            subagent_context_window: self.subagent_context_window,
            workspace: self.workspace@,
            sessions: self.sessions,
            persist_root: self.persist_root.deep_view(),
            role_models: self.role_models.deep_view(),
            role_context_windows: self.role_context_windows.deep_view(),
            live_routes: self.live_routes,
            roles_root: self.roles_root.deep_view(),
            sandbox: self.sandbox.deep_view(),
            record_in: self.record_in.deep_view(),
            persist_backend: self.persist_backend.deep_view(),
            finalize_wait: self.finalize_wait,
        }
    }
}

/// What a delegation asks for.
#[derive(Debug, PartialEq)]
pub struct Request {
    pub task: String,
    pub background: bool,
    pub role: Option<String>,
    /// The session to continue.
    pub resume: Option<String>,
    /// The label as it was given.
    pub label: Option<String>,
    /// The workspace as it was given, trimmed and not empty.
    pub workspace: Option<String>,
}

/// Model of a [`Request`].
#[verifier::ext_equal]
pub struct RequestView {
    pub task: Seq<char>,
    pub background: bool,
    pub role: Option<Seq<char>>,
    pub resume: Option<Seq<char>>,
    pub label: Option<Seq<char>>,
    pub workspace: Option<Seq<char>>,
}

impl DeepView for Request {
    type V = RequestView;

    open spec fn deep_view(&self) -> RequestView {
        RequestView {
            task: self.task@,
            background: self.background,
            role: self.role.deep_view(),
            resume: self.resume.deep_view(),
            label: self.label.deep_view(),
            workspace: self.workspace.deep_view(),
        }
    }
}

/// What a role, or none, makes of a subagent.
#[derive(Debug, PartialEq)]
pub struct Choice {
    pub model: String,
    pub context_window: Option<u64>,
    pub role_prompt: Option<String>,
    pub read_only: bool,
    pub protect_git: bool,
}

/// Model of a [`Choice`].
#[verifier::ext_equal]
pub struct ChoiceView {
    pub model: Seq<char>,
    pub context_window: Option<u64>,
    pub role_prompt: Option<Seq<char>>,
    pub read_only: bool,
    pub protect_git: bool,
}

impl DeepView for Choice {
    type V = ChoiceView;

    open spec fn deep_view(&self) -> ChoiceView {
        ChoiceView {
            model: self.model@,
            context_window: self.context_window,
            role_prompt: self.role_prompt.deep_view(),
            read_only: self.read_only,
            protect_git: self.protect_git,
        }
    }
}

/// Everything that a subagent is started with.
#[derive(Debug, PartialEq)]
pub struct SpawnPlan {
    pub task: String,
    /// The title in the task panel.
    pub label: String,
    pub role: Option<String>,
    pub choice: Choice,
    pub sandbox: Option<Sandbox>,
    /// The directory that the subagent works in.
    pub workspace: String,
    /// That directory as the caller wrote it.
    pub shown_workspace: String,
    pub background: bool,
    /// The session that is continued; a fresh one where there is none.
    pub resume: Option<String>,
    /// The history that is continued.
    pub entries: Option<Vec<entry::SessionEntry>>,
    /// The title that is recorded with a fresh session.
    pub meta_label: Option<String>,
    pub parent_session: Option<String>,
    /// Where the running task is recorded; only background tasks are.
    pub recorded: Option<RecordPlace>,
    pub finalize_wait: Option<u64>,
}

/// Model of a [`SpawnPlan`].
#[verifier::ext_equal]
pub struct PlanView {
    pub task: Seq<char>,
    pub label: Seq<char>,
    pub role: Option<Seq<char>>,
    pub choice: ChoiceView,
    pub sandbox: Option<SandboxView>,
    pub workspace: Seq<char>,
    pub shown_workspace: Seq<char>,
    pub background: bool,
    pub resume: Option<Seq<char>>,
    pub entries: Option<Seq<EntryView>>,
    pub meta_label: Option<Seq<char>>,
    pub parent_session: Option<Seq<char>>,
    pub recorded: Option<PlaceView>,
    pub finalize_wait: Option<u64>,
}

impl DeepView for SpawnPlan {
    type V = PlanView;

    open spec fn deep_view(&self) -> PlanView {
        PlanView {
            task: self.task@,
            label: self.label@,
            role: self.role.deep_view(),
            choice: self.choice.deep_view(),
            sandbox: self.sandbox.deep_view(),
            workspace: self.workspace@,
            shown_workspace: self.shown_workspace@,
            background: self.background,
            resume: self.resume.deep_view(),
            entries: self.entries.deep_view(),
            meta_label: self.meta_label.deep_view(),
            parent_session: self.parent_session.deep_view(),
            recorded: self.recorded.deep_view(),
            finalize_wait: self.finalize_wait,
        }
    }
}

/// What a delegation waits for.
#[derive(Debug, PartialEq)]
pub enum Stage {
    /// The template of the role.
    Role { role: String },
    /// The history of the session that is continued.
    Loading { choice: Choice, id: String },
    /// The tasks that were running when that session ended.
    Taking { choice: Choice, id: String, entries: Vec<entry::SessionEntry> },
    /// The notice of those tasks in that session.
    Appending { choice: Choice, id: String, entries: Vec<entry::SessionEntry>, notice: entry::SessionEntry },
    /// The workspace of the subagent.
    Rerooting { choice: Choice, resumed: Option<Vec<entry::SessionEntry>>, workspace: String },
}

/// Model of a [`Stage`].
#[verifier::ext_equal]
pub enum StageView {
    Role { role: Seq<char> },
    Loading { choice: ChoiceView, id: Seq<char> },
    Taking { choice: ChoiceView, id: Seq<char>, entries: Seq<EntryView> },
    Appending { choice: ChoiceView, id: Seq<char>, entries: Seq<EntryView>, notice: EntryView },
    Rerooting { choice: ChoiceView, resumed: Option<Seq<EntryView>>, workspace: Seq<char> },
}

impl DeepView for Stage {
    type V = StageView;

    open spec fn deep_view(&self) -> StageView {
        match self {
            Stage::Role { role } => StageView::Role { role: role@ },
            Stage::Loading { choice, id } => StageView::Loading {
                choice: choice.deep_view(),
                id: id@,
            },
            Stage::Taking { choice, id, entries } => StageView::Taking {
                choice: choice.deep_view(),
                id: id@,
                entries: entries.deep_view(),
            },
            Stage::Appending { choice, id, entries, notice } => StageView::Appending {
                choice: choice.deep_view(),
                id: id@,
                entries: entries.deep_view(),
                notice: notice.deep_view(),
            },
            Stage::Rerooting { choice, resumed, workspace } => StageView::Rerooting {
                choice: choice.deep_view(),
                resumed: resumed.deep_view(),
                workspace: workspace@,
            },
        }
    }
}

/// A delegation on its way.
#[derive(Debug, PartialEq)]
pub struct Delegation {
    pub request: Request,
    pub stage: Stage,
}

/// Model of a [`Delegation`].
#[verifier::ext_equal]
pub struct DelegationView {
    pub request: RequestView,
    pub stage: StageView,
}

impl DeepView for Delegation {
    type V = DelegationView;

    open spec fn deep_view(&self) -> DelegationView {
        DelegationView { request: self.request.deep_view(), stage: self.stage.deep_view() }
    }
}

/// What the driver does for a delegation.
#[derive(Debug, PartialEq)]
pub enum Errand {
    /// Read the template of a role, the names of all roles, and how the role is
    /// routed.
    ReadRole { root: String, role: String },
    /// Load the history of a session.
    Load { root: String, id: String },
    /// Take the tasks that were running when the session ended.
    Take { root: String, id: String },
    /// Append a notice to the session.
    Append { root: String, id: String, notice: entry::SessionEntry },
    /// Open a directory as workspace.
    Reroot { path: String },
}

/// Model of an [`Errand`].
#[verifier::ext_equal]
pub enum ErrandView {
    ReadRole { root: Seq<char>, role: Seq<char> },
    Load { root: Seq<char>, id: Seq<char> },
    Take { root: Seq<char>, id: Seq<char> },
    Append { root: Seq<char>, id: Seq<char>, notice: EntryView },
    Reroot { path: Seq<char> },
}

impl DeepView for Errand {
    type V = ErrandView;

    open spec fn deep_view(&self) -> ErrandView {
        match self {
            Errand::ReadRole { root, role } => ErrandView::ReadRole { root: root@, role: role@ },
            Errand::Load { root, id } => ErrandView::Load { root: root@, id: id@ },
            Errand::Take { root, id } => ErrandView::Take { root: root@, id: id@ },
            Errand::Append { root, id, notice } => ErrandView::Append {
                root: root@,
                id: id@,
                notice: notice.deep_view(),
            },
            Errand::Reroot { path } => ErrandView::Reroot { path: path@ },
        }
    }
}

/// What came of an errand.
#[derive(Debug, PartialEq)]
pub enum Report {
    RoleRead {
        template: Result<Option<RoleTemplate>, String>,
        available: Vec<String>,
        routed: Option<Route>,
    },
    Loaded { history: Result<Vec<entry::SessionEntry>, String> },
    Taken { unfinished: Result<Vec<String>, String> },
    Appended { outcome: Result<(), String> },
    Rerooted { root: Result<String, String> },
}

/// Model of a [`Report`].
#[verifier::ext_equal]
pub enum ReportView {
    RoleRead {
        template: Result<Option<TemplateView>, Seq<char>>,
        available: Seq<Seq<char>>,
        routed: Option<RouteView>,
    },
    Loaded { history: Result<Seq<EntryView>, Seq<char>> },
    Taken { unfinished: Result<Seq<Seq<char>>, Seq<char>> },
    Appended { outcome: Result<(), Seq<char>> },
    Rerooted { root: Result<Seq<char>, Seq<char>> },
}

/// A result with its error as a text.
pub open spec fn seen<T, V>(r: Result<T, String>, view: spec_fn(T) -> V) -> Result<V, Seq<char>> {
    match r {
        Ok(value) => Ok(view(value)),
        Err(error) => Err(error@),
    }
}

impl DeepView for Report {
    type V = ReportView;

    open spec fn deep_view(&self) -> ReportView {
        match self {
            Report::RoleRead { template, available, routed } => ReportView::RoleRead {
                template: seen(*template, |t: Option<RoleTemplate>| t.deep_view()),
                available: available.deep_view(),
                routed: routed.deep_view(),
            },
            Report::Loaded { history } => ReportView::Loaded {
                history: seen(*history, |h: Vec<entry::SessionEntry>| h.deep_view()),
            },
            Report::Taken { unfinished } => ReportView::Taken {
                unfinished: seen(*unfinished, |u: Vec<String>| u.deep_view()),
            },
            Report::Appended { outcome } => ReportView::Appended {
                outcome: seen(*outcome, |u: ()| u),
            },
            Report::Rerooted { root } => ReportView::Rerooted {
                root: seen(*root, |r: String| r@),
            },
        }
    }
}

/// What comes next of a delegation.
#[derive(Debug, PartialEq)]
pub enum DelegateStep {
    /// An errand; its report goes to [`Delegate::go_on`].
    Await { delegation: Delegation, errand: Errand },
    /// The subagent is started.
    Start { plan: SpawnPlan },
    /// The delegation is refused.
    Refuse { error: String },
}

/// Model of a [`DelegateStep`].
#[verifier::ext_equal]
pub enum StepView {
    Await { delegation: DelegationView, errand: ErrandView },
    Start { plan: PlanView },
    Refuse { error: Seq<char> },
}

impl DeepView for DelegateStep {
    type V = StepView;

    open spec fn deep_view(&self) -> StepView {
        match self {
            DelegateStep::Await { delegation, errand } => StepView::Await {
                delegation: delegation.deep_view(),
                errand: errand.deep_view(),
            },
            DelegateStep::Start { plan } => StepView::Start { plan: plan.deep_view() },
            DelegateStep::Refuse { error } => StepView::Refuse { error: error@ },
        }
    }
}

/// The parameters of a delegation.
pub const KNOWN_PARAMETERS: &'static str = "task, role, label, background, resume, workspace";

/// Whether a delegation has a parameter of this name.
pub open spec fn known_parameter(key: Seq<char>) -> bool {
    key == "task"@ || key == "role"@ || key == "label"@ || key == "background"@ || key
        == "resume"@ || key == "workspace"@
}

/// The first field whose name is no parameter.
pub open spec fn first_unknown(fields: Seq<(Seq<char>, JsonView)>) -> Option<Seq<char>>
    decreases fields.len(),
{
    if fields.len() == 0 {
        None
    } else if !known_parameter(fields[0].0) {
        Some(fields[0].0)
    } else {
        first_unknown(fields.drop_first())
    }
}

/// The first argument that is no parameter.
pub open spec fn unknown_argument(arguments: JsonView) -> Option<Seq<char>> {
    match arguments {
        JsonView::Object(fields) => first_unknown(fields),
        _ => None,
    }
}

/// A text trimmed, where something is left of it.
pub open spec fn trimmed_text(text: Option<Seq<char>>) -> Option<Seq<char>> {
    match text {
        Some(text) if trimmed(text).len() > 0 => Some(trimmed(text)),
        _ => None,
    }
}

/// What the arguments of a delegation ask for, or the error. `delivery` says
/// that the results of background tasks reach the session.
pub open spec fn request_of(arguments: JsonView, delivery: bool) -> Result<
    RequestView,
    Seq<char>,
> {
    match unknown_argument(arguments) {
        Some(key) => Err(
            "unknown delegate parameter `"@ + key + "` (known: "@ + KNOWN_PARAMETERS@ + ")"@,
        ),
        None => match str_of(get(arguments, "task"@)) {
            None => Err("`task` must be a string"@),
            Some(task) => if trimmed(task).len() == 0 {
                Err("`task` must not be empty"@)
            } else {
                let flag = get(arguments, "background"@);
                if flag is Some && bool_of(flag) is None {
                    Err("`background` must be a boolean"@)
                } else {
                    let background = match bool_of(flag) {
                        Some(given) => given,
                        None => true,
                    };
                    if background && !delivery {
                        Err("background task delivery is unavailable"@)
                    } else {
                        Ok(
                            RequestView {
                                task,
                                background,
                                role: str_of(get(arguments, "role"@)),
                                resume: str_of(get(arguments, "resume"@)),
                                label: str_of(get(arguments, "label"@)),
                                workspace: trimmed_text(str_of(get(arguments, "workspace"@))),
                            },
                        )
                    }
                }
            },
        },
    }
}

/// A result as its model.
pub open spec fn request_result(r: Result<Request, String>) -> Result<RequestView, Seq<char>> {
    match r {
        Ok(request) => Ok(request.deep_view()),
        Err(error) => Err(error@),
    }
}

fn is_known(key: &str) -> (r: bool)
    ensures
        r == known_parameter(key@),
{
    same_text(key, "task") || same_text(key, "role") || same_text(key, "label") || same_text(
        key,
        "background",
    ) || same_text(key, "resume") || same_text(key, "workspace")
}

/// The first argument that is no parameter.
fn find_unknown(arguments: &Json) -> (r: Option<String>)
    ensures
        r.deep_view() == unknown_argument(arguments.deep_view()),
{
    match arguments {
        Json::Object(fields) => {
            proof {
                lemma_object_view(*arguments);
            }
            let ghost views = fields.deep_view();
            let mut i: usize = 0;
            assert(views.skip(0) =~= views);
            while i < fields.len()
                invariant
                    i <= fields@.len(),
                    views == fields.deep_view(),
                    arguments.deep_view() == JsonView::Object(views),
                    first_unknown(views) == first_unknown(views.skip(i as int)),
                decreases fields@.len() - i,
            {
                proof {
                    assert(views.len() == fields@.len());
                    assert(views[i as int] == fields@[i as int].deep_view());
                    assert(views.skip(i as int)[0] == views[i as int]);
                    assert(views.skip(i as int).drop_first() =~= views.skip(i + 1));
                }
                if !is_known(fields[i].0.as_str()) {
                    return Some(fields[i].0.clone());
                }
                i += 1;
            }
            assert(views.len() == fields@.len());
            None
        },
        _ => None,
    }
}

/// What the arguments of a delegation ask for, or the error.
pub fn read_request(arguments: &Json, delivery: bool) -> (r: Result<Request, String>)
    ensures
        request_result(r) == request_of(arguments.deep_view(), delivery),
{
    if let Some(key) = find_unknown(arguments) {
        let mut error = "unknown delegate parameter `".to_owned();
        error.push_str(key.as_str());
        error.push_str("` (known: ");
        error.push_str(KNOWN_PARAMETERS);
        error.push_str(")");
        return Err(error);
    }
    let task = match arguments.str_field("task") {
        Some(task) => task,
        None => {
            return Err("`task` must be a string".to_owned());
        },
    };
    if trim(task.as_str()).as_str().is_empty() {
        return Err("`task` must not be empty".to_owned());
    }
    let background = match arguments.get("background") {
        None => true,
        Some(value) => match value.as_bool() {
            Some(given) => given,
            None => {
                return Err("`background` must be a boolean".to_owned());
            },
        },
    };
    if background && !delivery {
        return Err("background task delivery is unavailable".to_owned());
    }
    let workspace = match arguments.str_field("workspace") {
        Some(text) => {
            let text = trim(text.as_str());
            if text.as_str().is_empty() {
                None
            } else {
                Some(text)
            }
        },
        None => None,
    };
    Ok(
        Request {
            task,
            background,
            role: arguments.str_field("role"),
            resume: arguments.str_field("resume"),
            label: arguments.str_field("label"),
            workspace,
        },
    )
}

/// What a role makes of a subagent.
pub open spec fn role_choice(
    delegate: DelegateView,
    role: Seq<char>,
    template: TemplateView,
    routed: Option<RouteView>,
) -> ChoiceView {
    let route = if delegate.live_routes {
        match routed {
            Some(route) => route,
            None => RouteView {
                model: delegate.subagent_model,
                context_window: delegate.subagent_context_window,
            },
        }
    } else {
        RouteView {
            model: match lookup(delegate.role_models, role) {
                Some(model) => model,
                None => delegate.subagent_model,
            },
            context_window: match lookup(delegate.role_context_windows, role) {
                Some(Some(window)) => Some(window),
                _ => delegate.subagent_context_window,
            },
        }
    };
    ChoiceView {
        model: route.model,
        context_window: route.context_window,
        role_prompt: Some(template.prompt),
        read_only: template.read_only,
        protect_git: template.protect_git,
    }
}

/// What a subagent without a role is.
pub open spec fn plain_choice(delegate: DelegateView) -> ChoiceView {
    ChoiceView {
        model: delegate.subagent_model,
        context_window: delegate.subagent_context_window,
        role_prompt: None,
        read_only: false,
        protect_git: true,
    }
}

/// A refusal.
pub open spec fn refused(error: Seq<char>) -> StepView {
    StepView::Refuse { error }
}

/// The refusal of a role that does not exist.
pub open spec fn unknown_role(role: Seq<char>, available: Seq<Seq<char>>) -> Seq<char> {
    "unknown role `"@ + role + "` (available: "@ + (if available.len() == 0 {
        "none"@
    } else {
        joined(available, ", "@)
    }) + ")"@
}

/// The refusal of a session that still runs.
pub open spec fn still_live(id: Seq<char>) -> Seq<char> {
    "cannot resume session `"@ + id
        + "`: it is still running as a live subagent; wait for it to finish or cancel its task first"@
}

/// The refusal where sessions are not stored.
pub const NO_PERSISTENCE: &'static str =
    "`resume` requires subagent session persistence (disabled in tests)";

/// The refusal where no workspace is named.
pub const NO_WORKSPACE: &'static str =
    "delegate requires a workspace parameter: path of the working directory (absolute, or relative to this workspace's root)";

/// The refusal where no roles are set up.
pub const NO_ROLES: &'static str = "roles are not configured (no workspace roles root)";

/// Go on to the workspace, with everything else settled.
pub open spec fn to_workspace(
    delegate: DelegateView,
    request: RequestView,
    choice: ChoiceView,
    resumed: Option<Seq<EntryView>>,
) -> StepView {
    match request.workspace {
        None => refused(NO_WORKSPACE@),
        Some(workspace) => StepView::Await {
            delegation: DelegationView {
                request,
                stage: StageView::Rerooting { choice, resumed, workspace },
            },
            errand: ErrandView::Reroot {
                path: if is_absolute(workspace) {
                    workspace
                } else {
                    joined_path(delegate.workspace, workspace)
                },
            },
        },
    }
}

/// Go on to the session that is continued, with the role settled.
pub open spec fn to_resume(
    delegate: DelegateView,
    registers: Seq<Seq<(u64, LiveView)>>,
    request: RequestView,
    choice: ChoiceView,
) -> StepView {
    match request.resume {
        None => to_workspace(delegate, request, choice, None),
        Some(id) => if live(register_of(registers, delegate.sessions), id) {
            refused(still_live(id))
        } else {
            match delegate.persist_root {
                None => refused(NO_PERSISTENCE@),
                Some(root) => StepView::Await {
                    delegation: DelegationView { request, stage: StageView::Loading { choice, id } },
                    errand: ErrandView::Load { root, id },
                },
            }
        },
    }
}

/// The first step of a delegation.
pub open spec fn opened(
    delegate: DelegateView,
    registers: Seq<Seq<(u64, LiveView)>>,
    arguments: JsonView,
    delivery: bool,
) -> StepView {
    match request_of(arguments, delivery) {
        Err(error) => refused(error),
        Ok(request) => match request.role {
            None => to_resume(delegate, registers, request, plain_choice(delegate)),
            Some(role) => match delegate.roles_root {
                None => refused(NO_ROLES@),
                Some(root) => StepView::Await {
                    delegation: DelegationView { request, stage: StageView::Role { role } },
                    errand: ErrandView::ReadRole { root, role },
                },
            },
        },
    }
}

/// The notice of tasks that ended with the process.
pub open spec fn killed_notice(unfinished: Seq<Seq<char>>) -> Seq<char> {
    "[e-agent exited with "@ + decimal(unfinished.len())
        + " background task(s) still running; they were killed with the process. Re-run them if still needed:]\n"@
        + joined(unfinished, "\n"@)
}

/// The sandbox of a subagent.
pub open spec fn sandbox_for(delegate: DelegateView, read_only: bool) -> Option<SandboxView> {
    match delegate.sandbox {
        Some(sandbox) => Some(if read_only {
            narrowed(sandbox)
        } else {
            sandbox
        }),
        None => None,
    }
}

/// Everything that a subagent is started with.
pub open spec fn plan_of(
    delegate: DelegateView,
    request: RequestView,
    choice: ChoiceView,
    resumed: Option<Seq<EntryView>>,
    shown_workspace: Seq<char>,
    workspace: Seq<char>,
) -> PlanView {
    let label = label_of(request.label, request.role, request.task);
    PlanView {
        task: request.task,
        label,
        role: request.role,
        choice,
        sandbox: sandbox_for(delegate, choice.read_only),
        workspace,
        shown_workspace,
        background: request.background,
        resume: request.resume,
        entries: resumed,
        meta_label: match request.resume {
            Some(_) => None,
            None => Some(label),
        },
        parent_session: recording_session(delegate.record_in),
        recorded: if request.background {
            delegate.record_in
        } else {
            None
        },
        finalize_wait: delegate.finalize_wait,
    }
}

/// Whether a report answers the errand that a delegation waits for.
pub open spec fn answers(stage: StageView, report: ReportView) -> bool {
    match stage {
        StageView::Role { .. } => report is RoleRead,
        StageView::Loading { .. } => report is Loaded,
        StageView::Taking { .. } => report is Taken,
        StageView::Appending { .. } => report is Appended,
        StageView::Rerooting { .. } => report is Rerooted,
    }
}

/// The step after a role was read.
pub open spec fn role_read(
    delegate: DelegateView,
    registers: Seq<Seq<(u64, LiveView)>>,
    request: RequestView,
    role: Seq<char>,
    template: Result<Option<TemplateView>, Seq<char>>,
    available: Seq<Seq<char>>,
    routed: Option<RouteView>,
) -> StepView {
    match template {
        Err(error) => refused("cannot read role `"@ + role + "`: "@ + error),
        Ok(None) => refused(unknown_role(role, available)),
        Ok(Some(template)) => to_resume(
            delegate,
            registers,
            request,
            role_choice(delegate, role, template, routed),
        ),
    }
}

/// The step after a history was loaded.
pub open spec fn history_loaded(
    delegate: DelegateView,
    request: RequestView,
    choice: ChoiceView,
    id: Seq<char>,
    history: Result<Seq<EntryView>, Seq<char>>,
) -> StepView {
    match history {
        Err(error) => refused("cannot resume session `"@ + id + "`: "@ + error),
        Ok(entries) => if entries.len() == 0 {
            refused("no such subagent session: `"@ + id + "`"@)
        } else {
            match delegate.persist_root {
                None => refused(NO_PERSISTENCE@),
                Some(root) => StepView::Await {
                    delegation: DelegationView {
                        request,
                        stage: StageView::Taking { choice, id, entries },
                    },
                    errand: ErrandView::Take { root, id },
                },
            }
        },
    }
}

/// The step after the tasks that were running were taken.
pub open spec fn tasks_taken(
    delegate: DelegateView,
    request: RequestView,
    choice: ChoiceView,
    id: Seq<char>,
    entries: Seq<EntryView>,
    unfinished: Result<Seq<Seq<char>>, Seq<char>>,
) -> StepView {
    match unfinished {
        Err(error) => refused(
            "cannot load unfinished tasks for session `"@ + id + "`: "@ + error,
        ),
        Ok(tasks) => if tasks.len() == 0 {
            to_workspace(delegate, request, choice, Some(entries))
        } else {
            match delegate.persist_root {
                None => refused(NO_PERSISTENCE@),
                Some(root) => {
                    let notice = EntryView::Notice { text: killed_notice(tasks) };
                    StepView::Await {
                        delegation: DelegationView {
                            request,
                            stage: StageView::Appending { choice, id, entries, notice },
                        },
                        errand: ErrandView::Append { root, id, notice },
                    }
                },
            }
        },
    }
}

/// The step after a report.
pub open spec fn stepped(
    delegate: DelegateView,
    registers: Seq<Seq<(u64, LiveView)>>,
    delegation: DelegationView,
    report: ReportView,
) -> StepView {
    let request = delegation.request;
    match (delegation.stage, report) {
        (
            StageView::Role { role },
            ReportView::RoleRead { template, available, routed },
        ) => role_read(delegate, registers, request, role, template, available, routed),
        (StageView::Loading { choice, id }, ReportView::Loaded { history }) => history_loaded(
            delegate,
            request,
            choice,
            id,
            history,
        ),
        (
            StageView::Taking { choice, id, entries },
            ReportView::Taken { unfinished },
        ) => tasks_taken(delegate, request, choice, id, entries, unfinished),
        (
            StageView::Appending { choice, id, entries, notice },
            ReportView::Appended { outcome },
        ) => match outcome {
            Err(error) => refused(
                "cannot persist resume notice for session `"@ + id + "`: "@ + error,
            ),
            Ok(_) => to_workspace(delegate, request, choice, Some(entries.push(notice))),
        },
        (
            StageView::Rerooting { choice, resumed, workspace },
            ReportView::Rerooted { root },
        ) => match root {
            Err(error) => refused("invalid `workspace` path `"@ + workspace + "`: "@ + error),
            Ok(root) => StepView::Start {
                plan: plan_of(delegate, request, choice, resumed, workspace, root),
            },
        },
        _ => refused(Seq::empty()),
    }
}

/// The text `head`, a quoted name, `middle` and `tail`.
fn quoting(head: &str, name: &str, middle: &str, tail: &str) -> (r: String)
    ensures
        r@ == head@ + name@ + middle@ + tail@,
{
    let mut text = head.to_owned();
    text.push_str(name);
    text.push_str(middle);
    text.push_str(tail);
    text
}

impl Delegate {
    /// Subagents on a model, in a workspace, with nothing else set up. Their
    /// sessions are stored as text files until another storage is chosen.
    pub fn new(model: String, workspace: String, registers: &mut Registers) -> (r: Self)
        ensures
            final(registers).deep_view() == old(registers).deep_view().push(Seq::empty()),
            all_distinct(old(registers).deep_view()) ==> all_distinct(final(registers).deep_view()),
            r.deep_view() == (DelegateView {
                subagent_model: model@,
                subagent_context_window: None,
                workspace: workspace@,
                sessions: (Sessions { slot: old(registers).deep_view().len() as usize }),
                persist_root: None,
                role_models: Map::empty(),
                role_context_windows: Map::empty(),
                live_routes: false,
                roles_root: None,
                sandbox: None,
                record_in: None,
                persist_backend: BackendView::Jsonl,
                finalize_wait: None,
            }),
    {
        Delegate {
            subagent_model: model,
            subagent_context_window: None,
            workspace,
            sessions: Sessions::new(registers),
            persist_root: None,
            role_models: Table::new(),
            role_context_windows: Table::new(),
            live_routes: false,
            roles_root: None,
            sandbox: None,
            record_in: None,
            persist_backend: SessionBackend::Jsonl,
            finalize_wait: None,
        }
    }

    /// Set the context window of the default model.
    pub fn with_subagent_context_window(self, window: Option<u64>) -> (r: Self)
        ensures
            r.deep_view() == (DelegateView { subagent_context_window: window, ..self.deep_view() }),
    {
        let mut delegate = self;
        delegate.subagent_context_window = window;
        delegate
    }

    /// Set the context windows of role models.
    pub fn with_role_context_windows(self, windows: Table<Option<u64>>) -> (r: Self)
        ensures
            r.deep_view() == (DelegateView {
                role_context_windows: windows.deep_view(),
                ..self.deep_view()
            }),
    {
        let mut delegate = self;
        delegate.role_context_windows = windows;
        delegate
    }

    /// Route subagents onto another model.
    pub fn with_subagent_model(self, model: String) -> (r: Self)
        ensures
            r.deep_view() == (DelegateView { subagent_model: model@, ..self.deep_view() }),
    {
        let mut delegate = self;
        delegate.subagent_model = model;
        delegate
    }

    /// Route roles onto models of their own.
    pub fn with_role_models(self, role_models: Table<String>) -> (r: Self)
        ensures
            r.deep_view() == (DelegateView {
                role_models: role_models.deep_view(),
                ..self.deep_view()
            }),
    {
        let mut delegate = self;
        delegate.role_models = role_models;
        delegate
    }

    /// Route roles by the configuration of the moment: the driver asks it when
    /// it reads the role.
    pub fn with_role_model_source(self) -> (r: Self)
        ensures
            r.deep_view() == (DelegateView { live_routes: true, ..self.deep_view() }),
    {
        let mut delegate = self;
        delegate.live_routes = true;
        delegate
    }

    /// Enable role templates.
    pub fn with_roles_root(self, root: String) -> (r: Self)
        ensures
            r.deep_view() == (DelegateView { roles_root: Some(root@), ..self.deep_view() }),
    {
        let mut delegate = self;
        delegate.roles_root = Some(root);
        delegate
    }

    /// Give every subagent the sandbox of the session.
    pub fn with_sandbox(self, sandbox: Option<Sandbox>) -> (r: Self)
        ensures
            r.deep_view() == (DelegateView { sandbox: sandbox.deep_view(), ..self.deep_view() }),
    {
        let mut delegate = self;
        delegate.sandbox = sandbox;
        delegate
    }

    /// Limit how long a finished subagent waits for its background tasks.
    pub fn with_finalize_wait(self, wait: Option<u64>) -> (r: Self)
        ensures
            r.deep_view() == (DelegateView { finalize_wait: wait, ..self.deep_view() }),
    {
        let mut delegate = self;
        delegate.finalize_wait = wait;
        delegate
    }

    /// Record subagents among the running tasks of a session.
    pub fn record_background_tasks_in(self, root: String, session: &str) -> (r: Self)
        ensures
            r.deep_view() == (DelegateView {
                record_in: Some(PlaceView { root: root@, session: session@ }),
                ..self.deep_view()
            }),
    {
        let mut delegate = self;
        delegate.record_in = Some(RecordPlace { root, session: session.to_owned() });
        delegate
    }

    /// Store the sessions of subagents.
    pub fn persist_sessions(self, root: String) -> (r: Self)
        ensures
            r.deep_view() == (DelegateView { persist_root: Some(root@), ..self.deep_view() }),
    {
        let mut delegate = self;
        delegate.persist_root = Some(root);
        delegate
    }

    /// Choose the storage of subagents.
    pub fn with_persist_store(self, backend: SessionBackend) -> (r: Self)
        ensures
            r.deep_view() == (DelegateView {
                persist_backend: backend.deep_view(),
                ..self.deep_view()
            }),
    {
        let mut delegate = self;
        delegate.persist_backend = backend;
        delegate
    }

    /// The live subagents: a handle on the register that delegations go by.
    pub fn sessions(&self) -> (r: Sessions)
        ensures
            r == self.deep_view().sessions,
    {
        self.sessions.clone()
    }

    /// The sandbox of a read-only role; where there is none, there is none.
    pub fn read_only_sandbox(&self) -> (r: Option<Sandbox>)
        ensures
            r.deep_view() == sandbox_for(self.deep_view(), true),
    {
        match &self.sandbox {
            Some(sandbox) => Some(read_only_policy(sandbox)),
            None => None,
        }
    }

    /// What a role makes of a subagent.
    fn choose_role(&self, role: &str, template: RoleTemplate, routed: Option<Route>) -> (r: Choice)
        ensures
            r.deep_view() == role_choice(
                self.deep_view(),
                role@,
                template.deep_view(),
                routed.deep_view(),
            ),
    {
        let route = if self.live_routes {
            match routed {
                Some(route) => route,
                None => Route {
                    model: self.subagent_model.clone(),
                    context_window: self.subagent_context_window,
                },
            }
        } else {
            Route {
                model: match self.role_models.get(role) {
                    Some(model) => model.clone(),
                    None => self.subagent_model.clone(),
                },
                context_window: match self.role_context_windows.get(role) {
                    Some(Some(window)) => Some(*window),
                    _ => self.subagent_context_window,
                },
            }
        };
        Choice {
            model: route.model,
            context_window: route.context_window,
            role_prompt: Some(template.prompt),
            read_only: template.read_only,
            protect_git: template.protect_git,
        }
    }

    /// Go on to the workspace.
    fn open_workspace(
        &self,
        request: Request,
        choice: Choice,
        resumed: Option<Vec<entry::SessionEntry>>,
    ) -> (r: DelegateStep)
        ensures
            r.deep_view() == to_workspace(
                self.deep_view(),
                request.deep_view(),
                choice.deep_view(),
                resumed.deep_view(),
            ),
    {
        let workspace = match &request.workspace {
            Some(workspace) => workspace.clone(),
            None => {
                return DelegateStep::Refuse { error: NO_WORKSPACE.to_owned() };
            },
        };
        let path = if absolute(workspace.as_str()) {
            workspace.clone()
        } else {
            join_path(self.workspace.as_str(), workspace.as_str())
        };
        DelegateStep::Await {
            delegation: Delegation {
                request,
                stage: Stage::Rerooting { choice, resumed, workspace },
            },
            errand: Errand::Reroot { path },
        }
    }

    /// Go on to the session that is continued.
    fn open_resume(&self, registers: &Registers, request: Request, choice: Choice) -> (r:
        DelegateStep)
        ensures
            r.deep_view() == to_resume(
                self.deep_view(),
                registers.deep_view(),
                request.deep_view(),
                choice.deep_view(),
            ),
    {
        let id = match &request.resume {
            Some(id) => id.clone(),
            None => {
                return self.open_workspace(request, choice, None);
            },
        };
        if self.sessions.is_live(registers, id.as_str()) {
            let error = quoting(
                "cannot resume session `",
                id.as_str(),
                "`: it is still running as a live subagent; wait for it to finish or cancel its task first",
                "",
            );
            proof {
                reveal_strlit("");
                assert(error@ =~= still_live(id@));
            }
            return DelegateStep::Refuse { error };
        }
        match &self.persist_root {
            None => DelegateStep::Refuse { error: NO_PERSISTENCE.to_owned() },
            Some(root) => DelegateStep::Await {
                delegation: Delegation { request, stage: Stage::Loading { choice, id: id.clone() } },
                errand: Errand::Load { root: root.clone(), id },
            },
        }
    }

    /// Begin a delegation with these arguments. `delivery` says that the results
    /// of background tasks reach the session.
    pub fn execute(&self, registers: &Registers, arguments: &Json, delivery: bool) -> (r:
        DelegateStep)
        ensures
            r.deep_view() == opened(
                self.deep_view(),
                registers.deep_view(),
                arguments.deep_view(),
                delivery,
            ),
    {
        let request = match read_request(arguments, delivery) {
            Ok(request) => request,
            Err(error) => {
                return DelegateStep::Refuse { error };
            },
        };
        let role = match &request.role {
            Some(role) => role.clone(),
            None => {
                let choice = Choice {
                    model: self.subagent_model.clone(),
                    context_window: self.subagent_context_window,
                    role_prompt: None,
                    read_only: false,
                    protect_git: true,
                };
                return self.open_resume(registers, request, choice);
            },
        };
        match &self.roles_root {
            None => DelegateStep::Refuse { error: NO_ROLES.to_owned() },
            Some(root) => DelegateStep::Await {
                delegation: Delegation { request, stage: Stage::Role { role: role.clone() } },
                errand: Errand::ReadRole { root: root.clone(), role },
            },
        }
    }

    /// The step after a role was read.
    fn take_role(
        &self,
        registers: &Registers,
        request: Request,
        role: String,
        template: Result<Option<RoleTemplate>, String>,
        available: Vec<String>,
        routed: Option<Route>,
    ) -> (r: DelegateStep)
        ensures
            r.deep_view() == role_read(
                self.deep_view(),
                registers.deep_view(),
                request.deep_view(),
                role@,
                seen(template, |t: Option<RoleTemplate>| t.deep_view()),
                available.deep_view(),
                routed.deep_view(),
            ),
    {
        match template {
            Err(error) => {
                let error = quoting("cannot read role `", role.as_str(), "`: ", error.as_str());
                DelegateStep::Refuse { error }
            },
            Ok(None) => {
                assert(available.deep_view().len() == available@.len());
                let names = if available.len() == 0 {
                    "none".to_owned()
                } else {
                    join(&available, ", ")
                };
                let mut error = quoting(
                    "unknown role `",
                    role.as_str(),
                    "` (available: ",
                    names.as_str(),
                );
                error.push_str(")");
                DelegateStep::Refuse { error }
            },
            Ok(Some(template)) => {
                let choice = self.choose_role(role.as_str(), template, routed);
                self.open_resume(registers, request, choice)
            },
        }
    }

    /// The step after a history was loaded.
    fn take_history(
        &self,
        request: Request,
        choice: Choice,
        id: String,
        history: Result<Vec<entry::SessionEntry>, String>,
    ) -> (r: DelegateStep)
        ensures
            r.deep_view() == history_loaded(
                self.deep_view(),
                request.deep_view(),
                choice.deep_view(),
                id@,
                seen(history, |h: Vec<entry::SessionEntry>| h.deep_view()),
            ),
    {
        match history {
            Err(error) => {
                let error = quoting(
                    "cannot resume session `",
                    id.as_str(),
                    "`: ",
                    error.as_str(),
                );
                DelegateStep::Refuse { error }
            },
            Ok(entries) => {
                assert(entries.deep_view().len() == entries@.len());
                if entries.len() == 0 {
                    let mut error = "no such subagent session: `".to_owned();
                    error.push_str(id.as_str());
                    error.push_str("`");
                    return DelegateStep::Refuse { error };
                }
                match &self.persist_root {
                    None => DelegateStep::Refuse { error: NO_PERSISTENCE.to_owned() },
                    Some(root) => DelegateStep::Await {
                        delegation: Delegation {
                            request,
                            stage: Stage::Taking { choice, id: id.clone(), entries },
                        },
                        errand: Errand::Take { root: root.clone(), id },
                    },
                }
            },
        }
    }

    /// The step after the tasks that were running were taken.
    fn take_tasks(
        &self,
        request: Request,
        choice: Choice,
        id: String,
        entries: Vec<entry::SessionEntry>,
        unfinished: Result<Vec<String>, String>,
    ) -> (r: DelegateStep)
        ensures
            r.deep_view() == tasks_taken(
                self.deep_view(),
                request.deep_view(),
                choice.deep_view(),
                id@,
                entries.deep_view(),
                seen(unfinished, |u: Vec<String>| u.deep_view()),
            ),
    {
        match unfinished {
            Err(error) => {
                let error = quoting(
                    "cannot load unfinished tasks for session `",
                    id.as_str(),
                    "`: ",
                    error.as_str(),
                );
                DelegateStep::Refuse { error }
            },
            Ok(tasks) => {
                assert(tasks.deep_view().len() == tasks@.len());
                if tasks.len() == 0 {
                    return self.open_workspace(request, choice, Some(entries));
                }
                let root = match &self.persist_root {
                    Some(root) => root.clone(),
                    None => {
                        return DelegateStep::Refuse { error: NO_PERSISTENCE.to_owned() };
                    },
                };
                let mut text = "[e-agent exited with ".to_owned();
                text.push_str(decimal_text(tasks.len() as u64).as_str());
                text.push_str(
                    " background task(s) still running; they were killed with the process. Re-run them if still needed:]\n",
                );
                text.push_str(join(&tasks, "\n").as_str());
                assert(text@ =~= killed_notice(tasks.deep_view()));
                let notice = entry::SessionEntry::Notice { text };
                DelegateStep::Await {
                    delegation: Delegation {
                        request,
                        stage: Stage::Appending {
                            choice,
                            id: id.clone(),
                            entries,
                            notice: notice.clone(),
                        },
                    },
                    errand: Errand::Append { root, id, notice },
                }
            },
        }
    }

    /// Everything that a subagent is started with.
    fn plan(
        &self,
        request: Request,
        choice: Choice,
        resumed: Option<Vec<entry::SessionEntry>>,
        shown_workspace: String,
        workspace: String,
    ) -> (r: SpawnPlan)
        ensures
            r.deep_view() == plan_of(
                self.deep_view(),
                request.deep_view(),
                choice.deep_view(),
                resumed.deep_view(),
                shown_workspace@,
                workspace@,
            ),
    {
        let raw_label: Option<&str> = match &request.label {
            Some(label) => Some(label.as_str()),
            None => None,
        };
        let role: Option<&str> = match &request.role {
            Some(role) => Some(role.as_str()),
            None => None,
        };
        let label = task_label(raw_label, role, request.task.as_str());
        let sandbox = if choice.read_only {
            self.read_only_sandbox()
        } else {
            self.sandbox.clone()
        };
        let meta_label = match &request.resume {
            Some(_) => None,
            None => Some(label.clone()),
        };
        let parent_session = session_of(&self.record_in);
        let recorded = if request.background {
            self.record_in.clone()
        } else {
            None
        };
        SpawnPlan {
            task: request.task,
            label,
            role: request.role,
            choice,
            sandbox,
            workspace,
            shown_workspace,
            background: request.background,
            resume: request.resume,
            entries: resumed,
            meta_label,
            parent_session,
            recorded,
            finalize_wait: self.finalize_wait,
        }
    }

    /// Go on with a delegation after the report on its errand.
    pub fn go_on(&self, registers: &Registers, delegation: Delegation, report: Report) -> (r:
        DelegateStep)
        requires
            answers(delegation.stage.deep_view(), report.deep_view()),
        ensures
            r.deep_view() == stepped(
                self.deep_view(),
                registers.deep_view(),
                delegation.deep_view(),
                report.deep_view(),
            ),
    {
        let Delegation { request, stage } = delegation;
        match (stage, report) {
            (Stage::Role { role }, Report::RoleRead { template, available, routed }) =>
                self.take_role(registers, request, role, template, available, routed),
            (Stage::Loading { choice, id }, Report::Loaded { history }) => self.take_history(
                request,
                choice,
                id,
                history,
            ),
            (Stage::Taking { choice, id, entries }, Report::Taken { unfinished }) =>
                self.take_tasks(request, choice, id, entries, unfinished),
            (
                Stage::Appending { choice, id, entries, notice },
                Report::Appended { outcome },
            ) => match outcome {
                Err(error) => {
                    let error = quoting(
                        "cannot persist resume notice for session `",
                        id.as_str(),
                        "`: ",
                        error.as_str(),
                    );
                    DelegateStep::Refuse { error }
                },
                Ok(_) => {
                    let mut resumed = entries;
                    let ghost before = resumed.deep_view();
                    resumed.push(notice);
                    assert(resumed.deep_view() =~= before.push(notice.deep_view()));
                    self.open_workspace(request, choice, Some(resumed))
                },
            },
            (
                Stage::Rerooting { choice, resumed, workspace },
                Report::Rerooted { root },
            ) => match root {
                Err(error) => {
                    let error = quoting(
                        "invalid `workspace` path `",
                        workspace.as_str(),
                        "`: ",
                        error.as_str(),
                    );
                    DelegateStep::Refuse { error }
                },
                Ok(root) => DelegateStep::Start {
                    plan: self.plan(request, choice, resumed, workspace, root),
                },
            },
            _ => {
                let error = String::new();
                DelegateStep::Refuse { error }
            },
        }
    }
}

/// Where a subagent stores its session: where the parent says, else in
/// `fallback`; under the continued session's id, else under the fresh one.
pub open spec fn storage_of(
    delegate: DelegateView,
    plan: PlanView,
    fallback: Seq<char>,
    fresh_id: Seq<char>,
) -> PersistView {
    PersistView {
        root: match delegate.persist_root {
            Some(root) => root,
            None => fallback,
        },
        session_id: match plan.resume {
            Some(id) => id,
            None => fresh_id,
        },
        backend: delegate.persist_backend,
    }
}

impl Delegate {
    /// Where a subagent stores its session.
    pub fn storage(&self, plan: &SpawnPlan, fallback: &str, fresh_id: &str) -> (r: PersistConfig)
        ensures
            r.deep_view() == storage_of(
                self.deep_view(),
                plan.deep_view(),
                fallback@,
                fresh_id@,
            ),
    {
        PersistConfig {
            root: match &self.persist_root {
                Some(root) => root.clone(),
                None => fallback.to_owned(),
            },
            session_id: match &plan.resume {
                Some(id) => id.clone(),
                None => fresh_id.to_owned(),
            },
            backend: self.persist_backend.clone(),
        }
    }
}

/// What the tool is for.
pub const DELEGATE_PURPOSE: &'static str =
    "The first argument MUST be workspace: emit its path (absolute, or relative to your own workspace root — e.g. `.e-agent/worktrees/wt-x`) before writing task. Spawn a subagent with a fresh context to work on a task. Use this for self-contained subtasks (searching, reading many files, focused edits) whose intermediate steps would clutter your own context. The subagent has the file and bash tools and, when configured, public web search, but cannot delegate further.";

/// How the tool runs a subagent.
pub const DELEGATE_MODES: &'static str =
    " By default it runs in the background without blocking; the answer arrives automatically as a `[background task N completed]` message. Pass `background: false` to wait for and return the final answer directly. Do not poll, sleep, or re-check a background task — just dispatch it and wait; the completion arrives on its own.";

/// How a session is continued.
pub const DELEGATE_RESUME: &'static str =
    " With `resume: \"<session-id>\"` the subagent continues a previous subagent session: its transcript is loaded as the starting context and new turns append to the same session file, instead of starting fresh.";

/// How a role is chosen, in front of the roles.
pub const DELEGATE_ROLES: &'static str =
    " Pass `role` to give the subagent a specialized persona/model; available roles: ";

/// How a label is chosen, behind the roles.
pub const DELEGATE_LABELS: &'static str =
    ". Pass `label` to set a short (≤ 40 chars) title for the task panel; defaults to the role name or a preview of the task.";

/// The workspace parameter.
pub const WORKSPACE_PARAMETER: &'static str =
    "REQUIRED — working directory for the subagent (e.g. /home/user/project or C:\\Users\\user\\project). May be absolute or relative: relative paths are resolved against YOUR workspace root (e.g. `.e-agent/worktrees/wt-x`) and must stay inside it or an authorized external directory.";

/// The role parameter.
pub const ROLE_PARAMETER: &'static str = "specialized role for the subagent";

/// The label parameter.
pub const LABEL_PARAMETER: &'static str =
    "short (≤ 40 chars) human-readable title for the task panel; defaults to the role name or a preview of the task";

/// The background parameter.
pub const BACKGROUND_PARAMETER: &'static str =
    "run without blocking and deliver the answer as a background completion (default true); pass false to wait for the final answer";

/// The resume parameter.
pub const RESUME_PARAMETER: &'static str =
    "id of a previous subagent session (sub-…) to continue from; its transcript becomes the starting context";

/// The task parameter.
pub const TASK_PARAMETER: &'static str = "complete, self-contained instructions for the subagent";

/// A list of strings as a document.
pub open spec fn strings_json(items: Seq<Seq<char>>) -> JsonView {
    JsonView::Array(Seq::new(items.len(), |i: int| JsonView::Str(items[i])))
}

fn json_strings(items: &Vec<String>) -> (r: Json)
    ensures
        r.deep_view() == strings_json(items.deep_view()),
{
    let ghost views = items.deep_view();
    let mut out: Vec<Json> = Vec::new();
    let mut i: usize = 0;
    while i < items.len()
        invariant
            i <= items@.len(),
            views == items.deep_view(),
            out.deep_view() == Seq::new(i as nat, |k: int| JsonView::Str(views[k])),
        decreases items@.len() - i,
    {
        let ghost before = out.deep_view();
        assert(views.len() == items@.len());
        assert(views[i as int] == items@[i as int].deep_view());
        add_item(&mut out, Json::string(items[i].as_str()));
        i += 1;
        assert(out.deep_view() =~= Seq::new(i as nat, |k: int| JsonView::Str(views[k])));
    }
    assert(views.len() == items@.len());
    Json::array(out)
}

/// A parameter that is a text.
pub open spec fn text_parameter(description: Seq<char>) -> JsonView {
    JsonView::Object(
        seq![
            ("type"@, JsonView::Str("string"@)),
            ("description"@, JsonView::Str(description)),
        ],
    )
}

fn json_text_parameter(description: &str) -> (r: Json)
    ensures
        r.deep_view() == text_parameter(description@),
{
    let mut fields: Vec<(String, Json)> = Vec::new();
    put(&mut fields, "type", Json::string("string"));
    put(&mut fields, "description", Json::string(description));
    assert(fields.deep_view() =~= text_parameter(description@)->Object_0);
    Json::object(fields)
}

/// The role parameter, with the roles to choose from where there are any.
pub open spec fn role_parameter(roles: Seq<Seq<char>>) -> JsonView {
    if roles.len() == 0 {
        text_parameter(ROLE_PARAMETER@)
    } else {
        JsonView::Object(
            seq![
                ("type"@, JsonView::Str("string"@)),
                ("enum"@, strings_json(roles)),
                ("description"@, JsonView::Str(ROLE_PARAMETER@)),
            ],
        )
    }
}

fn json_role_parameter(roles: &Vec<String>) -> (r: Json)
    ensures
        r.deep_view() == role_parameter(roles.deep_view()),
{
    assert(roles.deep_view().len() == roles@.len());
    if roles.len() == 0 {
        return json_text_parameter(ROLE_PARAMETER);
    }
    let mut fields: Vec<(String, Json)> = Vec::new();
    put(&mut fields, "type", Json::string("string"));
    put(&mut fields, "enum", json_strings(roles));
    put(&mut fields, "description", Json::string(ROLE_PARAMETER));
    assert(fields.deep_view() =~= role_parameter(roles.deep_view())->Object_0);
    Json::object(fields)
}

/// The background parameter.
pub open spec fn background_parameter() -> JsonView {
    JsonView::Object(
        seq![
            ("type"@, JsonView::Str("boolean"@)),
            ("default"@, JsonView::Bool(true)),
            ("description"@, JsonView::Str(BACKGROUND_PARAMETER@)),
        ],
    )
}

fn json_background_parameter() -> (r: Json)
    ensures
        r.deep_view() == background_parameter(),
{
    let mut fields: Vec<(String, Json)> = Vec::new();
    put(&mut fields, "type", Json::string("boolean"));
    put(&mut fields, "default", Json::Bool(true));
    put(&mut fields, "description", Json::string(BACKGROUND_PARAMETER));
    assert(fields.deep_view() =~= background_parameter()->Object_0);
    Json::object(fields)
}

/// The parameters of a delegation as a schema.
pub open spec fn delegate_properties(roles: Seq<Seq<char>>) -> Seq<(Seq<char>, JsonView)> {
    seq![
        ("workspace"@, text_parameter(WORKSPACE_PARAMETER@)),
        ("role"@, role_parameter(roles)),
        ("label"@, text_parameter(LABEL_PARAMETER@)),
        ("background"@, background_parameter()),
        ("resume"@, text_parameter(RESUME_PARAMETER@)),
        ("task"@, text_parameter(TASK_PARAMETER@)),
    ]
}

/// The schema of a delegation.
pub open spec fn delegate_schema(roles: Seq<Seq<char>>) -> Seq<(Seq<char>, JsonView)> {
    seq![
        ("type"@, JsonView::Str("object"@)),
        ("properties"@, JsonView::Object(delegate_properties(roles))),
        ("required"@, strings_json(seq!["workspace"@, "task"@])),
    ]
}

/// The description of a delegation: what concerns stored sessions and roles is
/// said only where there are such.
pub open spec fn delegate_description(
    model: Seq<char>,
    persistent: bool,
    roles: Seq<Seq<char>>,
) -> Seq<char> {
    let opening = DELEGATE_PURPOSE@ + " The subagent runs on the `"@ + model + "` model."@
        + DELEGATE_MODES@;
    let resuming = if persistent {
        opening + DELEGATE_RESUME@
    } else {
        opening
    };
    if roles.len() > 0 {
        resuming + DELEGATE_ROLES@ + joined(roles, ", "@) + DELEGATE_LABELS@
    } else {
        resuming
    }
}

/// The tool as it is offered to the model. `available` are the roles that have
/// templates.
pub open spec fn delegate_spec(delegate: DelegateView, available: Seq<Seq<char>>) -> SpecView {
    let roles = if delegate.roles_root is Some {
        available
    } else {
        Seq::empty()
    };
    SpecView {
        name: "delegate"@,
        description: delegate_description(
            delegate.subagent_model,
            delegate.persist_root is Some,
            roles,
        ),
        parameters: JsonView::Object(delegate_schema(roles)),
    }
}

impl Delegate {
    /// The tool as it is offered to the model. `available` are the roles that
    /// have templates.
    pub fn spec(&self, available: Vec<String>) -> (r: ToolSpec)
        ensures
            r.deep_view() == delegate_spec(self.deep_view(), available.deep_view()),
    {
        let roles: Vec<String> = if self.roles_root.is_some() {
            available
        } else {
            Vec::new()
        };
        let ghost names = roles.deep_view();
        assert(names.len() == roles@.len());
        assert(self.roles_root is None ==> names =~= Seq::empty());
        let mut description = DELEGATE_PURPOSE.to_owned();
        description.push_str(" The subagent runs on the `");
        description.push_str(self.subagent_model.as_str());
        description.push_str("` model.");
        description.push_str(DELEGATE_MODES);
        if self.persist_root.is_some() {
            description.push_str(DELEGATE_RESUME);
        }
        if roles.len() > 0 {
            description.push_str(DELEGATE_ROLES);
            description.push_str(join(&roles, ", ").as_str());
            description.push_str(DELEGATE_LABELS);
        }
        assert(description@ =~= delegate_description(
            self.subagent_model@,
            self.persist_root is Some,
            names,
        ));
        let mut properties: Vec<(String, Json)> = Vec::new();
        put(&mut properties, "workspace", json_text_parameter(WORKSPACE_PARAMETER));
        put(&mut properties, "role", json_role_parameter(&roles));
        put(&mut properties, "label", json_text_parameter(LABEL_PARAMETER));
        put(&mut properties, "background", json_background_parameter());
        put(&mut properties, "resume", json_text_parameter(RESUME_PARAMETER));
        put(&mut properties, "task", json_text_parameter(TASK_PARAMETER));
        assert(properties.deep_view() =~= delegate_properties(names));
        let required = vec!["workspace".to_owned(), "task".to_owned()];
        assert(required.deep_view() =~= seq!["workspace"@, "task"@]);
        let mut schema: Vec<(String, Json)> = Vec::new();
        put(&mut schema, "type", Json::string("object"));
        put(&mut schema, "properties", Json::object(properties));
        put(&mut schema, "required", json_strings(&required));
        assert(schema.deep_view() =~= delegate_schema(names));
        ToolSpec {
            name: "delegate".to_owned(),
            description,
            parameters: Json::object(schema),
        }
    }
}

/// A registration that was undone is undone: a second call changes nothing and
/// clears nothing.
pub proof fn cleanup_happens_once(before: Seq<(u64, LiveView)>, id: u64)
    ensures
        without_task(without_task(before, id), id) == without_task(before, id),
        registered(without_task(before, id), id) is None,
{
    let after = without_task(before, id);
    lemma_without_task(before, id);
    lemma_without_task_none(after, id);
    lemma_registered(after, id, 0);
}

proof fn lemma_without_task_none(entries: Seq<(u64, LiveView)>, id: u64)
    requires
        forall|i: int| 0 <= i < entries.len() ==> (#[trigger] entries[i]).0 != id,
    ensures
        without_task(entries, id) == entries,
    decreases entries.len(),
{
    if entries.len() > 0 {
        assert(entries[entries.len() - 1].0 != id);
        lemma_without_task_none(entries.drop_last(), id);
        assert(entries =~= entries.drop_last().push(entries.last()));
    } else {
        assert(entries =~= Seq::empty());
    }
}

/// The list of a register holds exactly one pair for each registered task, and
/// that is what the register gives for it.
pub proof fn registered_tasks_are_listed_once(
    entries: Seq<(u64, LiveView)>,
    id: u64,
    entry: LiveView,
)
    requires
        distinct_tasks(entries),
    ensures
        registered(entries, id) == Some(entry) <==> entries.contains((id, entry)),
        registered(entries, id) is None <==> forall|i: int|
            0 <= i < entries.len() ==> (#[trigger] entries[i]).0 != id,
    decreases entries.len(),
{
    if entries.len() > 0 {
        let head = entries.drop_last();
        let last = entries.last();
        assert(entries[entries.len() - 1] == last);
        assert(forall|i: int| 0 <= i < head.len() ==> #[trigger] entries[i] == head[i]);
        assert forall|i: int, j: int| 0 <= i < j < head.len() implies (#[trigger] head[i]).0 != (
        #[trigger] head[j]).0 by {
            assert(entries[i].0 != entries[j].0);
        }
        registered_tasks_are_listed_once(head, id, entry);
        if head.contains((id, entry)) {
            let k = choose|k: int| 0 <= k < head.len() && head[k] == (id, entry);
            assert(entries[k] == (id, entry));
            assert(entries[k].0 != entries[entries.len() - 1].0);
        }
        if entries.contains((id, entry)) && last.0 != id {
            let k = choose|k: int| 0 <= k < entries.len() && entries[k] == (id, entry);
            assert(head[k] == (id, entry));
        }
        if entries.contains((id, entry)) && last.0 == id {
            let k = choose|k: int| 0 <= k < entries.len() && entries[k] == (id, entry);
            if k < entries.len() - 1 {
                assert(entries[k].0 != entries[entries.len() - 1].0);
            }
        }
        if registered(entries, id) is None {
            assert forall|i: int| 0 <= i < entries.len() implies (#[trigger] entries[i]).0 != id by {
                if i < head.len() {
                    assert(head[i].0 != id);
                }
            }
        }
    }
}

/// The other subagents stay registered, whatever happens to one.
pub proof fn registrations_are_independent(
    before: Seq<(u64, LiveView)>,
    id: u64,
    entry: LiveView,
    other: u64,
)
    requires
        other != id,
    ensures
        registered(without_task(before, id), other) == registered(before, other),
        registered(without_task(before, id).push((id, entry)), other) == registered(before, other),
    decreases before.len(),
{
    let kept = without_task(before, id);
    assert(kept.push((id, entry)).drop_last() =~= kept);
    if before.len() > 0 {
        registrations_are_independent(before.drop_last(), id, entry, other);
        if before.last().0 != id {
            let rest = without_task(before.drop_last(), id);
            assert(rest.push(before.last()).drop_last() =~= rest);
        }
    }
}

/// Clones share one register: what is removed through a handle is gone for its
/// clones too, every other task stays as it was for them, and removing a task
/// that is not registered changes nothing.
pub proof fn removals_are_seen_through_clones(
    registers: Seq<Seq<(u64, LiveView)>>,
    sessions: Sessions,
    copy: Sessions,
    id: u64,
    other: u64,
)
    requires
        copy == sessions,
        other != id,
    ensures
        ({
            let before = register_of(registers, copy);
            let after = register_of(task_removed(registers, sessions, id), copy);
            &&& registered(after, id) is None
            &&& registered(after, other) == registered(before, other)
            &&& registered(before, id) is None ==> task_removed(registers, sessions, id)
                == registers
        }),
{
    let before = register_of(registers, sessions);
    cleanup_happens_once(before, id);
    if before.len() > 0 {
        registrations_are_independent(before, id, before[0].1, other);
    }
    if registered(before, id) is None {
        lemma_unregistered(before, id);
        lemma_without_task_none(before, id);
        assert(task_removed(registers, sessions, id) =~= registers);
    }
}

proof fn lemma_unregistered(entries: Seq<(u64, LiveView)>, id: u64)
    requires
        registered(entries, id) is None,
    ensures
        forall|i: int| 0 <= i < entries.len() ==> (#[trigger] entries[i]).0 != id,
    decreases entries.len(),
{
    if entries.len() > 0 {
        lemma_unregistered(entries.drop_last(), id);
        assert forall|i: int| 0 <= i < entries.len() implies (#[trigger] entries[i]).0 != id by {
            if i < entries.len() - 1 {
                assert(entries.drop_last()[i] == entries[i]);
            }
        }
    }
}

/// Clones share one register: what is registered through a handle is there for
/// its clones too, and every other task stays as it was for them.
pub proof fn registrations_are_seen_through_clones(
    registers: Seq<Seq<(u64, LiveView)>>,
    sessions: Sessions,
    copy: Sessions,
    id: u64,
    entry: LiveView,
    other: u64,
)
    requires
        opened_in(registers, sessions),
        copy == sessions,
        other != id,
    ensures
        ({
            let before = register_of(registers, copy);
            let after = register_of(task_inserted(registers, sessions, id, entry), copy);
            &&& registered(after, id) == Some(entry)
            &&& registered(after, other) == registered(before, other)
        }),
{
    let before = register_of(registers, sessions);
    registrations_are_independent(before, id, entry, other);
    assert(without_task(before, id).push((id, entry)).last() == (id, entry));
}

/// Handles that were opened apart have nothing in common: what happens through
/// one leaves the register of the other as it was.
pub proof fn registers_are_separate(
    registers: Seq<Seq<(u64, LiveView)>>,
    sessions: Sessions,
    apart: Sessions,
    id: u64,
    entry: LiveView,
)
    requires
        opened_in(registers, sessions),
        opened_in(registers, apart),
        apart != sessions,
    ensures
        register_of(task_removed(registers, sessions, id), apart) == register_of(registers, apart),
        register_of(task_inserted(registers, sessions, id, entry), apart) == register_of(
            registers,
            apart,
        ),
        register_of(registers.push(Seq::empty()), apart) == register_of(registers, apart),
{
}

/// Whether a delegation on its way has the resumed session it asks for settled.
pub open spec fn settled(
    delegate: DelegateView,
    registers: Seq<Seq<(u64, LiveView)>>,
    delegation: DelegationView,
) -> bool {
    delegation.stage is Role || match delegation.request.resume {
        Some(id) => !live(register_of(registers, delegate.sessions), id),
        None => true,
    }
}

/// A session that runs as a live subagent is never continued: no delegation
/// reaches its history, and none is started on it.
pub proof fn live_sessions_are_not_resumed(
    delegate: DelegateView,
    registers: Seq<Seq<(u64, LiveView)>>,
    arguments: JsonView,
    delivery: bool,
    delegation: DelegationView,
    report: ReportView,
)
    requires
        settled(delegate, registers, delegation),
    ensures
        opened(delegate, registers, arguments, delivery) matches StepView::Await {
            delegation: next,
            ..
        } ==> settled(delegate, registers, next),
        stepped(delegate, registers, delegation, report) matches StepView::Await {
            delegation: next,
            ..
        } ==> settled(delegate, registers, next),
        stepped(delegate, registers, delegation, report) matches StepView::Start { plan } ==> (
        plan.resume matches Some(id) ==> !live(register_of(registers, delegate.sessions), id)),
{
}

/// A read-only role gets no place to write to and no network: where there is a
/// sandbox it is narrowed, and where there is none it gets none.
pub proof fn read_only_roles_cannot_write(
    delegate: DelegateView,
    registers: Seq<Seq<(u64, LiveView)>>,
    delegation: DelegationView,
    report: ReportView,
)
    ensures
        stepped(delegate, registers, delegation, report) matches StepView::Start { plan } ==> (
        plan.choice.read_only ==> match plan.sandbox {
            Some(sandbox) => !sandbox.network && !sandbox.workspace_writable
                && sandbox.writable_paths.len() == 0 && sandbox.writable_mounts.len() == 0,
            None => delegate.sandbox is None,
        }),
{
}

/// A continued history is kept whole: at most the notice of the tasks that ended
/// with the process is added to it.
pub proof fn resumed_histories_are_kept(
    delegate: DelegateView,
    registers: Seq<Seq<(u64, LiveView)>>,
    request: RequestView,
    choice: ChoiceView,
    id: Seq<char>,
    entries: Seq<EntryView>,
    unfinished: Seq<Seq<char>>,
)
    requires
        delegate.persist_root is Some,
        request.workspace is Some,
    ensures
        tasks_taken(delegate, request, choice, id, entries, Ok(unfinished)) matches StepView::Await {
            delegation,
            errand,
        } && if unfinished.len() == 0 {
            delegation.stage matches StageView::Rerooting { resumed, .. } && resumed == Some(
                entries,
            )
        } else {
            stepped(
                delegate,
                registers,
                delegation,
                ReportView::Appended { outcome: Ok(()) },
            ) matches StepView::Await { delegation: next, .. } && next.stage
                matches StageView::Rerooting { resumed, .. } && resumed == Some(
                entries.push(EntryView::Notice { text: killed_notice(unfinished) }),
            )
        },
{
}

/// A side conversation starts with a part of the source's history that ends at a
/// completed turn, followed by where it comes from and the notice.
pub proof fn side_conversations_keep_the_source(source: Seq<char>, entries: Seq<EntryView>)
    requires
        entries.len() <= usize::MAX,
    ensures
        fork_history(source, entries) matches Ok(history) ==> {
            let kept = history.len() - 2;
            &&& 0 < kept <= entries.len()
            &&& history.take(kept) == entries.take(kept)
            &&& turn_boundary(entries[kept - 1])
            &&& history[kept] matches EntryView::ForkedFrom { source: from, at, .. } && from
                == source && at == kept
            &&& history[kept + 1] == (EntryView::Notice { text: FORK_NOTICE@ })
        },
{
    forks_end_at_a_turn_boundary(entries, None);
    if let Ok(prefix) = forked(entries, None) {
        let kept = prefix.len() as int;
        let history = fork_history(source, entries)->Ok_0;
        assert(history.take(kept) =~= prefix);
        assert(prefix =~= entries.take(kept));
    }
}

proof fn lemma_first_unknown(fields: Seq<(Seq<char>, JsonView)>)
    ensures
        first_unknown(fields) is Some <==> exists|i: int|
            0 <= i < fields.len() && !known_parameter((#[trigger] fields[i]).0),
    decreases fields.len(),
{
    if fields.len() > 0 {
        let rest = fields.drop_first();
        lemma_first_unknown(rest);
        if exists|i: int| 0 <= i < fields.len() && !known_parameter((#[trigger] fields[i]).0) {
            let i = choose|i: int|
                0 <= i < fields.len() && !known_parameter((#[trigger] fields[i]).0);
            if i > 0 {
                assert(rest[i - 1] == fields[i]);
            }
        }
        if exists|i: int| 0 <= i < rest.len() && !known_parameter((#[trigger] rest[i]).0) {
            let i = choose|i: int| 0 <= i < rest.len() && !known_parameter((#[trigger] rest[i]).0);
            assert(fields[i + 1] == rest[i]);
        }
    }
}

/// Whether an argument list names nothing but the six parameters of a delegation.
pub open spec fn names_parameters_only(fields: Seq<(Seq<char>, JsonView)>) -> bool {
    forall|i: int|
        0 <= i < fields.len() ==> {
            let name = (#[trigger] fields[i]).0;
            name == "task"@ || name == "role"@ || name == "label"@ || name == "background"@ || name
                == "resume"@ || name == "workspace"@
        }
}

/// A delegation asks for what its arguments say, each under its own name: it is in
/// order exactly where it names nothing but parameters and a task in words, says
/// whether it runs in the background by a switch, if at all, and can be told of its
/// end. What is left out is not asked for, but the background is.
pub proof fn delegations_ask_for_what_is_said(
    fields: Seq<(Seq<char>, JsonView)>,
    delivery: bool,
)
    ensures
        ({
            let arguments = JsonView::Object(fields);
            let text = |key: Seq<char>| match get(arguments, key) {
                Some(JsonView::Str(text)) => Some(text),
                _ => None,
            };
            let background = match get(arguments, "background"@) {
                Some(JsonView::Bool(value)) => value,
                _ => true,
            };
            let request = request_of(arguments, delivery);
            &&& request is Ok <==> names_parameters_only(fields) && (text("task"@) matches Some(
                task,
            ) && trimmed(task).len() > 0) && (get(arguments, "background"@) is None || get(
                arguments,
                "background"@,
            )->0 is Bool) && (delivery || !background)
            &&& request matches Ok(request) ==> {
                &&& text("task"@) == Some(request.task)
                &&& request.background == background
                &&& request.role == text("role"@)
                &&& request.resume == text("resume"@)
                &&& request.label == text("label"@)
                &&& request.workspace == match text("workspace"@) {
                    Some(path) => if trimmed(path).len() > 0 {
                        Some(trimmed(path))
                    } else {
                        None
                    },
                    None => None,
                }
            }
        }),
{
    lemma_first_unknown(fields);
    let arguments = JsonView::Object(fields);
    if names_parameters_only(fields) {
        assert forall|i: int| 0 <= i < fields.len() implies known_parameter(
            (#[trigger] fields[i]).0,
        ) by {}
    } else {
        let i = choose|i: int|
            0 <= i < fields.len() && !({
                let name = (#[trigger] fields[i]).0;
                name == "task"@ || name == "role"@ || name == "label"@ || name == "background"@
                    || name == "resume"@ || name == "workspace"@
            });
        assert(!known_parameter(fields[i].0));
    }
    assert(unknown_argument(arguments) == first_unknown(fields));
}

/// How a delegation begins: with a role, the role is read; without one, the
/// subagent is the plain one, on the default model. A session to continue is loaded
/// unless it runs, and a fresh one goes straight to its workspace, taken from the
/// caller's where it is relative. What is missing for that is refused.
pub proof fn delegations_begin(
    delegate: DelegateView,
    registers: Seq<Seq<(u64, LiveView)>>,
    arguments: JsonView,
    delivery: bool,
)
    ensures
        request_of(arguments, delivery) matches Err(error) ==> opened(
            delegate,
            registers,
            arguments,
            delivery,
        ) == (StepView::Refuse { error }),
        request_of(arguments, delivery) matches Ok(request) ==> {
            let step = opened(delegate, registers, arguments, delivery);
            let plain = ChoiceView {
                model: delegate.subagent_model,
                context_window: delegate.subagent_context_window,
                role_prompt: None,
                read_only: false,
                protect_git: true,
            };
            match request.role {
                Some(role) => match delegate.roles_root {
                    Some(root) => step == (StepView::Await {
                        delegation: DelegationView { request, stage: StageView::Role { role } },
                        errand: ErrandView::ReadRole { root, role },
                    }),
                    None => step is Refuse,
                },
                None => goes_on(delegate, registers, request, plain, step),
            }
        },
{
}

/// How a delegation goes on once it is settled what the subagent is.
pub open spec fn goes_on(
    delegate: DelegateView,
    registers: Seq<Seq<(u64, LiveView)>>,
    request: RequestView,
    choice: ChoiceView,
    step: StepView,
) -> bool {
    match request.resume {
        Some(id) => {
            let runs = exists|i: int|
                0 <= i < register_of(registers, delegate.sessions).len() && (
                #[trigger] register_of(registers, delegate.sessions)[i]).1.session_id == id;
            &&& runs || delegate.persist_root is None ==> step is Refuse
            &&& !runs && delegate.persist_root is Some ==> step == (StepView::Await {
                delegation: DelegationView { request, stage: StageView::Loading { choice, id } },
                errand: ErrandView::Load { root: delegate.persist_root->0, id },
            })
        },
        None => goes_to_workspace(delegate, request, choice, None, step),
    }
}

/// How a delegation goes on to its workspace.
pub open spec fn goes_to_workspace(
    delegate: DelegateView,
    request: RequestView,
    choice: ChoiceView,
    resumed: Option<Seq<EntryView>>,
    step: StepView,
) -> bool {
    match request.workspace {
        None => step is Refuse,
        Some(workspace) => step == (StepView::Await {
            delegation: DelegationView {
                request,
                stage: StageView::Rerooting { choice, resumed, workspace },
            },
            errand: ErrandView::Reroot {
                path: if workspace.len() > 0 && workspace[0] == '/' {
                    workspace
                } else {
                    joined_path(delegate.workspace, workspace)
                },
            },
        }),
    }
}

/// A role makes the subagent what its template says, on the model that the role is
/// routed to, at the moment or by the tables, and else on the default one. A role
/// that cannot be read or does not exist is refused.
pub proof fn roles_make_the_subagent(
    delegate: DelegateView,
    registers: Seq<Seq<(u64, LiveView)>>,
    request: RequestView,
    role: Seq<char>,
    template: TemplateView,
    available: Seq<Seq<char>>,
    routed: Option<RouteView>,
    error: Seq<char>,
)
    ensures
        ({
            let waiting = DelegationView { request, stage: StageView::Role { role } };
            let read = |found: Result<Option<TemplateView>, Seq<char>>|
                stepped(
                    delegate,
                    registers,
                    waiting,
                    ReportView::RoleRead { template: found, available, routed },
                );
            let model = if delegate.live_routes {
                if routed is Some {
                    (routed->0).model
                } else {
                    delegate.subagent_model
                }
            } else if delegate.role_models.contains_key(role) {
                delegate.role_models[role]
            } else {
                delegate.subagent_model
            };
            let context_window = if delegate.live_routes {
                if routed is Some {
                    (routed->0).context_window
                } else {
                    delegate.subagent_context_window
                }
            } else if delegate.role_context_windows.contains_key(role)
                && delegate.role_context_windows[role] is Some {
                delegate.role_context_windows[role]
            } else {
                delegate.subagent_context_window
            };
            let choice = ChoiceView {
                model,
                context_window,
                role_prompt: Some(template.prompt),
                read_only: template.read_only,
                protect_git: template.protect_git,
            };
            &&& goes_on(delegate, registers, request, choice, read(Ok(Some(template))))
            &&& read(Ok(None)) is Refuse
            &&& read(Err(error)) == (StepView::Refuse {
                error: "cannot read role `"@ + role + "`: "@ + error,
            })
        }),
{
}

/// A session is continued with its whole history: what was loaded, and a notice of
/// the tasks that ended with the process, which is stored first. A session without
/// a history, and whatever fails on the way, is refused.
pub proof fn sessions_are_continued_with_their_history(
    delegate: DelegateView,
    registers: Seq<Seq<(u64, LiveView)>>,
    request: RequestView,
    choice: ChoiceView,
    id: Seq<char>,
    entries: Seq<EntryView>,
    tasks: Seq<Seq<char>>,
    root: Seq<char>,
    error: Seq<char>,
)
    requires
        delegate.persist_root == Some(root),
    ensures
        ({
            let loading = DelegationView { request, stage: StageView::Loading { choice, id } };
            let taking = DelegationView {
                request,
                stage: StageView::Taking { choice, id, entries },
            };
            let notice = EntryView::Notice {
                text: "[e-agent exited with "@ + decimal(tasks.len())
                    + " background task(s) still running; they were killed with the process. Re-run them if still needed:]\n"@
                    + joined(tasks, "\n"@),
            };
            let appending = DelegationView {
                request,
                stage: StageView::Appending { choice, id, entries, notice },
            };
            let loaded = stepped(
                delegate,
                registers,
                loading,
                ReportView::Loaded { history: Ok(entries) },
            );
            let taken = stepped(
                delegate,
                registers,
                taking,
                ReportView::Taken { unfinished: Ok(tasks) },
            );
            let appended = stepped(
                delegate,
                registers,
                appending,
                ReportView::Appended { outcome: Ok(()) },
            );
            &&& entries.len() == 0 ==> loaded is Refuse
            &&& entries.len() > 0 ==> loaded == (StepView::Await {
                delegation: taking,
                errand: ErrandView::Take { root, id },
            })
            &&& tasks.len() == 0 ==> goes_to_workspace(
                delegate,
                request,
                choice,
                Some(entries),
                taken,
            )
            &&& tasks.len() > 0 ==> taken == (StepView::Await {
                delegation: appending,
                errand: ErrandView::Append { root, id, notice },
            })
            &&& goes_to_workspace(delegate, request, choice, Some(entries.push(notice)), appended)
            &&& stepped(
                delegate,
                registers,
                loading,
                ReportView::Loaded { history: Err(error) },
            ) is Refuse
            &&& stepped(
                delegate,
                registers,
                taking,
                ReportView::Taken { unfinished: Err(error) },
            ) is Refuse
            &&& stepped(
                delegate,
                registers,
                appending,
                ReportView::Appended { outcome: Err(error) },
            ) is Refuse
        }),
{
}

/// A subagent is started with what was asked for and settled on the way: the task,
/// the choice, the history and the workspace as they are, the sandbox of the caller
/// or its read-only form, the record of the caller where it runs in the background,
/// and a title that a fresh session is recorded under.
pub proof fn subagents_start_as_settled(
    delegate: DelegateView,
    registers: Seq<Seq<(u64, LiveView)>>,
    request: RequestView,
    choice: ChoiceView,
    resumed: Option<Seq<EntryView>>,
    workspace: Seq<char>,
    root: Seq<char>,
    error: Seq<char>,
)
    ensures
        ({
            let rerooting = DelegationView {
                request,
                stage: StageView::Rerooting { choice, resumed, workspace },
            };
            let step = stepped(
                delegate,
                registers,
                rerooting,
                ReportView::Rerooted { root: Ok(root) },
            );
            &&& step matches StepView::Start { plan }
            &&& plan.task == request.task && plan.role == request.role
            &&& plan.background == request.background && plan.resume == request.resume
            &&& plan.choice == choice && plan.entries == resumed
            &&& plan.workspace == root && plan.shown_workspace == workspace
            &&& plan.label == label_of(request.label, request.role, request.task)
            &&& plan.meta_label == if request.resume is Some {
                None
            } else {
                Some(plan.label)
            }
            &&& plan.finalize_wait == delegate.finalize_wait
            &&& plan.parent_session is Some <==> delegate.record_in is Some
            &&& delegate.record_in matches Some(record) ==> plan.parent_session == Some(
                record.session,
            )
            &&& plan.recorded == if request.background {
                delegate.record_in
            } else {
                None
            }
            &&& delegate.sandbox is None ==> plan.sandbox is None
            &&& delegate.sandbox matches Some(sandbox) ==> {
                &&& !choice.read_only ==> plan.sandbox == Some(sandbox)
                &&& choice.read_only ==> plan.sandbox == Some(
                    SandboxView {
                        enabled: sandbox.enabled,
                        network: false,
                        workspace_writable: false,
                        writable_paths: Seq::empty(),
                        readable_paths: sandbox.readable_paths,
                        readable_mounts: sandbox.readable_mounts,
                        writable_mounts: Seq::empty(),
                    },
                )
            }
        }),
        stepped(
            delegate,
            registers,
            DelegationView { request, stage: StageView::Rerooting { choice, resumed, workspace } },
            ReportView::Rerooted { root: Err(error) },
        ) == (StepView::Refuse {
            error: "invalid `workspace` path `"@ + workspace + "`: "@ + error,
        }),
{
}

/// A subagent stores its session where the caller's sessions are stored, else where
/// there is room, and under the id of the session that it continues, else under a
/// fresh one.
pub proof fn sessions_are_stored_where_they_belong(
    delegate: DelegateView,
    plan: PlanView,
    fallback: Seq<char>,
    fresh_id: Seq<char>,
)
    ensures
        ({
            let place = storage_of(delegate, plan, fallback, fresh_id);
            &&& delegate.persist_root matches Some(root) ==> place.root == root
            &&& delegate.persist_root is None ==> place.root == fallback
            &&& plan.resume matches Some(id) ==> place.session_id == id
            &&& plan.resume is None ==> place.session_id == fresh_id
            &&& place.backend == delegate.persist_backend
        }),
{
}

/// The title of a task is the caller's, where it says something, else the role,
/// else the beginning of the task, on one line of forty characters.
pub proof fn titles_go_by_what_is_given(label: Seq<char>, role: Seq<char>, task: Seq<char>)
    ensures
        trimmed(label).len() > 0 ==> forall|given: Option<Seq<char>>| #[trigger]
            label_of(Some(label), given, task) == previewed(
                joined(words(trimmed(label)), " "@),
                40,
            ),
        label_of(None, Some(role), task) == joined(words(role), " "@),
        label_of(None, None, task) == previewed(joined(words(task), " "@), 40),
        trimmed(label).len() == 0 ==> label_of(Some(label), Some(role), task) == label_of(
            None,
            Some(role),
            task,
        ) && label_of(Some(label), None, task) == label_of(None, None, task),
{
}

/// A subagent ends with its answer, or with how it failed.
pub proof fn subagents_end_with_their_answer(text: Seq<char>, kind: Seq<char>, id: Seq<char>)
    ensures
        output_of(ResultView::Completed { answer: Some(text) }) == (true, text),
        output_of(ResultView::Completed { answer: None }) == (true, Seq::<char>::empty()),
        output_of(ResultView::Failed { error: text }) == (false, "subagent failed: "@ + text),
        output_of(ResultView::Cancelled) == (false, "subagent cancelled"@),
        output_of(ResultView::Closed) == (false, "subagent closed"@),
        headed(kind, id, text) == kind + " session: "@ + id + "\n"@ + text,
{
}

/// A subagent is told who it is, its role's words first where it has a role; that
/// it may not write, where it may not; and what the workspace has to say, last.
pub proof fn subagents_are_told_who_they_are(
    prompt: Option<Seq<char>>,
    interactive: bool,
    read_only: bool,
    model: Seq<char>,
    agents: Option<Seq<char>>,
)
    ensures
        ({
            let text = instructions_of(prompt, interactive, read_only, model, agents);
            let opening = match prompt {
                Some(words) => words + ROLE_OPENING@ + model + TASK_CLOSING@,
                None => if interactive {
                    FORK_OPENING@ + model + FORK_CLOSING@
                } else {
                    TASK_OPENING@ + model + TASK_CLOSING@
                },
            };
            let note = if read_only {
                READ_ONLY_NOTE@ + BACKGROUND_NOTE@
            } else {
                BACKGROUND_NOTE@
            };
            let closing = if agents is Some && trimmed(agents->0).len() > 0 {
                "\n\n## AGENTS.md\n\n"@ + agents->0
            } else {
                Seq::empty()
            };
            text == opening + note + closing
        }),
{
    let text = instructions_of(prompt, interactive, read_only, model, agents);
    let opening = match prompt {
        Some(words) => words + ROLE_OPENING@ + model + TASK_CLOSING@,
        None => if interactive {
            FORK_OPENING@ + model + FORK_CLOSING@
        } else {
            TASK_OPENING@ + model + TASK_CLOSING@
        },
    };
    let note = if read_only {
        READ_ONLY_NOTE@ + BACKGROUND_NOTE@
    } else {
        BACKGROUND_NOTE@
    };
    let closing = if agents is Some && trimmed(agents->0).len() > 0 {
        "\n\n## AGENTS.md\n\n"@ + agents->0
    } else {
        Seq::empty()
    };
    assert(text =~= opening + note + closing);
}

/// The session of a subagent has the instructions, the window and the history that
/// it is given; a delegated task is compacted as one task, a side conversation as a
/// session.
pub proof fn subagents_have_their_own_session(
    window: Option<u64>,
    instructions: Seq<char>,
    interactive: bool,
    history: Seq<EntryView>,
)
    ensures
        ({
            let fresh = started_agent(window, instructions, interactive, None);
            let resumed = started_agent(window, instructions, interactive, Some(history));
            &&& fresh.context_window == window && resumed.context_window == window
            &&& fresh.context_prefix == Some(instructions)
            &&& resumed.context_prefix == Some(instructions)
            &&& fresh.compaction_mode == if interactive {
                CompactionMode::Main
            } else {
                CompactionMode::SingleTask
            }
            &&& resumed.compaction_mode == fresh.compaction_mode
            &&& fresh.history.len() == 0
            &&& resumed.history.len() == history.len()
            &&& forall|i: int|
                0 <= i < history.len() ==> (#[trigger] resumed.history[i])
                    == crate::entry::migrated(history[i])
            &&& fresh.session_input_tokens == 0 && fresh.session_output_tokens == 0
        }),
{
}

/// A side conversation asks its question, trimmed, in the surroundings of the
/// session that it leaves: its model, workspace, sandbox and record, under an id of
/// its own and with the storage that it is stored in. A blank question is refused.
pub proof fn side_conversations_take_their_surroundings(
    source: Seq<char>,
    question: Seq<char>,
    entries: Seq<EntryView>,
    context: BtwContextView,
    id: Seq<char>,
)
    ensures
        ({
            let plan = btw_plan(source, question, entries, context, id);
            &&& plan is Ok <==> trimmed(question).len() > 0 && fork_history(source, entries) is Ok
            &&& plan matches Ok(plan) ==> {
                &&& plan.task == trimmed(question)
                &&& plan.label == "btw: "@ + previewed(
                    joined(words(trimmed(question)), " "@),
                    40,
                )
                &&& fork_history(source, entries) == Ok::<Seq<EntryView>, Seq<char>>(plan.entries)
                &&& plan.write == if context.backend is Jsonl {
                    ForkWrite::Rewrite
                } else {
                    ForkWrite::Append
                }
                &&& plan.persist == (PersistView {
                    root: context.persist_root,
                    session_id: id,
                    backend: context.backend,
                })
                &&& plan.live == (LiveView {
                    model: context.model,
                    role: None,
                    cwd: context.workspace,
                    session_id: id,
                    context_window: context.context_window,
                })
                &&& plan.sandbox == context.sandbox && plan.read_only == context.read_only
                &&& plan.protect_git && plan.recorded == context.record_in
                &&& context.record_in matches Some(record) ==> plan.parent_session == Some(
                    record.session,
                )
                &&& context.record_in is None ==> plan.parent_session is None
            }
        }),
{
}

/// The tool says what a delegation takes: a schema of its six parameters, of which
/// the workspace and the task are required, and the roles to choose from where there
/// are any. It names the model, and speaks of continuing sessions and of roles only
/// where there are such.
pub proof fn the_tool_says_what_it_takes(delegate: DelegateView, available: Seq<Seq<char>>)
    ensures
        ({
            let spec = delegate_spec(delegate, available);
            let roles = if delegate.roles_root is Some {
                available
            } else {
                Seq::empty()
            };
            &&& spec.name == "delegate"@
            &&& spec.description == DELEGATE_PURPOSE@ + " The subagent runs on the `"@
                + delegate.subagent_model + "` model."@ + DELEGATE_MODES@ + (
            if delegate.persist_root is Some {
                DELEGATE_RESUME@
            } else {
                Seq::empty()
            }) + (if roles.len() > 0 {
                DELEGATE_ROLES@ + joined(roles, ", "@) + DELEGATE_LABELS@
            } else {
                Seq::empty()
            })
            &&& get(spec.parameters, "type"@) == Some(JsonView::Str("object"@))
            &&& get(spec.parameters, "required"@) matches Some(JsonView::Array(required))
            &&& required == seq![JsonView::Str("workspace"@), JsonView::Str("task"@)]
            &&& get(spec.parameters, "properties"@) matches Some(JsonView::Object(fields))
            &&& fields.len() == 6 && names_parameters_only(fields)
        }),
{
    let spec = delegate_spec(delegate, available);
    let roles = if delegate.roles_root is Some {
        available
    } else {
        Seq::empty()
    };
    assert(spec.description =~= DELEGATE_PURPOSE@ + " The subagent runs on the `"@
        + delegate.subagent_model + "` model."@ + DELEGATE_MODES@ + (
    if delegate.persist_root is Some {
        DELEGATE_RESUME@
    } else {
        Seq::empty()
    }) + (if roles.len() > 0 {
        DELEGATE_ROLES@ + joined(roles, ", "@) + DELEGATE_LABELS@
    } else {
        Seq::empty()
    }));
    reveal_strlit("type");
    reveal_strlit("properties");
    reveal_strlit("required");
    assert("type"@.len() == 4 && "properties"@.len() == 10 && "required"@.len() == 8);
    let fields = delegate_schema(roles);
    assert(fields[0].0 == "type"@ && fields[1].0 == "properties"@ && fields[2].0 == "required"@);
    crate::json::fields_are_found_by_name(fields, "type"@, 0);
    crate::json::fields_are_found_by_name(fields, "properties"@, 1);
    crate::json::fields_are_found_by_name(fields, "required"@, 2);
    let names = seq!["workspace"@, "task"@];
    assert(strings_json(names)->Array_0 =~= seq![
        JsonView::Str("workspace"@),
        JsonView::Str("task"@),
    ]);
    let given = delegate_properties(roles);
    assert forall|i: int| 0 <= i < given.len() implies {
        let name = (#[trigger] given[i]).0;
        name == "task"@ || name == "role"@ || name == "label"@ || name == "background"@ || name
            == "resume"@ || name == "workspace"@
    } by {}
}

} // verus!
