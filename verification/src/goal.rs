//! The session goal: immutable snapshots that change by compare-and-set.
use vstd::prelude::*;

use crate::json::{
    get, plain, pretty_text, pretty_text_of, put, readable, reads_as, Json, JsonView, NumberView,
    READABLE_DEPTH,
};
use crate::text::{
    clean, cleaned, decimal, decimal_text, join, joined, preview, previewed, same_text, trim,
    trimmed,
};

verus! {

/// Lifecycle status of the session's current goal.
#[derive(Clone, Copy, Debug, PartialEq, Eq, Structural)]
pub enum GoalStatus {
    Active,
    Paused,
    Blocked,
    Completed,
}

/// The lower-case name of a status.
pub open spec fn status_label(status: GoalStatus) -> Seq<char> {
    match status {
        GoalStatus::Active => "active"@,
        GoalStatus::Paused => "paused"@,
        GoalStatus::Blocked => "blocked"@,
        GoalStatus::Completed => "completed"@,
    }
}

impl GoalStatus {
    /// The lower-case name of the status.
    pub fn label(self) -> (r: &'static str)
        ensures
            r@ == status_label(self),
    {
        match self {
            GoalStatus::Active => "active",
            GoalStatus::Paused => "paused",
            GoalStatus::Blocked => "blocked",
            GoalStatus::Completed => "completed",
        }
    }
}

/// Immutable goal snapshot. Every change makes a new snapshot with a higher
/// `revision`; writers name the `id` and `revision` that they read.
#[derive(Debug, PartialEq, Eq)]
pub struct GoalSnapshot {
    pub id: String,
    pub revision: u64,
    pub objective: String,
    pub success_criteria: Vec<String>,
    pub status: GoalStatus,
    pub progress: String,
    /// Completion evidence, kept after completion.
    pub evidence: Vec<String>,
    pub blocked_reason: Option<String>,
}

/// Model of a [`GoalSnapshot`].
#[verifier::ext_equal]
pub struct GoalView {
    pub id: Seq<char>,
    pub revision: u64,
    pub objective: Seq<char>,
    pub success_criteria: Seq<Seq<char>>,
    pub status: GoalStatus,
    pub progress: Seq<char>,
    pub evidence: Seq<Seq<char>>,
    pub blocked_reason: Option<Seq<char>>,
}

impl DeepView for GoalSnapshot {
    type V = GoalView;

    open spec fn deep_view(&self) -> GoalView {
        GoalView {
            id: self.id@,
            revision: self.revision,
            objective: self.objective@,
            success_criteria: self.success_criteria.deep_view(),
            status: self.status,
            progress: self.progress@,
            evidence: self.evidence.deep_view(),
            blocked_reason: self.blocked_reason.deep_view(),
        }
    }
}

impl Clone for GoalSnapshot {
    fn clone(&self) -> (r: Self)
        ensures
            r.deep_view() == self.deep_view(),
    {
        let success_criteria = self.success_criteria.clone();
        assert(success_criteria.deep_view() =~= self.success_criteria.deep_view());
        let evidence = self.evidence.clone();
        assert(evidence.deep_view() =~= self.evidence.deep_view());
        GoalSnapshot {
            id: self.id.clone(),
            revision: self.revision,
            objective: self.objective.clone(),
            success_criteria,
            status: self.status,
            progress: self.progress.clone(),
            evidence,
            blocked_reason: self.blocked_reason.clone(),
        }
    }
}

/// One goal transition.
#[derive(Debug, PartialEq, Eq)]
pub enum GoalAction {
    Progress { progress: String },
    Pause,
    Resume,
    Block { reason: String },
    /// Requires evidence in the same update.
    Complete,
    /// Leaves the session without a goal.
    Clear,
}

/// Model of a [`GoalAction`].
pub enum ActionView {
    Progress { progress: Seq<char> },
    Pause,
    Resume,
    Block { reason: Seq<char> },
    Complete,
    Clear,
}

impl DeepView for GoalAction {
    type V = ActionView;

    open spec fn deep_view(&self) -> ActionView {
        match self {
            GoalAction::Progress { progress } => ActionView::Progress { progress: progress@ },
            GoalAction::Pause => ActionView::Pause,
            GoalAction::Resume => ActionView::Resume,
            GoalAction::Block { reason } => ActionView::Block { reason: reason@ },
            GoalAction::Complete => ActionView::Complete,
            GoalAction::Clear => ActionView::Clear,
        }
    }
}

/// The refusal of a new goal while another one is open.
pub open spec fn still_open_error(goal: GoalView) -> Seq<char> {
    "cannot create a new goal while `"@ + goal.id + "` is still "@ + status_label(goal.status)
        + ": complete or clear it first"@
}

/// The outcome of creating a goal: refused while a goal is open or when the
/// objective is blank, otherwise the first revision of an active goal.
pub open spec fn created(
    current: Option<GoalView>,
    id: Seq<char>,
    objective: Seq<char>,
    success_criteria: Seq<Seq<char>>,
) -> Result<GoalView, Seq<char>> {
    if current matches Some(goal) && goal.status != GoalStatus::Completed {
        Err(still_open_error(current->0))
    } else if trimmed(objective).len() == 0 {
        Err("goal objective must not be empty"@)
    } else {
        Ok(
            GoalView {
                id,
                revision: 1,
                objective: trimmed(objective),
                success_criteria: cleaned(success_criteria),
                status: GoalStatus::Active,
                progress: Seq::empty(),
                evidence: Seq::empty(),
                blocked_reason: None,
            },
        )
    }
}

/// A result over snapshots, seen through their models.
pub open spec fn goal_result(r: Result<GoalSnapshot, String>) -> Result<GoalView, Seq<char>> {
    match r {
        Ok(goal) => Ok(goal.deep_view()),
        Err(error) => Err(error@),
    }
}

/// Create the first revision of a goal under the fresh id `id`. Allowed only
/// with no current goal or a completed one.
pub fn create_goal(
    current: Option<&GoalSnapshot>,
    id: String,
    objective: String,
    success_criteria: Vec<String>,
) -> (r: Result<GoalSnapshot, String>)
    ensures
        goal_result(r) == created(
            current.deep_view(),
            id@,
            objective@,
            success_criteria.deep_view(),
        ),
{
    if let Some(goal) = current {
        if goal.status != GoalStatus::Completed {
            let mut error = String::new();
            error.push_str("cannot create a new goal while `");
            error.push_str(goal.id.as_str());
            error.push_str("` is still ");
            error.push_str(goal.status.label());
            error.push_str(": complete or clear it first");
            assert(error@ =~= still_open_error(goal.deep_view()));
            return Err(error);
        }
    }
    let objective = trim(objective.as_str());
    if objective.as_str().is_empty() {
        return Err("goal objective must not be empty".to_owned());
    }
    let goal = GoalSnapshot {
        id,
        revision: 1,
        objective,
        success_criteria: clean(&success_criteria),
        status: GoalStatus::Active,
        progress: String::new(),
        evidence: Vec::new(),
        blocked_reason: None,
    };
    assert(goal.deep_view().evidence =~= Seq::empty());
    Ok(goal)
}

/// The refusal of an update that names another goal.
pub open spec fn id_error(goal: GoalView, id: Seq<char>) -> Seq<char> {
    "goal id mismatch: current goal is `"@ + goal.id + "`, caller supplied `"@ + id + "`"@
}

/// The refusal of an update that names another revision.
pub open spec fn revision_error(goal: GoalView, revision: u64) -> Seq<char> {
    "goal revision mismatch: current revision is "@ + decimal(goal.revision as nat)
        + ", caller supplied "@ + decimal(revision as nat)
        + " (concurrent update? re-read with get_goal)"@
}

/// A goal with its criteria replaced, if new ones are given, and this update's
/// evidence appended.
pub open spec fn amended(
    goal: GoalView,
    criteria: Option<Seq<Seq<char>>>,
    evidence: Seq<Seq<char>>,
) -> GoalView {
    GoalView {
        success_criteria: match criteria {
            Some(criteria) => cleaned(criteria),
            None => goal.success_criteria,
        },
        evidence: goal.evidence + cleaned(evidence),
        ..goal
    }
}

/// What an action makes of an amended goal, before its revision is counted up:
/// the goal, nothing (it is cleared), or a refusal. `fresh` says whether this
/// update brings evidence of its own.
pub open spec fn acted(goal: GoalView, action: ActionView, fresh: bool) -> Result<
    Option<GoalView>,
    Seq<char>,
> {
    match action {
        ActionView::Progress { progress } => if goal.status == GoalStatus::Completed {
            Err("cannot update progress: goal is already completed"@)
        } else if trimmed(progress).len() == 0 {
            Err("`progress` must not be empty"@)
        } else {
            Ok(Some(GoalView { progress: trimmed(progress), ..goal }))
        },
        ActionView::Pause => if goal.status != GoalStatus::Active {
            Err("cannot pause a goal that is not active"@)
        } else {
            Ok(Some(GoalView { status: GoalStatus::Paused, ..goal }))
        },
        ActionView::Resume => if goal.status != GoalStatus::Paused && goal.status
            != GoalStatus::Blocked {
            Err("cannot resume a goal that is not paused or blocked"@)
        } else {
            Ok(Some(GoalView { status: GoalStatus::Active, blocked_reason: None, ..goal }))
        },
        ActionView::Block { reason } => if goal.status == GoalStatus::Completed {
            Err("cannot block a completed goal"@)
        } else if trimmed(reason).len() == 0 {
            Err("`blocked_reason` must not be empty"@)
        } else {
            Ok(
                Some(
                    GoalView {
                        status: GoalStatus::Blocked,
                        blocked_reason: Some(trimmed(reason)),
                        ..goal
                    },
                ),
            )
        },
        ActionView::Complete => if goal.status == GoalStatus::Completed {
            Err("goal is already completed"@)
        } else if !fresh {
            Err(
                "cannot complete a goal without evidence in this update: pass non-empty `evidence` with the complete call (e.g. an explicit `unverified: <analysis>` string for pure analysis)"@,
            )
        } else {
            Ok(Some(GoalView { status: GoalStatus::Completed, blocked_reason: None, ..goal }))
        },
        ActionView::Clear => Ok(None),
    }
}

/// The outcome of a whole update: refused without a goal or when the caller
/// names another id or revision, otherwise what the action makes of the amended
/// goal, with the revision counted up.
pub open spec fn transitioned(
    current: Option<GoalView>,
    id: Seq<char>,
    revision: u64,
    action: ActionView,
    criteria: Option<Seq<Seq<char>>>,
    evidence: Seq<Seq<char>>,
) -> Result<Option<GoalView>, Seq<char>> {
    match current {
        None => Err("no goal is set for this session"@),
        Some(goal) => if goal.id != id {
            Err(id_error(goal, id))
        } else if goal.revision != revision {
            Err(revision_error(goal, revision))
        } else {
            match acted(amended(goal, criteria, evidence), action, cleaned(evidence).len() > 0) {
                Ok(Some(next)) => Ok(
                    Some(GoalView { revision: (goal.revision + 1) as u64, ..next }),
                ),
                other => other,
            }
        },
    }
}

/// A result over optional snapshots, seen through their models.
pub open spec fn transition_result(r: Result<Option<GoalSnapshot>, String>) -> Result<
    Option<GoalView>,
    Seq<char>,
> {
    match r {
        Ok(goal) => Ok(goal.deep_view()),
        Err(error) => Err(error@),
    }
}

/// Apply one action to the goal that `id` and `revision` name; `Ok(None)` means
/// that the goal is cleared. A revision at the top of its range cannot be
/// counted up.
pub fn transition_goal(
    current: Option<&GoalSnapshot>,
    id: &str,
    revision: u64,
    action: &GoalAction,
    success_criteria: Option<Vec<String>>,
    evidence: Vec<String>,
) -> (r: Result<Option<GoalSnapshot>, String>)
    requires
        transitioned(
            current.deep_view(),
            id@,
            revision,
            action.deep_view(),
            success_criteria.deep_view(),
            evidence.deep_view(),
        ) matches Ok(Some(_)) ==> revision < u64::MAX,
    ensures
        transition_result(r) == transitioned(
            current.deep_view(),
            id@,
            revision,
            action.deep_view(),
            success_criteria.deep_view(),
            evidence.deep_view(),
        ),
{
    let goal = match current {
        Some(goal) => goal,
        None => return Err("no goal is set for this session".to_owned()),
    };
    if !same_text(goal.id.as_str(), id) {
        let mut error = String::new();
        error.push_str("goal id mismatch: current goal is `");
        error.push_str(goal.id.as_str());
        error.push_str("`, caller supplied `");
        error.push_str(id);
        error.push_str("`");
        assert(error@ =~= id_error(goal.deep_view(), id@));
        return Err(error);
    }
    if goal.revision != revision {
        let mut error = String::new();
        error.push_str("goal revision mismatch: current revision is ");
        error.push_str(decimal_text(goal.revision).as_str());
        error.push_str(", caller supplied ");
        error.push_str(decimal_text(revision).as_str());
        error.push_str(" (concurrent update? re-read with get_goal)");
        assert(error@ =~= revision_error(goal.deep_view(), revision));
        return Err(error);
    }
    let mut next = goal.clone();
    if let Some(criteria) = &success_criteria {
        next.success_criteria = clean(criteria);
    }
    let mut fresh = clean(&evidence);
    let has_fresh: bool = fresh.len() > 0;
    let ghost added = fresh.deep_view();
    let ghost known = next.evidence.deep_view();
    next.evidence.append(&mut fresh);
    assert(next.evidence.deep_view() =~= known + added);
    let ghost base = amended(goal.deep_view(), success_criteria.deep_view(), evidence.deep_view());
    assert(next.deep_view() =~= base);
    match action {
        GoalAction::Progress { progress } => {
            if next.status == GoalStatus::Completed {
                return Err("cannot update progress: goal is already completed".to_owned());
            }
            let progress = trim(progress.as_str());
            if progress.as_str().is_empty() {
                return Err("`progress` must not be empty".to_owned());
            }
            next.progress = progress;
        },
        GoalAction::Pause => {
            if next.status != GoalStatus::Active {
                return Err("cannot pause a goal that is not active".to_owned());
            }
            next.status = GoalStatus::Paused;
        },
        GoalAction::Resume => {
            if next.status != GoalStatus::Paused && next.status != GoalStatus::Blocked {
                return Err("cannot resume a goal that is not paused or blocked".to_owned());
            }
            next.status = GoalStatus::Active;
            next.blocked_reason = None;
        },
        GoalAction::Block { reason } => {
            if next.status == GoalStatus::Completed {
                return Err("cannot block a completed goal".to_owned());
            }
            let reason = trim(reason.as_str());
            if reason.as_str().is_empty() {
                return Err("`blocked_reason` must not be empty".to_owned());
            }
            next.status = GoalStatus::Blocked;
            next.blocked_reason = Some(reason);
        },
        GoalAction::Complete => {
            if next.status == GoalStatus::Completed {
                return Err("goal is already completed".to_owned());
            }
            if !has_fresh {
                return Err(
                    "cannot complete a goal without evidence in this update: pass non-empty `evidence` with the complete call (e.g. an explicit `unverified: <analysis>` string for pure analysis)".to_owned(),
                );
            }
            next.status = GoalStatus::Completed;
            next.blocked_reason = None;
        },
        GoalAction::Clear => return Ok(None),
    }
    next.revision = next.revision + 1;
    Ok(Some(next))
}

/// Width of the goal's projection into the provider context.
pub const PROJECTION_LIMIT: usize = 400;

/// The first three items, each cut to `width`, separated by semicolons.
pub open spec fn first_items(items: Seq<Seq<char>>, width: nat) -> Seq<char> {
    let shown = items.take(if items.len() < 3 { items.len() as int } else { 3 });
    joined(shown.map_values(|item: Seq<char>| previewed(item, width)), "; "@)
}

/// The lines of the projection that every goal has.
pub open spec fn projection_head(goal: GoalView) -> Seq<char> {
    let criteria = if goal.success_criteria.len() == 0 {
        "-"@
    } else {
        first_items(goal.success_criteria, 80)
    };
    "id "@ + goal.id + " | "@ + status_label(goal.status) + " | "@ + previewed(goal.objective, 120)
        + "\ncriteria: "@ + criteria
}

/// The line of the projection on the progress, where there is some.
pub open spec fn progress_line(goal: GoalView) -> Seq<char> {
    if goal.progress.len() == 0 {
        Seq::empty()
    } else {
        "\nprogress: "@ + previewed(goal.progress, 120)
    }
}

/// The line of the projection on what blocks the goal, where something does.
pub open spec fn blocked_line(goal: GoalView) -> Seq<char> {
    match goal.blocked_reason {
        Some(reason) => "\nblocked: "@ + previewed(reason, 120),
        None => Seq::empty(),
    }
}

/// The line of the projection on the evidence of a completed goal.
pub open spec fn evidence_line(goal: GoalView) -> Seq<char> {
    if goal.status == GoalStatus::Completed && goal.evidence.len() > 0 {
        "\nevidence: "@ + first_items(goal.evidence, 60)
    } else {
        Seq::empty()
    }
}

/// The projection before it is cut to its limit.
pub open spec fn projection_lines(goal: GoalView) -> Seq<char> {
    projection_head(goal) + progress_line(goal) + blocked_line(goal) + evidence_line(goal)
}

/// What the provider context says of a goal.
pub open spec fn projection(goal: GoalView) -> Seq<char> {
    previewed(projection_lines(goal), PROJECTION_LIMIT as nat)
}

/// The first three items, each cut to `width`, separated by semicolons.
fn first_items_text(items: &Vec<String>, width: usize) -> (r: String)
    ensures
        r@ == first_items(items.deep_view(), width as nat),
{
    let count: usize = if items.len() < 3 {
        items.len()
    } else {
        3
    };
    let mut shown: Vec<String> = Vec::new();
    let mut i: usize = 0;
    while i < count
        invariant
            i <= count <= items.len(),
            shown@.len() == i,
            forall|j: int|
                0 <= j < i ==> (#[trigger] shown@[j])@ == previewed(items@[j]@, width as nat),
        decreases count - i,
    {
        shown.push(preview(items[i].as_str(), width));
        i += 1;
    }
    assert(shown.deep_view() =~= items.deep_view().take(count as int).map_values(
        |item: Seq<char>| previewed(item, width as nat),
    ));
    join(&shown, "; ")
}

/// The lines of the projection that every goal has.
fn head_text(goal: &GoalSnapshot) -> (r: String)
    ensures
        r@ == projection_head(goal.deep_view()),
{
    let mut text = "id ".to_owned();
    text.push_str(goal.id.as_str());
    text.push_str(" | ");
    text.push_str(goal.status.label());
    text.push_str(" | ");
    text.push_str(preview(goal.objective.as_str(), 120).as_str());
    text.push_str("\ncriteria: ");
    if goal.success_criteria.len() == 0 {
        text.push_str("-");
    } else {
        text.push_str(first_items_text(&goal.success_criteria, 80).as_str());
    }
    text
}

/// The lines of the projection that only some goals have.
fn detail_text(goal: &GoalSnapshot) -> (r: String)
    ensures
        r@ == progress_line(goal.deep_view()) + blocked_line(goal.deep_view()) + evidence_line(
            goal.deep_view(),
        ),
{
    let mut text = String::new();
    if !goal.progress.as_str().is_empty() {
        text.push_str("\nprogress: ");
        text.push_str(preview(goal.progress.as_str(), 120).as_str());
    }
    assert(text@ =~= progress_line(goal.deep_view()));
    if let Some(reason) = &goal.blocked_reason {
        let mut line = "\nblocked: ".to_owned();
        line.push_str(preview(reason.as_str(), 120).as_str());
        text.push_str(line.as_str());
    }
    assert(text@ =~= progress_line(goal.deep_view()) + blocked_line(goal.deep_view()));
    if goal.status == GoalStatus::Completed && goal.evidence.len() > 0 {
        let mut line = "\nevidence: ".to_owned();
        line.push_str(first_items_text(&goal.evidence, 60).as_str());
        text.push_str(line.as_str());
    }
    text
}

/// Short provider-context projection of a goal, cut to [`PROJECTION_LIMIT`]
/// characters.
pub fn goal_projection_text(goal: &GoalSnapshot) -> (r: String)
    ensures
        r@ == projection(goal.deep_view()),
{
    let mut text = head_text(goal);
    text.push_str(detail_text(goal).as_str());
    assert(text@ =~= projection_lines(goal.deep_view()));
    preview(text.as_str(), PROJECTION_LIMIT)
}

/// A list of texts as a JSON array.
pub open spec fn texts_json(items: Seq<Seq<char>>) -> JsonView {
    JsonView::Array(items.map_values(|item: Seq<char>| JsonView::Str(item)))
}

/// An optional text as JSON.
pub open spec fn opt_text_json(text: Option<Seq<char>>) -> JsonView {
    match text {
        Some(text) => JsonView::Str(text),
        None => JsonView::Null,
    }
}

/// The complete snapshot as a JSON object.
pub open spec fn goal_json_view(goal: GoalView) -> JsonView {
    JsonView::Object(
        seq![
            ("id"@, JsonView::Str(goal.id)),
            ("revision"@, JsonView::Number(NumberView::Unsigned(goal.revision))),
            ("objective"@, JsonView::Str(goal.objective)),
            ("success_criteria"@, texts_json(goal.success_criteria)),
            ("status"@, JsonView::Str(status_label(goal.status))),
            ("progress"@, JsonView::Str(goal.progress)),
            ("evidence"@, texts_json(goal.evidence)),
            ("blocked_reason"@, opt_text_json(goal.blocked_reason)),
        ],
    )
}

/// A list of texts as a JSON array.
pub fn texts_to_json(items: &Vec<String>) -> (r: Json)
    ensures
        r.deep_view() == texts_json(items.deep_view()),
{
    let mut out: Vec<Json> = Vec::new();
    let mut i: usize = 0;
    while i < items.len()
        invariant
            i <= items.len(),
            out@.len() == i,
            forall|j: int|
                0 <= j < i ==> (#[trigger] out@[j]).deep_view() == JsonView::Str(items@[j]@),
        decreases items.len() - i,
    {
        out.push(Json::string(items[i].as_str()));
        i += 1;
    }
    assert(out.deep_view() =~= texts_json(items.deep_view())->Array_0);
    Json::array(out)
}

/// The complete snapshot as a JSON object.
pub fn goal_to_json(goal: &GoalSnapshot) -> (r: Json)
    ensures
        r.deep_view() == goal_json_view(goal.deep_view()),
{
    let mut fields: Vec<(String, Json)> = Vec::new();
    put(&mut fields, "id", Json::string(goal.id.as_str()));
    put(&mut fields, "revision", Json::unsigned(goal.revision));
    put(&mut fields, "objective", Json::string(goal.objective.as_str()));
    put(&mut fields, "success_criteria", texts_to_json(&goal.success_criteria));
    put(&mut fields, "status", Json::string(goal.status.label()));
    put(&mut fields, "progress", Json::string(goal.progress.as_str()));
    put(&mut fields, "evidence", texts_to_json(&goal.evidence));
    let reason = match &goal.blocked_reason {
        Some(reason) => Json::string(reason.as_str()),
        None => Json::Null,
    };
    put(&mut fields, "blocked_reason", reason);
    assert(fields.deep_view() =~= goal_json_view(goal.deep_view())->Object_0);
    Json::object(fields)
}

proof fn lemma_goal_json_is_plain(goal: GoalView)
    ensures
        plain(goal_json_view(goal)),
        readable(goal_json_view(goal), READABLE_DEPTH as nat),
{
    reveal_with_fuel(plain, 3);
    reveal_with_fuel(readable, 3);
    reveal_strlit("id");
    reveal_strlit("revision");
    reveal_strlit("objective");
    reveal_strlit("success_criteria");
    reveal_strlit("status");
    reveal_strlit("progress");
    reveal_strlit("evidence");
    reveal_strlit("blocked_reason");
    let fields = goal_json_view(goal)->Object_0;
    assert forall|i: int| 0 <= i < fields.len() implies plain((#[trigger] fields[i]).1) by {
        if i == 3 {
            assert(plain(texts_json(goal.success_criteria)));
            assert(readable(texts_json(goal.success_criteria), (READABLE_DEPTH - 1) as nat));
        }
        if i == 6 {
            assert(plain(texts_json(goal.evidence)));
            assert(readable(texts_json(goal.evidence), (READABLE_DEPTH - 1) as nat));
        }
    }
    assert("status"@[0] != "progress"@[0]);
    assert("progress"@[0] == 'p');
    assert("evidence"@[0] == 'e');
    assert("id"@[0] == 'i');
    assert("revision"@[0] == 'r');
    assert("objective"@[0] == 'o');
    assert("blocked_reason"@[0] == 'b');
    assert("success_criteria"@.len() == 16 && "status"@.len() == 6);
}

/// Complete machine-usable snapshot as pretty JSON: every field that an update
/// needs to name. Reading it gives the complete snapshot back.
pub fn goal_snapshot_json(goal: &GoalSnapshot) -> (r: String)
    ensures
        r@ == pretty_text_of(goal_json_view(goal.deep_view())),
        reads_as(r@, goal_json_view(goal.deep_view())),
{
    let json = goal_to_json(goal);
    proof {
        lemma_goal_json_is_plain(goal.deep_view());
    }
    match pretty_text(&json) {
        Some(text) => text,
        None => goal_projection_text(goal),
    }
}

/// The projection of a goal never has more than [`PROJECTION_LIMIT`] characters.
pub proof fn projection_is_bounded(goal: GoalView)
    ensures
        projection(goal).len() <= PROJECTION_LIMIT,
{
}

/// Every accepted update that keeps a goal keeps its id, its objective and all
/// earlier evidence, and counts its revision up by one.
pub proof fn updates_keep_identity(
    goal: GoalView,
    id: Seq<char>,
    revision: u64,
    action: ActionView,
    criteria: Option<Seq<Seq<char>>>,
    evidence: Seq<Seq<char>>,
)
    requires
        transitioned(Some(goal), id, revision, action, criteria, evidence) matches Ok(Some(_)),
        revision < u64::MAX,
    ensures
        transitioned(Some(goal), id, revision, action, criteria, evidence) matches Ok(Some(next))
            && next.id == goal.id && next.objective == goal.objective && next.revision
            == goal.revision + 1 && goal.evidence.is_prefix_of(next.evidence),
{
    let next = transitioned(Some(goal), id, revision, action, criteria, evidence)->Ok_0->0;
    assert(next.evidence == goal.evidence + cleaned(evidence));
    assert((goal.evidence + cleaned(evidence)).take(goal.evidence.len() as int) =~= goal.evidence);
}

/// A second update that names the revision of an accepted first one is refused:
/// of two concurrent writers one wins.
pub proof fn stale_updates_are_refused(
    goal: GoalView,
    revision: u64,
    first: ActionView,
    first_criteria: Option<Seq<Seq<char>>>,
    first_evidence: Seq<Seq<char>>,
    second: ActionView,
    second_criteria: Option<Seq<Seq<char>>>,
    second_evidence: Seq<Seq<char>>,
)
    requires
        transitioned(Some(goal), goal.id, revision, first, first_criteria, first_evidence) matches Ok(
            Some(_),
        ),
        revision < u64::MAX,
    ensures
        ({
            let next = transitioned(
                Some(goal),
                goal.id,
                revision,
                first,
                first_criteria,
                first_evidence,
            )->Ok_0;
            transitioned(
                next,
                goal.id,
                revision,
                second,
                second_criteria,
                second_evidence,
            ) matches Err(_)
        }),
{
}

/// A goal becomes completed only by an update that itself brings evidence,
/// whatever evidence had been gathered before.
pub proof fn completion_needs_fresh_evidence(
    goal: GoalView,
    id: Seq<char>,
    revision: u64,
    action: ActionView,
    criteria: Option<Seq<Seq<char>>>,
    evidence: Seq<Seq<char>>,
)
    requires
        goal.status != GoalStatus::Completed,
        transitioned(Some(goal), id, revision, action, criteria, evidence) matches Ok(Some(next))
            && next.status == GoalStatus::Completed,
    ensures
        action is Complete,
        cleaned(evidence).len() > 0,
{
}

/// A completed goal stays as it is: the only update that it accepts clears it.
pub proof fn completed_goals_only_clear(
    goal: GoalView,
    id: Seq<char>,
    revision: u64,
    action: ActionView,
    criteria: Option<Seq<Seq<char>>>,
    evidence: Seq<Seq<char>>,
)
    requires
        goal.status == GoalStatus::Completed,
        transitioned(Some(goal), id, revision, action, criteria, evidence) is Ok,
    ensures
        action is Clear,
        transitioned(Some(goal), id, revision, action, criteria, evidence) == Ok::<
            Option<GoalView>,
            Seq<char>,
        >(None),
{
}

/// A goal carries a blocked reason exactly while it is blocked.
pub open spec fn reason_matches_status(goal: GoalView) -> bool {
    goal.blocked_reason is Some <==> goal.status == GoalStatus::Blocked
}

/// A new goal carries no blocked reason, and every accepted update keeps it so
/// that a goal carries one exactly while it is blocked.
pub proof fn blocked_reason_follows_status(
    current: Option<GoalView>,
    goal: GoalView,
    id: Seq<char>,
    objective: Seq<char>,
    revision: u64,
    action: ActionView,
    criteria: Seq<Seq<char>>,
    new_criteria: Option<Seq<Seq<char>>>,
    evidence: Seq<Seq<char>>,
)
    requires
        reason_matches_status(goal),
    ensures
        created(current, id, objective, criteria) matches Ok(first) ==> reason_matches_status(
            first,
        ),
        transitioned(Some(goal), id, revision, action, new_criteria, evidence) matches Ok(
            Some(next),
        ) ==> reason_matches_status(next),
{
}

/// A goal is created exactly where none is open and the objective says something:
/// under the given id, at revision 1, active, with the objective and the criteria
/// as they were given but for white space and blanks, and with nothing else yet.
pub proof fn goals_are_created_as_given(
    current: Option<GoalView>,
    id: Seq<char>,
    objective: Seq<char>,
    criteria: Seq<Seq<char>>,
)
    ensures
        created(current, id, objective, criteria) is Ok <==> (current is None || (current->0).status
            == GoalStatus::Completed) && trimmed(objective).len() > 0,
        created(current, id, objective, criteria) matches Ok(goal) ==> {
            &&& goal.id == id
            &&& goal.revision == 1
            &&& goal.objective == trimmed(objective)
            &&& goal.success_criteria == cleaned(criteria)
            &&& goal.status == GoalStatus::Active
            &&& goal.progress.len() == 0 && goal.evidence.len() == 0 && goal.blocked_reason is None
        },
{
}

/// An update of the goal and revision that it names does what its action says and
/// nothing else: each action is open to goals of the right status, with words where
/// it needs words; it sets the status, the progress or the reason that are its
/// business; new criteria replace the old ones, and new evidence follows the old.
pub proof fn updates_do_what_they_say(
    goal: GoalView,
    action: ActionView,
    criteria: Option<Seq<Seq<char>>>,
    evidence: Seq<Seq<char>>,
)
    requires
        goal.revision < u64::MAX,
    ensures
        ({
            let after = transitioned(
                Some(goal),
                goal.id,
                goal.revision,
                action,
                criteria,
                evidence,
            );
            let open = goal.status != GoalStatus::Completed;
            &&& after is Ok <==> match action {
                ActionView::Progress { progress } => open && trimmed(progress).len() > 0,
                ActionView::Pause => goal.status == GoalStatus::Active,
                ActionView::Resume => goal.status == GoalStatus::Paused || goal.status
                    == GoalStatus::Blocked,
                ActionView::Block { reason } => open && trimmed(reason).len() > 0,
                ActionView::Complete => open && cleaned(evidence).len() > 0,
                ActionView::Clear => true,
            }
            &&& after matches Ok(next) ==> (next is None <==> action is Clear)
            &&& after matches Ok(Some(next)) ==> {
                &&& next.id == goal.id && next.objective == goal.objective
                &&& next.revision == goal.revision + 1
                &&& next.success_criteria == match criteria {
                    Some(given) => cleaned(given),
                    None => goal.success_criteria,
                }
                &&& next.evidence == goal.evidence + cleaned(evidence)
                &&& next.status == match action {
                    ActionView::Progress { .. } => goal.status,
                    ActionView::Pause => GoalStatus::Paused,
                    ActionView::Resume => GoalStatus::Active,
                    ActionView::Block { .. } => GoalStatus::Blocked,
                    _ => GoalStatus::Completed,
                }
                &&& next.progress == match action {
                    ActionView::Progress { progress } => trimmed(progress),
                    _ => goal.progress,
                }
                &&& next.blocked_reason == match action {
                    ActionView::Block { reason } => Some(trimmed(reason)),
                    ActionView::Resume | ActionView::Complete => None,
                    _ => goal.blocked_reason,
                }
            }
        }),
{
}

/// An update without a goal, of another goal or of another revision is refused,
/// with what is the matter.
pub proof fn updates_name_goal_and_revision(
    goal: GoalView,
    id: Seq<char>,
    revision: u64,
    action: ActionView,
    criteria: Option<Seq<Seq<char>>>,
    evidence: Seq<Seq<char>>,
)
    ensures
        transitioned(None, id, revision, action, criteria, evidence) == Err::<
            Option<GoalView>,
            Seq<char>,
        >("no goal is set for this session"@),
        id != goal.id ==> transitioned(Some(goal), id, revision, action, criteria, evidence) == Err::<
            Option<GoalView>,
            Seq<char>,
        >("goal id mismatch: current goal is `"@ + goal.id + "`, caller supplied `"@ + id + "`"@),
        id == goal.id && revision != goal.revision ==> transitioned(
            Some(goal),
            id,
            revision,
            action,
            criteria,
            evidence,
        ) == Err::<Option<GoalView>, Seq<char>>(
            "goal revision mismatch: current revision is "@ + decimal(goal.revision as nat)
                + ", caller supplied "@ + decimal(revision as nat)
                + " (concurrent update? re-read with get_goal)"@,
        ),
{
}

/// What the model is told of a goal: its id, status and objective, the first
/// criteria, and, where there are any, the progress, the reason that blocks it and
/// the evidence of its completion, each cut to its width and all to the limit.
pub proof fn projections_tell_of_the_goal(goal: GoalView)
    ensures
        ({
            let status = match goal.status {
                GoalStatus::Active => "active"@,
                GoalStatus::Paused => "paused"@,
                GoalStatus::Blocked => "blocked"@,
                GoalStatus::Completed => "completed"@,
            };
            let few = |items: Seq<Seq<char>>, width: nat|
                {
                    let shown = items.take(
                        if items.len() < 3 {
                            items.len() as int
                        } else {
                            3
                        },
                    );
                    joined(shown.map_values(|item: Seq<char>| previewed(item, width)), "; "@)
                };
            let criteria = if goal.success_criteria.len() == 0 {
                "-"@
            } else {
                few(goal.success_criteria, 80)
            };
            let progress = if goal.progress.len() == 0 {
                Seq::empty()
            } else {
                "\nprogress: "@ + previewed(goal.progress, 120)
            };
            let blocked = match goal.blocked_reason {
                Some(reason) => "\nblocked: "@ + previewed(reason, 120),
                None => Seq::empty(),
            };
            let evidence = if goal.status == GoalStatus::Completed && goal.evidence.len() > 0 {
                "\nevidence: "@ + few(goal.evidence, 60)
            } else {
                Seq::empty()
            };
            projection(goal) == previewed(
                "id "@ + goal.id + " | "@ + status + " | "@ + previewed(goal.objective, 120)
                    + "\ncriteria: "@ + criteria + progress + blocked + evidence,
                400,
            )
        }),
{
}

/// A goal is written out whole: each of its parts under its own name.
pub proof fn goals_are_written_whole(goal: GoalView)
    ensures
        ({
            let json = goal_json_view(goal);
            let texts = |items: Seq<Seq<char>>|
                JsonView::Array(items.map_values(|item: Seq<char>| JsonView::Str(item)));
            &&& get(json, "id"@) == Some(JsonView::Str(goal.id))
            &&& get(json, "revision"@) == Some(
                JsonView::Number(NumberView::Unsigned(goal.revision)),
            )
            &&& get(json, "objective"@) == Some(JsonView::Str(goal.objective))
            &&& get(json, "success_criteria"@) == Some(texts(goal.success_criteria))
            &&& get(json, "status"@) == Some(
                JsonView::Str(
                    match goal.status {
                        GoalStatus::Active => "active"@,
                        GoalStatus::Paused => "paused"@,
                        GoalStatus::Blocked => "blocked"@,
                        GoalStatus::Completed => "completed"@,
                    },
                ),
            )
            &&& get(json, "progress"@) == Some(JsonView::Str(goal.progress))
            &&& get(json, "evidence"@) == Some(texts(goal.evidence))
            &&& get(json, "blocked_reason"@) == Some(
                match goal.blocked_reason {
                    Some(reason) => JsonView::Str(reason),
                    None => JsonView::Null,
                },
            )
        }),
{
    reveal_strlit("id");
    reveal_strlit("revision");
    reveal_strlit("objective");
    reveal_strlit("success_criteria");
    reveal_strlit("status");
    reveal_strlit("progress");
    reveal_strlit("evidence");
    reveal_strlit("blocked_reason");
    assert("id"@.len() == 2 && "revision"@.len() == 8 && "objective"@.len() == 9
        && "success_criteria"@.len() == 16 && "status"@.len() == 6 && "progress"@.len() == 8
        && "evidence"@.len() == 8 && "blocked_reason"@.len() == 14);
    assert("revision"@[0] == 'r' && "progress"@[0] == 'p' && "evidence"@[0] == 'e');
    let fields = goal_json_view(goal)->Object_0;
    assert(fields[0].0 == "id"@ && fields[1].0 == "revision"@ && fields[2].0 == "objective"@
        && fields[3].0 == "success_criteria"@ && fields[4].0 == "status"@ && fields[5].0
        == "progress"@ && fields[6].0 == "evidence"@ && fields[7].0 == "blocked_reason"@);
    assert forall|at: int| 0 <= at < 8 implies get(
        JsonView::Object(fields),
        (#[trigger] fields[at]).0,
    ) == Some(fields[at].1) by {
        crate::json::fields_are_found_by_name(fields, fields[at].0, at);
    }
}

/// The model of a goal shows all that the goal holds.
pub proof fn goals_are_seen_whole(goal: GoalSnapshot)
    ensures
        goal.deep_view().id == goal.id@ && goal.deep_view().revision == goal.revision,
        goal.deep_view().objective == goal.objective@ && goal.deep_view().status == goal.status,
        goal.deep_view().success_criteria == goal.success_criteria.deep_view(),
        goal.deep_view().progress == goal.progress@,
        goal.deep_view().evidence == goal.evidence.deep_view(),
        goal.deep_view().blocked_reason == goal.blocked_reason.deep_view(),
{
}

} // verus!
