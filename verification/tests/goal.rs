use e_agent::agent::Agent;
use e_agent::entry::{fold_goal, SessionEntry};
use e_agent::goal::{
    create_goal, goal_projection_text, goal_snapshot_json, transition_goal, GoalAction,
    GoalSnapshot, GoalStatus, PROJECTION_LIMIT,
};
use e_agent::json::parse_json;

fn goal() -> GoalSnapshot {
    create_goal(
        None,
        "goal-1".into(),
        "  ship it ".into(),
        vec![" tests pass ".into(), "  ".into()],
    )
    .unwrap()
}

fn step(
    current: &GoalSnapshot,
    action: GoalAction,
    evidence: &[&str],
) -> Result<Option<GoalSnapshot>, String> {
    transition_goal(
        Some(current),
        &current.id,
        current.revision,
        &action,
        None,
        evidence.iter().map(|item| item.to_string()).collect(),
    )
}

#[test]
fn a_goal_starts_active_and_trimmed() {
    let goal = goal();
    assert_eq!(goal.id, "goal-1");
    assert_eq!(goal.revision, 1);
    assert_eq!(goal.objective, "ship it");
    assert_eq!(goal.success_criteria, vec!["tests pass".to_string()]);
    assert_eq!(goal.status, GoalStatus::Active);
    assert!(create_goal(None, "g".into(), "  ".into(), vec![])
        .unwrap_err()
        .contains("goal objective must not be empty"));
    assert_eq!(
        create_goal(Some(&goal), "g".into(), "next".into(), vec![]).unwrap_err(),
        "cannot create a new goal while `goal-1` is still active: complete or clear it first"
    );
}

#[test]
fn goals_move_through_their_states() {
    let goal = goal();
    let paused = step(&goal, GoalAction::Pause, &[]).unwrap().unwrap();
    assert_eq!(paused.status, GoalStatus::Paused);
    assert_eq!(paused.revision, 2);
    assert_eq!(
        step(&paused, GoalAction::Pause, &[]).unwrap_err(),
        "cannot pause a goal that is not active"
    );
    let resumed = step(&paused, GoalAction::Resume, &[]).unwrap().unwrap();
    assert_eq!(resumed.status, GoalStatus::Active);
    assert_eq!(
        step(&resumed, GoalAction::Resume, &[]).unwrap_err(),
        "cannot resume a goal that is not paused or blocked"
    );
    let blocked = step(
        &resumed,
        GoalAction::Block {
            reason: " no key ".into(),
        },
        &[],
    )
    .unwrap()
    .unwrap();
    assert_eq!(blocked.blocked_reason.as_deref(), Some("no key"));
    assert_eq!(
        step(&blocked, GoalAction::Block { reason: " ".into() }, &[]).unwrap_err(),
        "`blocked_reason` must not be empty"
    );
    let resumed = step(&blocked, GoalAction::Resume, &[]).unwrap().unwrap();
    assert_eq!(resumed.blocked_reason, None);
    let progressed = step(
        &resumed,
        GoalAction::Progress {
            progress: " half ".into(),
        },
        &["a"],
    )
    .unwrap()
    .unwrap();
    assert_eq!(progressed.progress, "half");
    assert_eq!(progressed.evidence, vec!["a".to_string()]);
    assert_eq!(
        step(
            &progressed,
            GoalAction::Progress {
                progress: "".into()
            },
            &[]
        )
        .unwrap_err(),
        "`progress` must not be empty"
    );
    assert_eq!(step(&progressed, GoalAction::Clear, &[]).unwrap(), None);
}

#[test]
fn completion_needs_evidence_of_its_own() {
    let goal = goal();
    let with_evidence = step(
        &goal,
        GoalAction::Progress {
            progress: "p".into(),
        },
        &["earlier"],
    )
    .unwrap()
    .unwrap();
    assert!(step(&with_evidence, GoalAction::Complete, &["  "])
        .unwrap_err()
        .starts_with("cannot complete a goal without evidence in this update"));
    let done = step(&with_evidence, GoalAction::Complete, &["ran tests"])
        .unwrap()
        .unwrap();
    assert_eq!(done.status, GoalStatus::Completed);
    assert_eq!(
        done.evidence,
        vec!["earlier".to_string(), "ran tests".to_string()]
    );
    for (action, error) in [
        (GoalAction::Complete, "goal is already completed"),
        (
            GoalAction::Progress {
                progress: "p".into(),
            },
            "cannot update progress: goal is already completed",
        ),
        (
            GoalAction::Block { reason: "r".into() },
            "cannot block a completed goal",
        ),
    ] {
        assert_eq!(step(&done, action, &["x"]).unwrap_err(), error);
    }
    assert!(create_goal(Some(&done), "goal-2".into(), "next".into(), vec![]).is_ok());
}

#[test]
fn stale_goal_updates_are_refused() {
    let goal = goal();
    assert_eq!(
        transition_goal(None, "goal-1", 1, &GoalAction::Pause, None, vec![]).unwrap_err(),
        "no goal is set for this session"
    );
    assert_eq!(
        transition_goal(Some(&goal), "other", 1, &GoalAction::Pause, None, vec![]).unwrap_err(),
        "goal id mismatch: current goal is `goal-1`, caller supplied `other`"
    );
    let next = step(&goal, GoalAction::Pause, &[]).unwrap().unwrap();
    assert!(
        transition_goal(Some(&next), "goal-1", 1, &GoalAction::Resume, None, vec![])
            .unwrap_err()
            .starts_with(
                "goal revision mismatch: current revision is 2, caller supplied 1"
            )
    );
}

#[test]
fn projections_are_short_and_snapshots_complete() {
    let mut goal = goal();
    goal.objective = "o".repeat(1000);
    goal.evidence = (0..50).map(|i| format!("evidence {i}")).collect();
    let text = goal_projection_text(&goal);
    assert!(text.chars().count() <= PROJECTION_LIMIT);
    assert!(text.starts_with("id goal-1 | active | "));
    let json: serde_json::Value = serde_json::from_str(&goal_snapshot_json(&goal)).unwrap();
    assert_eq!(json["objective"].as_str().unwrap().len(), 1000);
    assert_eq!(json["evidence"].as_array().unwrap().len(), 50);
    assert_eq!(json["status"], "active");
    assert_eq!(json["blocked_reason"], serde_json::Value::Null);
    assert!(goal_snapshot_json(&goal).contains("\n  \"revision\": 1"));
    let mut odd = goal;
    odd.progress = "\u{0} \"quoted\" \\ \n \u{1f600}".into();
    odd.revision = u64::MAX;
    let read = parse_json(&goal_snapshot_json(&odd)).unwrap();
    assert_eq!(read.str_field("progress"), Some(odd.progress));
    assert_eq!(read.u64_field("revision"), Some(u64::MAX));
}

#[test]
fn the_newest_goal_of_a_history_counts() {
    let first = goal();
    let second = step(&first, GoalAction::Pause, &[]).unwrap().unwrap();
    let history = vec![
        SessionEntry::GoalUpdated {
            goal: Some(goal()),
        },
        SessionEntry::GoalUpdated {
            goal: Some(second.clone()),
        },
        SessionEntry::Notice { text: "n".into() },
    ];
    assert_eq!(fold_goal(&history), (Some(second), false));
    let mut agent = Agent::new();
    agent.restore_history(history);
    assert_eq!(agent.goal().unwrap().status, GoalStatus::Paused);
    agent.apply_entry(SessionEntry::GoalUpdated { goal: None });
    assert_eq!(agent.goal(), None);
    assert!(agent.goal_cleared());
}
