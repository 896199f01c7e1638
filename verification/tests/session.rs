use e_agent::agent::Agent;
use e_agent::entry::{fork_prefix, is_turn_boundary, SessionEntry};
use e_agent::message::{
    strip_images, AssistantMessage, ImagePart, Message, ToolCall, INTERRUPTED,
};
use e_agent::pairs::repair_tool_pairs;
use e_agent::text::preview;

fn call(id: &str, name: &str, arguments: &str) -> ToolCall {
    ToolCall {
        id: id.into(),
        name: name.into(),
        arguments: arguments.into(),
    }
}

#[test]
fn repair_tool_pairs_drops_orphan_results_after_a_synthetic_answer() {
    // Compaction captures a synthetic interrupted-result for call-1,
    // then the real result lands later (duplicate call_id). The second
    // Tool message has no pending tool_call and must be dropped.
    let messages = vec![
        Message::User {
            content: "u".into(),
            images: vec![],
        },
        Message::Assistant(AssistantMessage {
            content: None,
            tool_calls: vec![call("call-1", "bash", r#"{"cmd":"x"}"#)],
            reasoning: None,
        }),
        Message::Tool {
            call_id: "call-1".into(),
            name: "bash".into(),
            content: "[turn interrupted before a tool result was produced]".into(),
            is_error: true,
            synthetic: true,
            images: vec![],
        },
        Message::Tool {
            call_id: "call-1".into(),
            name: "bash".into(),
            content: "real result".into(),
            is_error: false,
            synthetic: false,
            images: vec![],
        },
    ];
    let repaired = repair_tool_pairs(messages);
    assert_eq!(repaired.len(), 3);
    // The synthetic placeholder is skipped so the real result can claim
    // the pending call: output = [User, Assistant(call-1), Tool(real)].
    assert!(matches!(
        &repaired[2],
        Message::Tool { call_id, content, is_error: false, synthetic: false, .. }
            if call_id == "call-1" && content == "real result"
    ));
    assert!(!repaired.iter().any(|m| matches!(
        m,
        Message::Tool {
            synthetic: true,
            ..
        }
    )));
}

#[test]
fn repair_tool_pairs_synthesizes_missing_results_in_order() {
    let messages = vec![
        Message::User {
            content: "u".into(),
            images: vec![],
        },
        Message::Assistant(AssistantMessage {
            content: None,
            tool_calls: vec![call("call-1", "bash", r#"{}"#)],
            reasoning: None,
        }),
        Message::User {
            content: "next".into(),
            images: vec![],
        },
    ];
    let repaired = repair_tool_pairs(messages);
    assert!(repaired.iter().any(|message| matches!(
        message,
        Message::Tool { call_id, is_error: true, synthetic: true, .. }
            if call_id == "call-1" && message_tool_content(message) == "[turn interrupted before a tool result was produced]"
    )));
    // The synthetic result must precede the following user message.
    let index = repaired
        .iter()
        .position(|m| matches!(m, Message::Tool { call_id, .. } if call_id == "call-1"))
        .unwrap();
    assert!(matches!(&repaired[index + 1], Message::User { .. }));
}

#[test]
fn repair_tool_pairs_keeps_real_result_matching_placeholder_text() {
    // A real tool result whose content happens to equal the interrupted
    // placeholder text must still pair normally: it is not skipped and
    // no placeholder is synthesized on top of it.
    let messages = vec![
        Message::User {
            content: "u".into(),
            images: vec![],
        },
        Message::Assistant(AssistantMessage {
            content: None,
            tool_calls: vec![call("call-1", "bash", r#"{}"#)],
            reasoning: None,
        }),
        Message::Tool {
            call_id: "call-1".into(),
            name: "bash".into(),
            content: "[turn interrupted before a tool result was produced]".into(),
            is_error: false,
            synthetic: false,
            images: vec![],
        },
    ];
    let repaired = repair_tool_pairs(messages);
    assert_eq!(repaired.len(), 3);
    assert!(matches!(
        &repaired[2],
        Message::Tool { call_id, content, is_error: false, synthetic: false, .. }
            if call_id == "call-1"
                && content == "[turn interrupted before a tool result was produced]"
    ));
    // Only that one real result exists: no placeholder was flushed.
    assert_eq!(
        repaired
            .iter()
            .filter(|m| matches!(
                m,
                Message::Tool { content, .. }
                    if *content == "[turn interrupted before a tool result was produced]"
            ))
            .count(),
        1
    );
    assert!(!repaired.iter().any(|m| matches!(
        m,
        Message::Tool {
            synthetic: true,
            ..
        }
    )));
}

#[test]
fn repair_tool_pairs_keeps_image_bearing_tool_results() {
    // An image-bearing Tool result passes through repair untouched: the
    // structured image references stay on the canonical Tool message (no
    // synthetic User, no stripping).
    let image = ImagePart {
        hash: "deadbeef".into(),
        mime: "image/png".into(),
    };
    let messages = vec![
        Message::User {
            content: "u".into(),
            images: vec![],
        },
        Message::Assistant(AssistantMessage {
            content: None,
            tool_calls: vec![call("call-img", "read_image", r#"{"path":"a.png"}"#)],
            reasoning: None,
        }),
        Message::Tool {
            call_id: "call-img".into(),
            name: "read_image".into(),
            content: "[image read: a.png] (hash deadbeef, image/png, 4 bytes)".into(),
            is_error: false,
            synthetic: false,
            images: vec![image.clone()],
        },
        Message::User {
            content: "next".into(),
            images: vec![],
        },
    ];
    let repaired = repair_tool_pairs(messages);
    assert!(repaired.iter().any(|message| matches!(
        message,
        Message::Tool { images, is_error: false, .. } if *images == vec![image.clone()]
    )));
    assert!(!repaired.iter().any(|message| matches!(
        message,
        Message::Tool {
            synthetic: true,
            ..
        }
    )));
}

fn message_tool_content(message: &Message) -> &str {
    match message {
        Message::Tool { content, .. } => content,
        _ => "",
    }
}

#[test]
fn preview_short_text_unchanged() {
    assert_eq!(preview("hello", 10), "hello");
    assert_eq!(preview("hi", 2), "hi");
    assert_eq!(preview("", 5), "");
}

#[test]
fn preview_exact_fit() {
    assert_eq!(preview("abcde", 5), "abcde");
}

#[test]
fn preview_zero_or_one() {
    assert_eq!(preview("hello", 0), "");
    assert_eq!(preview("h", 1), "h");
    assert_eq!(preview("hello", 1), "\u{2026}");
}

#[test]
fn preview_max_2() {
    let r = preview("abcdef", 2);
    assert_eq!(r.chars().count(), 2);
    assert!(r.contains('\u{2026}'));
}

#[test]
fn preview_middle_ellipsis_ascii() {
    let r = preview("abcdefghijklmno", 10);
    assert_eq!(r.chars().count(), 10);
    assert!(r.contains('\u{2026}'));
    // 2:1 head:tail => head=6, tail=3 (available=9)
    assert!(r.starts_with("abcdef"), "head preserved, got {r:?}");
    assert!(r.ends_with("mno"), "tail preserved, got {r:?}");
}

#[test]
fn preview_middle_ellipsis_cjk() {
    let text = "你好世界数据驱动开发";
    let r = preview(text, 8);
    assert_eq!(r.chars().count(), 8);
    assert!(r.contains('\u{2026}'));
    // head=5 chars, tail=2 chars (available=7, 2:1 ratio)
    assert!(r.starts_with("你好世界"), "CJK head, got {r:?}");
    assert!(r.ends_with("开发"), "CJK tail, got {r:?}");
}

#[test]
fn preview_middle_ellipsis_emoji() {
    let text = "a😊b😊c😊d😊e😊f😊g";
    let r = preview(text, 8);
    assert_eq!(r.chars().count(), 8);
    assert!(
        r.contains('\u{2026}'),
        "emoji preview has ellipsis, got {r:?}"
    );
    // char-count respects Unicode, not bytes
}

#[test]
fn preview_char_count_never_exceeds_max() {
    for max in [3usize, 5, 10, 50, 100] {
        let text = "a".repeat(max * 2);
        let r = preview(&text, max);
        assert!(
            r.chars().count() <= max,
            "max={max}: actual {} > {max}, result: {r:?}",
            r.chars().count()
        );
    }
}


fn completed_turn(question: &str, answer: &str) -> Vec<SessionEntry> {
    vec![
        Message::User {
            content: question.into(),
            images: vec![],
        }
        .into(),
        Message::Assistant(AssistantMessage {
            content: Some(answer.into()),
            tool_calls: vec![],
            reasoning: None,
        })
        .into(),
    ]
}

fn forked_history() -> Vec<SessionEntry> {
    let mut entries = completed_turn("q1", "a1");
    entries.extend(completed_turn("q2", "a2"));
    entries.extend(completed_turn("q3", "a3"));
    entries
}

#[test]
fn fork_prefix_default_cuts_at_last_completed_turn_and_drops_tail() {
    let mut entries = forked_history();
    // Trailing non-turn entries (Notice, BackgroundCompletion, another
    // ForkedFrom) must be dropped by the default fork point.
    entries.push(SessionEntry::Notice {
        text: "[background task 1 completed]\nzzz".into(),
    });
    entries.push(SessionEntry::BackgroundCompletion {
        id: 9,
        output: "output".into(),
        label: None,
        started_at_ms: None,
        duration_ms: None,
        exit_code: None,
        signal: None,
        status: None,
        kind: None,
    });
    entries.push(SessionEntry::ForkedFrom {
        source: "other".into(),
        at: 1,
        event_time: None,
        seq: None,
    });

    let prefix = fork_prefix(&entries, None).unwrap();
    assert_eq!(prefix, forked_history());
    // The boundary entry is the last assistant answer with no tool calls.
    assert!(is_turn_boundary(prefix.last().unwrap()));
}

#[test]
fn fork_prefix_at_is_1_based_inclusive() {
    let entries = forked_history();
    let prefix = fork_prefix(&entries, Some(4)).unwrap();
    assert_eq!(prefix.len(), 4);
    assert_eq!(
        prefix,
        completed_turn("q1", "a1")
            .into_iter()
            .chain(completed_turn("q2", "a2"))
            .collect::<Vec<_>>()
    );
    // Forking at the very last entry keeps everything.
    assert_eq!(fork_prefix(&entries, Some(6)).unwrap(), entries);
}

#[test]
fn fork_prefix_rejects_mid_turn_at() {
    let mut entries = forked_history();
    // Insert an assistant message that still has a pending tool call
    // (the turn is not complete at this entry).
    entries.push(
        Message::Assistant(AssistantMessage {
            content: None,
            tool_calls: vec![ToolCall {
                id: "call-1".into(),
                name: "bash".into(),
                arguments: "{}".into(),
            }],
            reasoning: None,
        })
        .into(),
    );
    let error = fork_prefix(&entries, Some(7)).unwrap_err();
    assert!(
        error.contains("not a turn boundary"),
        "mid-turn fork must be rejected, got {error:?}"
    );
    // Same entry is fine without an explicit at: the boundary search
    // stops at the previous completed turn.
    let prefix = fork_prefix(&entries, None).unwrap();
    assert_eq!(prefix.len(), 6);
}

#[test]
fn fork_prefix_rejects_out_of_range_at() {
    let entries = forked_history();
    let error = fork_prefix(&entries, Some(7)).unwrap_err();
    assert!(error.contains("out of range"), "{error}");
    let error = fork_prefix(&entries, Some(0)).unwrap_err();
    assert!(error.contains("out of range"), "0 is not 1-based: {error}");
}

#[test]
fn fork_prefix_rejects_empty_and_no_completed_turn() {
    assert_eq!(
        fork_prefix(&[], None).unwrap_err(),
        "no completed turn in session"
    );
    assert_eq!(
        fork_prefix(&[], Some(1)).unwrap_err(),
        "no completed turn in session"
    );
    // Only user messages: no assistant boundary anywhere.
    let no_turn = vec![
        Message::User {
            content: "q1".into(),
            images: vec![],
        }
        .into(),
        Message::User {
            content: "q2".into(),
            images: vec![],
        }
        .into(),
    ];
    assert_eq!(
        fork_prefix(&no_turn, None).unwrap_err(),
        "no completed turn in session"
    );
}

#[test]
fn fork_prefix_accepts_compaction_as_boundary() {
    let mut entries = forked_history();
    entries.push(SessionEntry::Compaction {
        summary: "summary".into(),
        retained: vec![],
        current_prompt_at: None,
        no_current_prompt: false,
    });
    let prefix = fork_prefix(&entries, None).unwrap();
    assert_eq!(prefix.len(), 7);
    assert!(matches!(
        prefix.last(),
        Some(SessionEntry::Compaction { .. })
    ));
    // Explicit at on the compaction works too.
    assert_eq!(fork_prefix(&entries, Some(7)).unwrap(), entries);
}


#[test]
fn strip_images_clears_user_and_tool_images_with_text_degradation() {
    let mut messages = vec![
        Message::System {
            content: "sys".into(),
        },
        Message::User {
            content: "with image".into(),
            images: vec![ImagePart {
                hash: "deadbeef".into(),
                mime: "image/png".into(),
            }],
        },
        Message::Assistant(AssistantMessage {
            content: Some("ok".into()),
            tool_calls: vec![],
            reasoning: None,
        }),
        Message::Tool {
            call_id: "1".into(),
            name: "read_image".into(),
            content: "[image read: a.png]".into(),
            is_error: false,
            synthetic: false,
            images: vec![ImagePart {
                hash: "beef".into(),
                mime: "image/png".into(),
            }],
        },
        Message::User {
            content: "plain".into(),
            images: vec![],
        },
    ];
    strip_images(&mut messages);
    assert_eq!(
        messages,
        vec![
            Message::System {
                content: "sys".into(),
            },
            Message::User {
                content: "with image（当前模型不支持图片，已跳过附加）".into(),
                images: vec![],
            },
            Message::Assistant(AssistantMessage {
                content: Some("ok".into()),
                tool_calls: vec![],
                reasoning: None,
            }),
            Message::Tool {
                call_id: "1".into(),
                name: "read_image".into(),
                content: "[image read: a.png]（当前模型不支持图片，已跳过附加）".into(),
                is_error: false,
                synthetic: false,
                images: vec![],
            },
            Message::User {
                content: "plain".into(),
                images: vec![],
            },
        ]
    );
}

fn interrupted(call_id: &str, synthetic: bool) -> Message {
    Message::Tool {
        call_id: call_id.into(),
        name: "bash".into(),
        content: INTERRUPTED.into(),
        is_error: true,
        synthetic,
        images: vec![],
    }
}

fn snapshot(summary: &str, call_id: &str, synthetic: bool) -> SessionEntry {
    SessionEntry::Compaction {
        summary: summary.into(),
        retained: vec![
            Message::User {
                content: "current question".into(),
                images: vec![],
            },
            Message::Assistant(AssistantMessage {
                content: None,
                tool_calls: vec![call(call_id, "bash", r#"{"command":"make"}"#)],
                reasoning: None,
            }),
            interrupted(call_id, synthetic),
        ],
        current_prompt_at: None,
        no_current_prompt: false,
    }
}

fn real_result() -> Message {
    Message::Tool {
        call_id: "call-1".into(),
        name: "bash".into(),
        content: "real result".into(),
        is_error: false,
        synthetic: false,
        images: vec![],
    }
}

fn completion(id: u64, output: &str, label: Option<&str>) -> SessionEntry {
    SessionEntry::BackgroundCompletion {
        id,
        output: output.into(),
        label: label.map(|text| text.to_string()),
        started_at_ms: None,
        duration_ms: None,
        exit_code: None,
        signal: None,
        status: None,
        kind: None,
    }
}

#[test]
fn restore_history_migrates_legacy_interrupted_placeholders() {
    // Placeholders of old sessions carry no flag: restoring sets it, both in a
    // plain entry and inside a compaction snapshot.
    let mut agent = Agent::new();
    agent.restore_history(vec![
        interrupted("call-1", false).into(),
        snapshot("old summary", "call-2", false),
    ]);
    assert!(matches!(
        &agent.history()[0],
        SessionEntry::Message {
            message: Message::Tool {
                content,
                is_error: true,
                synthetic: true,
                ..
            }
        } if content == INTERRUPTED
    ));
    let SessionEntry::Compaction { retained, .. } = &agent.history()[1] else {
        panic!("expected compaction entry");
    };
    assert!(matches!(&retained[1], Message::Assistant(_)));
    assert!(matches!(
        &retained[2],
        Message::Tool {
            content,
            is_error: true,
            synthetic: true,
            ..
        } if content == INTERRUPTED
    ));
}

fn check_paired_context(context: &[Message], summary: &str) {
    assert_eq!(context.len(), 4);
    let expected = format!("[compacted summary of earlier conversation]\n{summary}");
    assert!(matches!(
        &context[0],
        Message::User { content, .. } if content == &expected
    ));
    assert!(matches!(&context[1], Message::User { .. }));
    assert!(matches!(
        &context[2],
        Message::Assistant(message)
            if message.tool_calls == vec![call("call-1", "bash", r#"{"command":"make"}"#)]
    ));
    assert!(matches!(
        &context[3],
        Message::Tool { call_id, content, is_error: false, synthetic: false, .. }
            if call_id == "call-1" && content == "real result"
    ));
    assert!(!context.iter().any(|m| matches!(
        m,
        Message::Tool {
            synthetic: true,
            ..
        }
    )));
    assert_eq!(repair_tool_pairs(context.to_vec()), context);
}

#[test]
fn restore_history_migrates_legacy_placeholders_end_to_end() {
    let mut agent = Agent::new();
    agent.restore_history(vec![
        snapshot("old summary", "call-1", false),
        real_result().into(),
    ]);
    check_paired_context(&agent.context(), "old summary");
}

#[test]
fn context_pairs_real_result_across_a_compaction_snapshot() {
    let mut agent = Agent::new();
    agent.restore_history(vec![
        snapshot("summary text", "call-1", true),
        real_result().into(),
    ]);
    check_paired_context(&agent.context(), "summary text");
}

#[test]
fn context_formats_background_completion_with_label_variants() {
    let cases: &[(&str, Option<&str>, &str)] = &[
        (
            "build",
            Some("build"),
            "[background task 7 completed: build]",
        ),
        ("", None, "[background task 7 completed]"),
        ("  ", None, "[background task 7 completed]"),
    ];
    for (_name, label_val, expected_header) in cases {
        let mut agent = Agent::new();
        agent.restore_history(vec![completion(
            7,
            "full output text\nwith multiple\nlines",
            *label_val,
        )]);
        let msgs = agent.context();
        assert_eq!(msgs.len(), 1);
        let expected = format!("{expected_header}\nfull output text\nwith multiple\nlines");
        assert!(
            matches!(&msgs[0], Message::User { content, .. } if content == &expected),
            "label={label_val:?}: expected {expected:?}, got {:?}",
            msgs[0]
        );
    }
}

#[test]
fn background_completion_and_notice_coexist_in_context() {
    let mut agent = Agent::new();
    agent.restore_history(vec![
        SessionEntry::Notice {
            text: "[background task 1 completed]\nold style".into(),
        },
        completion(2, "new style", None),
    ]);
    let msgs = agent.context();
    assert_eq!(msgs.len(), 2);
    assert!(matches!(
        &msgs[0],
        Message::User { content, .. } if content.contains("old style")
    ));
    assert!(matches!(
        &msgs[1],
        Message::User { content, .. } if content == "[background task 2 completed]\nnew style"
    ));
}

#[test]
fn fork_markers_stay_out_of_the_context() {
    let mut agent = Agent::new();
    agent.restore_history(vec![
        SessionEntry::ForkedFrom {
            source: "src-123".into(),
            at: 4,
            event_time: None,
            seq: None,
        },
        Message::User {
            content: "q1".into(),
            images: vec![],
        }
        .into(),
        Message::Assistant(AssistantMessage {
            content: Some("a1".into()),
            tool_calls: vec![],
            reasoning: None,
        })
        .into(),
    ]);
    let msgs = agent.context();
    assert_eq!(msgs.len(), 2);
    assert!(matches!(
        &msgs[0],
        Message::User { content, .. } if content == "q1"
    ));
    assert!(!format!("{msgs:?}").contains("src-123"));
}

#[test]
fn context_includes_user_images() {
    let mut agent = Agent::new();
    agent.restore_history(vec![Message::User {
        content: "look at this".into(),
        images: vec![ImagePart {
            hash: "cafe".into(),
            mime: "image/webp".into(),
        }],
    }
    .into()]);
    let context = agent.context();
    assert_eq!(context.len(), 1);
    match &context[0] {
        Message::User { content, images } => {
            assert_eq!(content, "look at this");
            assert_eq!(images.len(), 1);
            assert_eq!(images[0].hash, "cafe");
            assert_eq!(images[0].mime, "image/webp");
        }
        other => panic!("expected user message, got {other:?}"),
    }
}
