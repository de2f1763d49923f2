use sideview::models::{Comment, Thread};
use sideview::monitor::{
    checked_line, codex_thread, comment_delivery, comment_message, compatible_queue, dedupe_candidates,
    discover_failure, monitor_status, queue_failure, reuse_previous, Delivery, comment_step,
    comment_queued, CommentStep,
};

#[test]
fn comment_prompt_is_readable_not_raw_json() {
    let comment = Comment {
        id: 7,
        thread_id: 4,
        body: "make it smaller".into(),
        author: Some("user".into()),
        author_name: None,
        created_at: 1,
        seen_at: None,
        seen_by: None,
        kind: "comment".into(),
    };
    let thread = Thread {
        id: 4,
        page: "V4".into(),
        target: "intro".into(),
        anchor: "".into(),
        quote: Some("the heading".into()),
        context: None,
        created_at: 1,
        resolved_at: None,
        resolved_by: None,
        working_at: None,
        working_by: None,
    };
    let prompt = comment_message(&comment, &thread, 0);
    assert!(prompt.contains("Page V4 · thread 4 · event 7"));
    assert!(prompt.contains("Feedback:\nmake it smaller"));
    assert!(!prompt.contains("{\""));
}

#[test]
fn explicit_thread_must_be_a_uuid() {
    assert!(codex_thread(Some("latest"), None).is_err());
    let id = uuid::Uuid::new_v4().to_string();
    assert_eq!(codex_thread(Some(&id), None).unwrap(), id);
}

#[test]
fn codex_thread_falls_back_to_the_environment_and_never_guesses() {
    let id = "550E8400-E29B-41D4-A716-446655440000";
    assert_eq!(
        codex_thread(Some("  "), Some(id)).unwrap(),
        "550e8400-e29b-41d4-a716-446655440000"
    );
    let e = codex_thread(None, Some("")).unwrap_err();
    assert!(e.starts_with("no Codex thread id"), "{e}");
    let e = codex_thread(Some("latest"), None).unwrap_err();
    assert_eq!(e, "Codex thread id \"latest\" is not a UUID");
}

#[test]
fn failed_queue_keeps_cursor_and_pending_event_for_retry() {
    let (comment, thread) = user_comment(5);
    let mut d = Delivery {
        cursor: 0,
        pending_event: None,
        last_event_at: None,
        last_queued_at: None,
        last_queue_output: None,
        last_error: None,
    };
    let step = comment_step(&mut d, &comment, &thread, 0, 100);
    assert!(matches!(step, CommentStep::Queue(_)));
    let refused = queue_failure("exit status: 2", "queue refused\n", "");
    let r = comment_queued(&mut d, comment.id, Err(refused), 101);
    assert!(r.is_err(), "the generation stops: no receipt is stamped");
    assert_eq!(d.cursor, 0);
    assert_eq!(d.pending_event.as_deref(), Some("comment:5"));
    assert!(d.last_error.as_deref().unwrap().contains("queue refused"));
    assert_eq!(d.last_error.as_deref(), Some("codex queue exited exit status: 2: queue refused"));
}

#[test]
fn a_queued_comment_moves_the_cursor_and_an_agent_echo_only_moves_it() {
    let (comment, thread) = user_comment(6);
    let mut d = Delivery {
        cursor: 2,
        pending_event: None,
        last_event_at: None,
        last_queued_at: None,
        last_queue_output: None,
        last_error: None,
    };
    let _ = comment_step(&mut d, &comment, &thread, 1, 10);
    assert!(comment_queued(&mut d, 6, Ok("Queued".to_string()), 11).is_ok());
    assert_eq!(d.cursor, 6);
    assert_eq!(d.pending_event, None);
    assert_eq!(d.last_queue_output.as_deref(), Some("Queued"));
    let (mut echo, thread) = user_comment(8);
    echo.author = Some("agent".into());
    assert!(matches!(comment_step(&mut d, &echo, &thread, 0, 12), CommentStep::Skipped));
    assert_eq!(d.cursor, 8);
    assert_eq!(d.last_event_at, Some(10));
}

fn user_comment(id: i64) -> (Comment, Thread) {
    let comment = Comment {
        id,
        thread_id: 4,
        body: "fix".into(),
        author: Some("user".into()),
        author_name: None,
        created_at: 1,
        seen_at: None,
        seen_by: None,
        kind: "comment".into(),
    };
    let thread = Thread {
        id: 4,
        page: "V4".into(),
        target: "intro".into(),
        anchor: "".into(),
        quote: None,
        context: None,
        created_at: 1,
        resolved_at: None,
        resolved_by: None,
        working_at: None,
        working_by: None,
    };
    (comment, thread)
}

#[test]
fn successful_delivery_advances_and_clears_the_pending_event() {
    let mut d = Delivery {
        cursor: 3,
        pending_event: None,
        last_event_at: None,
        last_queued_at: None,
        last_queue_output: None,
        last_error: Some("old".into()),
    };
    d.begin("comment:5", 100);
    d.queued("Queued message fake-id", 101);
    d.advance(5);
    assert_eq!(d.cursor, 5);
    assert_eq!(d.pending_event, None);
    assert_eq!(d.last_error, None);
    assert_eq!(d.last_queue_output.as_deref(), Some("Queued message fake-id"));
    assert_eq!(d.last_queued_at, Some(101));
    d.queued("", 102);
    assert_eq!(d.last_queue_output, None);
}

#[test]
fn agent_echoes_only_advance() {
    let thread = sideview::models::Thread {
        id: 4,
        page: "V4".into(),
        target: "intro".into(),
        anchor: "".into(),
        quote: None,
        context: None,
        created_at: 1,
        resolved_at: None,
        resolved_by: None,
        working_at: None,
        working_by: None,
    };
    let mut c = sideview::models::Comment {
        id: 9,
        thread_id: 4,
        body: "done".into(),
        author: Some("agent".into()),
        author_name: None,
        created_at: 1,
        seen_at: None,
        seen_by: None,
        kind: "comment".into(),
    };
    assert!(comment_delivery(&c, &thread, 0).is_none());
    c.author = Some("user".into());
    let (key, msg) = comment_delivery(&c, &thread, 0).unwrap();
    assert_eq!(key, "comment:9");
    assert!(msg.starts_with("Sideview comment"));
    assert!(msg.contains("Page V4 · thread 4 · event 9"));
}

#[test]
fn codex_discovery_pieces() {
    assert!(compatible_queue(true, "queue --thread ID --message TEXT"));
    assert!(!compatible_queue(false, "queue --thread ID --message TEXT"));
    assert!(!compatible_queue(true, "queue --thread ID"));
    let c = vec![
        ("SIDEVIEW_CODEX_PATH".to_string(), "/opt/codex".to_string()),
        ("PATH".to_string(), "/usr/bin/codex".to_string()),
        ("PATH".to_string(), "/opt/codex".to_string()),
    ];
    let d = dedupe_candidates(&c);
    assert_eq!(d.len(), 2);
    assert_eq!(d[0].0, "SIDEVIEW_CODEX_PATH");
    assert_eq!(d[1].1, "/usr/bin/codex");
    assert_eq!(
        discover_failure(&vec![]),
        "could not find a compatible Codex CLI binary. Checked:\n- no candidates\nPoint Sideview at one with `--codex-path <path>` or SIDEVIEW_CODEX_PATH, or install the official Codex CLI; Sideview will not install it silently."
    );
    let line = checked_line("PATH", "/usr/bin/codex", "not found");
    assert_eq!(line, "- PATH: /usr/bin/codex (not found)");
    assert!(discover_failure(&vec![line.clone(), line]).contains("(not found)\n- PATH"));
    assert!(reuse_previous(1, "t", 4, "t", 9));
    assert!(!reuse_previous(1, "t", 10, "t", 9));
    assert!(!reuse_previous(2, "t", 4, "t", 9));
    assert!(!reuse_previous(1, "u", 4, "t", 9));
    assert_eq!(monitor_status(true, true), "running");
    assert_eq!(monitor_status(true, false), "ownership mismatch");
    assert_eq!(monitor_status(false, true), "stopped");
}
