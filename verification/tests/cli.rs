use sideview::cli::{
    check_promote_dest, comment_plan, ensure_step, no_daemon_text, open_step, page_file_for,
    resolve_line, session_label, session_line, status_line, unreachable_text, urls_to_print,
    CommentPlan, EnsureStep, OpenStep,
};
use sideview::store::DaemonRow;

fn row(reachable: bool, version: &str, port: u16) -> DaemonRow {
    DaemonRow {
        instance_id: "i".into(),
        pid: 42,
        port,
        version: version.into(),
        started_at: 0,
        last_seen: 0,
        ping: 0,
        pong: 0,
        netns: None,
        reachable,
    }
}

#[test]
fn bare_open_reuses_claims_or_starts() {
    match open_step(Some(&row(true, "0.3.0", 8899)), "0.3.0") {
        OpenStep::Running(p) => assert_eq!(p, 8899),
        _ => panic!("a live daemon is reused"),
    }
    match open_step(Some(&row(true, "0.2.0", 8899)), "0.3.0") {
        OpenStep::Skew(m) => assert_eq!(
            m,
            "daemon is running v0.2.0, this is v0.3.0 — Ctrl-C it and run `sideview` again"
        ),
        _ => panic!("skew is reported"),
    }
    assert!(matches!(open_step(Some(&row(false, "0.3.0", 1)), "0.3.0"), OpenStep::Claim));
    assert!(matches!(open_step(None, "0.3.0"), OpenStep::Start));
}

#[test]
fn writes_spawn_only_without_a_reachable_daemon() {
    assert!(matches!(ensure_step(Some(&row(true, "1", 1)), "1"), EnsureStep::Serving));
    assert!(matches!(ensure_step(Some(&row(true, "0", 1)), "1"), EnsureStep::SkewNote(_)));
    assert!(matches!(ensure_step(Some(&row(false, "1", 1)), "1"), EnsureStep::SpawnIfReachable));
    assert!(matches!(ensure_step(None, "1"), EnsureStep::SpawnIfReachable));
    assert_eq!(no_daemon_text("/p"), "no daemon running — run `sideview` in /p to see this.");
    assert_eq!(
        unreachable_text(&vec!["netns".into(), "no routes".into()], "/p"),
        "a daemon started here could never be reached by a browser (netns, no routes).\nRun `sideview` in /p from outside the sandbox."
    );
}

#[test]
fn comment_arguments_combine_one_way() {
    match comment_plan("looks good\n\n", Some("b3"), None, None).unwrap() {
        (body, CommentPlan::Start(target, anchor)) => {
            assert_eq!(body, "looks good");
            assert_eq!(target, "b3");
            assert_eq!(anchor, "");
        }
        _ => panic!("a block starts a thread"),
    }
    match comment_plan("ok", None, None, Some(7)).unwrap() {
        (_, CommentPlan::Reply(t)) => assert_eq!(t, 7),
        _ => panic!("--thread replies"),
    }
    assert_eq!(comment_plan("\n", Some("b3"), None, None).unwrap_err(), "empty comment (body arrives on stdin)");
    assert_eq!(
        comment_plan("x", Some("b3"), None, Some(7)).unwrap_err(),
        "pass a block to start a thread, or --thread to reply — not both"
    );
    assert_eq!(
        comment_plan("x", None, Some("h:a"), Some(7)).unwrap_err(),
        "--at places a new thread; a reply inherits its thread's anchor"
    );
    assert_eq!(
        comment_plan("x", None, None, None).unwrap_err(),
        "name a block to comment on, or --thread to reply"
    );
}

#[test]
fn resolve_says_what_changed_or_what_already_held() {
    assert_eq!(resolve_line(4, false, true, "V4", "b2"), "resolved thread 4 on V4 (b2)");
    assert_eq!(resolve_line(4, true, true, "V4", "b2"), "reopened thread 4 on V4 (b2)");
    assert_eq!(resolve_line(4, false, false, "V4", "b2"), "thread 4 is already resolved");
    assert_eq!(resolve_line(4, true, false, "V4", "b2"), "thread 4 is already open");
}

#[test]
fn pages_move_inside_the_project_only() {
    assert!(check_promote_dest("docs/V5.sv").is_ok());
    assert!(check_promote_dest("docs/..v.sv").is_ok());
    assert!(check_promote_dest("/tmp/V5.sv").is_err());
    assert_eq!(
        check_promote_dest("docs/../../V5.sv").unwrap_err(),
        "destination must be a relative path inside the project"
    );
    assert_eq!(page_file_for(Some("docs/a.sv"), "s1"), "docs/a.sv");
    assert_eq!(page_file_for(None, "s 1"), ".sideview/pages/s%201.sv");
}

#[test]
fn listings_and_status_lines() {
    assert_eq!(session_label(Some("<sv-page label=\"Plan\">\n"), "s1"), "Plan");
    assert_eq!(session_label(Some("<sv-prose>\nx\n</sv-prose>\n"), "s1"), "s1");
    assert_eq!(session_label(None, "s1"), "s1");
    assert_eq!(
        session_line("Plan", ".sideview/pages/s1.sv", "s 1", Some(8899)),
        "Plan  .sideview/pages/s1.sv  http://127.0.0.1:8899/s/s%201"
    );
    assert_eq!(session_line("Plan", "p.sv", "s1", None), "Plan  p.sv  (no daemon running)");
    assert_eq!(urls_to_print(vec![], 8899), vec!["http://127.0.0.1:8899".to_string()]);
    assert_eq!(
        urls_to_print(vec!["http://127.0.0.1:1".into(), "http://100.64.0.1:1".into()], 8899).len(),
        2
    );
    assert_eq!(
        status_line(true, &row(true, "0.3.0", 8899)),
        "daemon:  alive (answered ping) — v0.3.0, port 8899, pid 42, reachable=true"
    );
    assert_eq!(
        status_line(false, &row(false, "0.3.0", 8899)),
        "daemon:  NOT answering (stale row?) — v0.3.0, port 8899, pid 42, reachable=false"
    );
}
