use sideview::skill::{skill_rel, skill_state, status_line, targets};

fn names() -> Vec<String> {
    vec!["alpha".into(), "beta".into(), "gamma".into(), "delta".into()]
}

#[test]
fn targets_are_the_named_harness_or_the_default_and_the_present_ones() {
    assert_eq!(targets(Some("beta"), &names(), &vec![false; 4]).unwrap(), vec![1]);
    assert_eq!(
        targets(Some("vim"), &names(), &vec![true; 4]).unwrap_err(),
        "unknown agent \"vim\" — one of: alpha, beta, gamma, delta"
    );
    assert_eq!(targets(None, &names(), &vec![false; 4]).unwrap(), vec![0]);
    assert_eq!(targets(None, &names(), &vec![false, true, false, true]).unwrap(), vec![0, 1, 3]);
}

#[test]
fn skill_paths_and_states() {
    assert_eq!(skill_rel(".codex/skills"), ".codex/skills/sideview/SKILL.md");
    assert_eq!(skill_state(None, "v2"), "not installed");
    assert_eq!(skill_state(Some("v2"), "v2"), "current");
    assert_eq!(skill_state(Some("v1"), "v2"), "STALE — re-run `sideview skill install`");
    assert_eq!(
        status_line(&vec![("alpha", "current"), ("delta", "not installed")]),
        "alpha: current, delta: not installed"
    );
}
