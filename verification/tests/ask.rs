use sideview::ask::{block, VERDICTS};
use sideview::format::parse;

fn ask(src: &str) -> String {
    let page = parse(src);
    block("a1", &page.blocks[0])
}

#[test]
fn question_lifts_options_and_renders_prose_as_markdown() {
    let html = ask(
        "<sv-ask id=\"a1\" round=\"2\">\nWhich **retry** policy?\n- exponential backoff\n- fixed 5s\n- none\n</sv-ask>",
    );
    assert!(html.contains(r#"data-sv-round="2""#));
    assert!(html.contains("<strong>retry</strong>"), "question body is markdown: {html}");
    assert_eq!(html.matches(r#"<label class="sv-ask-opt""#).count(), 3);
    assert!(html.contains(r#"value="0""#) && html.contains("<span>exponential backoff</span>"));
    assert!(html.contains("sv-ask-rider"), "every question carries the free-text rider");
    assert!(!html.contains("<li>"), "option lines never render as a list");
}

#[test]
fn question_without_options_is_free_text_only_and_round_defaults_to_one() {
    let html = ask("<sv-ask id=\"a1\">\nAnything unexpected?\n</sv-ask>");
    assert!(html.contains(r#"data-sv-round="1""#), "missing round means round 1");
    assert!(!html.contains("sv-ask-options"));
    assert!(html.contains("sv-ask-rider"), "the rider is the whole answer");
}

#[test]
fn pick_many_renders_checkboxes_and_suggested_options_preselect() {
    let html = ask(
        "<sv-ask id=\"a1\" pick=\"many\">\nWhich to keep?\n- * the bar\n- the dot\n</sv-ask>",
    );
    assert_eq!(html.matches(r#"type="checkbox""#).count(), 2);
    assert!(!html.contains(r#"type="radio""#));
    assert!(html.contains(r#"value="0" checked"#), "suggested option starts checked: {html}");
    assert!(html.contains(r#"<span>the bar</span><span class="sv-ask-rec">suggested</span>"#));
    assert!(!html.contains(r#"value="1" checked"#));
    assert!(!html.contains("* the bar"), "the marker never leaks into the label");
}

#[test]
fn options_escape() {
    let html = ask("<sv-ask id=\"a1\">\nQ?\n- <script>x</script>\n</sv-ask>");
    assert!(html.contains("&lt;script&gt;"));
}

#[test]
fn close_carries_the_vocabulary_and_a_disabled_send() {
    let html = ask("<sv-ask id=\"a1\" round=\"3\" role=\"close\">\nDone? Press send.\n</sv-ask>");
    for v in VERDICTS {
        assert!(html.contains(&format!(r#"value="{v}""#)), "missing verdict {v}: {html}");
    }
    assert!(html.contains("sv-ask-close") && html.contains(r#"data-sv-role="close""#));
    assert!(!html.contains("sv-ask-preview"), "no preview is rendered");
    assert!(html.contains(r#"class="sv-ask-send btn btn-sm btn-primary" disabled"#));
    assert!(html.contains("send round 3"));
}

#[test]
fn malformed_round_and_role_degrade_with_the_body_kept_readable() {
    let html = ask("<sv-ask id=\"a1\" round=\"soon\">\nQ?\n</sv-ask>");
    assert!(html.contains("sv-degraded-note") && html.contains("positive integer"));
    assert!(html.contains("Q?"), "the body stays visible: {html}");
    let html = ask("<sv-ask id=\"a1\" role=\"open\">\nQ?\n</sv-ask>");
    assert!(html.contains("sv-degraded-note") && html.contains("the only role is"));
}
