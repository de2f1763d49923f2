use sideview::format::{parse, Block};
use sideview::render::{block, outline};

fn parse_one(src: &str) -> Block {
    let page = parse(src);
    assert_eq!(page.blocks.len(), 1, "test fixture must be one block");
    page.blocks.into_iter().next().unwrap()
}

#[test]
fn html_blocks_can_be_vue_islands() {
    let b = parse_one(
        "<sv-html id=\"b1\">\n<div id=\"app\"></div>\n<script type=\"module\">\nimport { createApp } from 'vue'\n</script>\n</sv-html>",
    );
    let html = block("b1", &b);
    let map = html.find("importmap").expect("islands need the import map");
    let body = html.find("type=&quot;module&quot;").expect("the block's module script");
    assert!(map < body, "the import map has to come first");
    assert!(html.contains("vue.esm-browser.prod.js"), "mapped to the vendored build");
    assert!(html.contains(r#"sandbox="allow-scripts""#), "still an isolated island");
}

#[test]
fn code_fences_highlight_with_prefixed_classes_and_no_inline_styles() {
    let b = parse_one(
        "<sv-prose id=\"b1\">\n```rust\nfn main() { let x = \"hi\"; }\n```\n</sv-prose>",
    );
    let html = block("b1", &b);
    assert!(html.contains("sv-keyword"), "keywords get classed: {html}");
    assert!(html.contains("sv-string"), "strings get classed: {html}");
    assert!(
        !html.contains("style=\"background"),
        "class mode, never a baked-in theme: {html}"
    );
}

#[test]
fn mermaid_fences_degrade_to_code_but_keep_the_class_an_extension_needs() {
    let b = parse_one(
        "<sv-prose id=\"b2\">\n```mermaid\ngraph LR\nA --> B\n```\n</sv-prose>",
    );
    let html = block("b2", &b);
    assert!(
        html.contains(r#"class="language-mermaid""#),
        "the language- class is what a future extension keys on: {html}"
    );
}

#[test]
fn prose_renders_gfm_tables() {
    let b = parse_one("<sv-prose id=\"b1\">\n| a |\n|---|\n| 1 |\n</sv-prose>");
    let html = block("b1", &b);
    assert!(html.contains("<table>"), "{html}");
    assert!(html.contains(r#"data-block="b1""#));
}

#[test]
fn unknown_type_degrades_visibly_with_its_content() {
    let b = parse_one("<sv-table id=\"b2\">\nselect 1\n</sv-table>");
    let html = block("b2", &b);
    assert!(html.contains("doesn't know"), "{html}");
    assert!(html.contains("select 1"), "the raw body stays visible: {html}");
}

#[test]
fn code_fences_do_not_double_escape() {
    let b = parse_one("<sv-prose id=\"b9\">\n```text\nsideview comment <block>\n```\n</sv-prose>");
    let html = block("b9", &b);
    assert!(!html.contains("&amp;lt;"), "double escaped: {html}");
    assert!(html.contains("&lt;block&gt;"), "single escape expected: {html}");
}

#[test]
fn sv_note_is_canon_visible_and_wears_its_target() {
    let b = parse_one("<sv-note target=\"b3\" at=\"p:3f9c2a1b04d2\">\n**Own** the anchor.\n</sv-note>");
    let html = block("n1", &b);
    assert!(html.contains("sv-note"), "{html}");
    assert!(html.contains("b3 · p:3f9c2a1b04d2"), "the reference line names the spot: {html}");
    assert!(html.contains("<strong>Own</strong>"), "the body is markdown: {html}");
}

#[test]
fn parse_warnings_are_shown_in_the_block() {
    let page = parse("<sv-prose id=\"b1\">\nfirst\n<sv-prose id=\"b2\">\nsecond\n</sv-prose>");
    let html = block("b1", &page.blocks[0]);
    assert!(html.contains("sv-parse-warning"), "{html}");
    assert!(html.contains("never closed"), "{html}");
}

#[test]
fn prose_outline_ids_match_rendered_anchors() {
    let b = parse_one(
        "<sv-prose id=\"b3\">\n## Alpha\n\ntext\n\n### Beta `code`\n\n## Alpha\n</sv-prose>",
    );
    let headings = outline("b3", &b);
    assert_eq!(
        headings.iter().map(|h| (h.level, h.text.as_str())).collect::<Vec<_>>(),
        vec![(2, "Alpha"), (3, "Beta code"), (2, "Alpha")]
    );
    let html = block("b3", &b);
    for h in &headings {
        let anchor = format!(r#"id="{}""#, h.id.as_deref().unwrap());
        assert!(html.contains(&anchor), "missing {anchor} in {html}");
    }
    assert_ne!(headings[0].id, headings[2].id, "duplicate titles must dedup");
}

#[test]
fn markup_contributes_no_outline() {
    let b = parse_one(
        "<sv-markup id=\"b4\">\n<div class=\"row\"><h5>Card A</h5><h5>Card B</h5></div>\n</sv-markup>",
    );
    assert!(outline("b4", &b).is_empty());
}

#[test]
fn html_block_is_iframed_escaped_and_contributes_no_outline() {
    let b = parse_one(
        "<sv-html id=\"b5\">\n<h1 id=\"inside\">Doc</h1><p class=\"x\">hi &amp; bye</p>\n</sv-html>",
    );
    let headings = outline("b5", &b);
    assert!(headings.is_empty(), "unreachable anchors mint unusable rail entries and tabs");
    let sized = parse_one(
        "<sv-html id=\"b6\" height=\"40rem\">\n<p>doc</p>\n</sv-html>",
    );
    assert!(block("b6", &sized).contains(r#" style="height:40rem""#));
    let bad = parse_one(
        "<sv-html id=\"b7\" height=\"tall;position:fixed\">\n<p>doc</p>\n</sv-html>",
    );
    assert!(!block("b7", &bad).contains("style=\"height"));
    let html = block("b5", &b);
    assert!(html.contains("sandbox=\"allow-scripts\""));
    assert!(!html.contains(r#"srcdoc="<h1"#), "quotes must be escaped: {html}");
}

#[test]
fn comment_bodies_render_markdown_safely() {
    let html = sideview::render::comment_body(
        "**bold** `code`\n\n<script>alert(1)</script>\n\n![shot](att:aaaaaaaa)",
    );
    assert!(html.contains("<strong>bold</strong>"));
    assert!(html.contains("&lt;script&gt;"), "raw HTML escaped, never omitted");
    assert!(
        html.contains(r#"src="att:aaaaaaaa""#),
        "att: URLs survive safe mode for the client to resolve"
    );
    let link = sideview::render::comment_body("[moo.csv](att:bbbbbbbb)");
    assert!(link.contains(r#"href="att:bbbbbbbb""#), "att: links survive too");
}
