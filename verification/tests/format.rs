use sideview::format::{block_text, parse};

#[test]
fn bodies_are_raw_bytes() {
    let src = "<sv-prose id=\"b1\">\nif x < 3 && y > 4 {}\n<div>not a tag here</div>\n &amp; stays literal\n</sv-prose>\n";
    let page = parse(src);
    assert_eq!(page.blocks.len(), 1);
    let b = &page.blocks[0];
    assert_eq!(b.tag_name, "sv-prose");
    assert_eq!(b.id(), Some("b1"));
    assert_eq!(
        b.body,
        "if x < 3 && y > 4 {}\n<div>not a tag here</div>\n &amp; stays literal"
    );
    assert!(b.warnings.is_empty());
}

#[test]
fn tags_are_recognized_at_column_zero_only() {
    let src = "<sv-prose id=\"b1\">\n <sv-prose id=\"x\">\n </sv-prose>\n</sv-prose>\n";
    let page = parse(src);
    assert_eq!(page.blocks.len(), 1);
    assert_eq!(page.blocks[0].body, " <sv-prose id=\"x\">\n </sv-prose>");
    assert!(page.blocks[0].warnings.is_empty());
}

#[test]
fn a_lost_close_tag_heals_at_the_next_opener() {
    let src = "<sv-prose id=\"b1\">\nfirst\n<sv-markup id=\"b2\">\n<b>second</b>\n</sv-markup>\n";
    let page = parse(src);
    assert_eq!(page.blocks.len(), 2);
    assert_eq!(page.blocks[0].body, "first");
    assert_eq!(page.blocks[0].warnings.len(), 1, "the healed block carries the warning");
    assert!(page.blocks[1].warnings.is_empty(), "later blocks stay healthy");
}

#[test]
fn unclosed_final_block_runs_to_eof_with_a_warning() {
    let page = parse("<sv-prose id=\"b1\">\nstill going");
    assert_eq!(page.blocks.len(), 1);
    assert_eq!(page.blocks[0].body, "still going");
    assert_eq!(page.blocks[0].warnings.len(), 1);
}

#[test]
fn a_mismatched_closer_is_body_text() {
    let src = "<sv-prose id=\"b1\">\n</sv-html>\n</sv-prose>\n";
    let page = parse(src);
    assert_eq!(page.blocks.len(), 1);
    assert_eq!(page.blocks[0].body, "</sv-html>");
}

#[test]
fn page_props_and_stray_content_and_unknown_types() {
    let src = "<sv-page label=\"My plan\" outline=\"tabs\">\n\nloose text\n<sv-table id=\"b1\">\ncells\n</sv-table>\n</sv-page>\n";
    let page = parse(src);
    assert_eq!(page.prop("label"), Some("My plan"));
    assert_eq!(page.prop("outline"), Some("tabs"));
    assert_eq!(page.blocks[0].tag_name, "sv-stray");
    assert_eq!(page.blocks[0].body, "loose text");
    assert_eq!(page.blocks[1].tag_name, "sv-table");
    assert!(page.warnings.is_empty(), "matched </sv-page> is not a complaint");
}

#[test]
fn line_ranges_support_splicing() {
    let src = "<sv-page>\n<sv-prose id=\"b1\">\none\n</sv-prose>\n<sv-prose id=\"b2\">\ntwo\n</sv-prose>\n</sv-page>\n";
    let page = parse(src);
    let lines: Vec<&str> = src.lines().collect();
    let b2 = &page.blocks[1];
    assert_eq!(
        lines[b2.lines.0..b2.lines.1].join("\n"),
        "<sv-prose id=\"b2\">\ntwo\n</sv-prose>"
    );
}

#[test]
fn block_text_round_trips() {
    let text = block_text("sv-prose", &[("id", "b7")], "hello\nworld");
    let page = parse(&text);
    assert_eq!(page.blocks[0].body, "hello\nworld");
    assert_eq!(page.blocks[0].id(), Some("b7"));
}

#[test]
fn closers_of_other_types_are_body_text_that_round_trips() {
    let body = "before\n</sv-x>\n</sv-page>\nafter\n";
    let p = parse(&block_text("sv-prose", &[("id", "b1")], body));
    assert!(p.warnings.is_empty());
    assert_eq!(p.blocks.len(), 1);
    assert_eq!(p.blocks[0].tag_name, "sv-prose");
    assert_eq!(p.blocks[0].body, "before\n</sv-x>\n</sv-page>\nafter");
    assert!(p.blocks[0].warnings.is_empty());
}

#[test]
fn block_ranges_come_in_order_without_overlap() {
    let src = "stray\n\n<sv-prose id=\"b1\">\na\n</sv-prose>\n<sv-markup id=\"b2\">\nb\n<sv-html id=\"b3\">\nc\n";
    let p = parse(src);
    let n = src.lines().count();
    for k in 0..p.blocks.len() {
        assert!(p.blocks[k].lines.0 < p.blocks[k].lines.1 && p.blocks[k].lines.1 <= n);
        if k + 1 < p.blocks.len() {
            assert!(p.blocks[k].lines.1 <= p.blocks[k + 1].lines.0);
        }
    }
}
