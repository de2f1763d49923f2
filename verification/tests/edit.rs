use sideview::edit::{append_block, next_block_id, rm, session_set, splice, update, Kind};
use sideview::format::{block_text, parse};

#[test]
fn append_assigns_ids_past_the_highest_ever_used() {
    let v1 = append_block(String::new(), &block_text("sv-prose", &[("id", "b1")], "one"));
    let page = parse(&v1);
    assert_eq!(page.blocks.len(), 1);
    assert_eq!(next_block_id(&page), "b2");
    let b1 = page.blocks[0].lines;
    let v2 = splice(&v1, b1, None);
    let after = parse(&v2);
    assert_eq!(after.blocks.len(), 0);
    assert!(parse(&v2).prop("label").is_none());
}

#[test]
fn append_lands_inside_the_page_wrapper() {
    let one = append_block(String::new(), &block_text("sv-prose", &[("id", "b1")], "one"));
    let two = append_block(one, &block_text("sv-markup", &[("id", "b2")], "<b>two</b>"));
    let page = parse(&two);
    assert_eq!(page.blocks.len(), 2);
    assert_eq!(page.blocks[1].id(), Some("b2"));
    assert!(
        two.trim_end().ends_with("</sv-page>"),
        "blocks go inside the wrapper: {two}"
    );
}

#[test]
fn splice_replaces_a_block_in_place() {
    let src = "<sv-page>\n\n<sv-prose id=\"b1\">\none\n</sv-prose>\n\n<sv-prose id=\"b2\">\ntwo\n</sv-prose>\n\n</sv-page>\n";
    let page = parse(src);
    let replaced = splice(
        src,
        page.blocks[0].lines,
        Some(&block_text("sv-markup", &[("id", "b1")], "<i>uno</i>")),
    );
    let after = parse(&replaced);
    assert_eq!(after.blocks.len(), 2);
    assert_eq!(after.blocks[0].tag_name, "sv-markup");
    assert_eq!(after.blocks[0].body, "<i>uno</i>");
    assert_eq!(after.blocks[1].body, "two", "the neighbour is untouched");
}

#[test]
fn splice_removal_does_not_stack_blank_lines() {
    let src = "<sv-page>\n\n<sv-prose id=\"b1\">\none\n</sv-prose>\n\n<sv-prose id=\"b2\">\ntwo\n</sv-prose>\n\n</sv-page>\n";
    let page = parse(src);
    let removed = splice(src, page.blocks[0].lines, None);
    assert!(!removed.contains("\n\n\n"), "no doubled blanks: {removed:?}");
    assert_eq!(parse(&removed).blocks.len(), 1);
}

const THREE: &str = "<sv-page label=\"demo\">\n\n<sv-prose id=\"b1\">\none\n</sv-prose>\n\n<sv-markup id=\"b2\" note=\"x\">\n<b>two</b>\n</sv-markup>\n\n<sv-prose id=\"b3\">\nthree\n</sv-prose>\n\n</sv-page>\n";

#[test]
fn update_changes_only_the_named_block() {
    let before = parse(THREE);
    assert!(before.warnings.is_empty());
    let after_text = update(THREE, "b2", &Kind::Prose, "*two*\n").unwrap();
    let after = parse(&after_text);
    assert!(after.warnings.is_empty());
    assert_eq!(after.prop("label"), Some("demo"));
    assert_eq!(after.blocks.len(), 3);
    assert_eq!(after.blocks[1].tag_name, "sv-prose");
    assert_eq!(after.blocks[1].body, "*two*");
    assert_eq!(after.blocks[1].attrs, before.blocks[1].attrs);
    for j in [0usize, 2] {
        assert_eq!(after.blocks[j].tag_name, before.blocks[j].tag_name);
        assert_eq!(after.blocks[j].attrs, before.blocks[j].attrs);
        assert_eq!(after.blocks[j].body, before.blocks[j].body);
        assert!(after.blocks[j].warnings.is_empty());
    }
}

#[test]
fn rm_takes_out_only_the_named_block() {
    let before = parse(THREE);
    let after_text = rm(THREE, "b2").unwrap();
    let after = parse(&after_text);
    assert!(after.warnings.is_empty());
    assert_eq!(after.prop("label"), Some("demo"));
    assert_eq!(after.blocks.len(), 2);
    assert_eq!(after.blocks[0].body, before.blocks[0].body);
    assert_eq!(after.blocks[1].id(), Some("b3"));
    assert_eq!(after.blocks[1].body, before.blocks[2].body);
    assert!(!after_text.contains("\n\n\n"));
}

#[test]
fn update_and_rm_refuse_an_unknown_block() {
    assert_eq!(update(THREE, "b9", &Kind::Prose, "x").unwrap_err(), "no block b9 in this session");
    assert_eq!(rm(THREE, "b9").unwrap_err(), "no block b9 in this session");
}

#[test]
fn session_set_reads_back_and_leaves_blocks_alone() {
    let before = parse(THREE);
    let text = session_set(THREE, Some("renamed"), Some("tabs")).unwrap();
    let after = parse(&text);
    assert!(after.warnings.is_empty());
    assert_eq!(after.prop("label"), Some("renamed"));
    assert_eq!(after.prop("outline"), Some("tabs"));
    assert_eq!(after.blocks.len(), before.blocks.len());
    for j in 0..before.blocks.len() {
        assert_eq!(after.blocks[j].tag_name, before.blocks[j].tag_name);
        assert_eq!(after.blocks[j].attrs, before.blocks[j].attrs);
        assert_eq!(after.blocks[j].body, before.blocks[j].body);
    }
}

#[test]
fn session_set_puts_a_page_tag_in_front_of_a_bare_file() {
    let bare = "<sv-prose id=\"b1\">\none\n</sv-prose>\n";
    let text = session_set(bare, Some("first"), None).unwrap();
    assert!(text.starts_with("<sv-page label=\"first\">\n\n"));
    let after = parse(&text);
    assert_eq!(after.prop("label"), Some("first"));
    assert_eq!(after.blocks.len(), 1);
    assert_eq!(after.blocks[0].body, "one");
    let cleared = session_set(&text, Some(""), Some("auto")).unwrap();
    assert_eq!(parse(&cleared).prop("label"), None);
}

#[test]
fn removing_a_lower_numbered_block_keeps_the_next_id() {
    let src = "<sv-prose id=\"b1\">\none\n</sv-prose>\n<sv-prose id=\"b3\">\nthree\n</sv-prose>\n<sv-prose id=\"b2\">\ntwo\n</sv-prose>\n";
    assert_eq!(next_block_id(&parse(src)), "b4");
    let without = rm(src, "b2").unwrap();
    assert_eq!(next_block_id(&parse(&without)), "b4");
    let without_top = rm(src, "b3").unwrap();
    assert_eq!(next_block_id(&parse(&without_top)), "b3");
}

#[test]
fn session_set_reads_back_even_on_a_messy_page() {
    let messy = "loose text\n<sv-prose id=\"b1\">\nnever closed\n<sv-page label=\"old\">\n<sv-page label=\"dup\">\n";
    assert!(!parse(messy).warnings.is_empty());
    let text = session_set(messy, Some("fresh"), None).unwrap();
    assert_eq!(parse(&text).prop("label"), Some("fresh"));
}
