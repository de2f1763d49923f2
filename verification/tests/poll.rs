use sideview::config::Format;
use sideview::poll::{
    csv_read_error, csv_requests, diff_events, effective_ids, format_label, live_props,
    heartbeat_due, loaded_state, missing_page, missing_state, needs_reload, ord_of, order_changed, page_of, render_page, BlockChange, EntryProps, Rendered,
};

fn page_from(src: &str) -> Vec<Rendered> {
    let page = page_of(src, Format::Sv);
    let contents: Vec<Option<Result<String, String>>> = page.blocks.iter().map(|_| None).collect();
    render_page(&page, "test", &Vec::new(), &contents).blocks
}

fn describe(new: &[Rendered], c: &BlockChange) -> String {
    match c {
        BlockChange::Upsert(i) => format!("upsert {} {}", new[*i].id, new[*i].html),
        BlockChange::Remove(id) => format!("remove {id}"),
    }
}

#[test]
fn reparse_diff_is_surgical() {
    let old = page_from("<sv-prose id=\"b1\">\none\n</sv-prose>\n<sv-prose id=\"b2\">\ntwo\n</sv-prose>\n");
    let new = page_from("<sv-prose id=\"b1\">\none\n</sv-prose>\n<sv-prose id=\"b2\">\ntwo, revised\n</sv-prose>\n");
    let events = diff_events(&old, &new);
    assert_eq!(events.len(), 1, "only the changed block goes out");
    let e = describe(&new, &events[0]);
    assert!(e.contains("b2"));
    assert!(e.contains("revised"));
}

#[test]
fn removed_blocks_emit_removes_and_anonymous_blocks_get_stable_ids() {
    let old = page_from("<sv-prose id=\"b1\">\none\n</sv-prose>\n<sv-markup>\n<b>anon</b>\n</sv-markup>\n");
    let new = page_from("<sv-markup>\n<b>anon</b>\n</sv-markup>\n");
    let events = diff_events(&old, &new);
    let described: Vec<String> = events.iter().map(|e| describe(&new, e)).collect();
    let removes: Vec<_> = described.iter().filter(|e| e.contains("remove")).collect();
    assert_eq!(removes.len(), 1, "{described:?}");
    assert!(removes[0].contains("b1"));
    let upserts: Vec<_> = described.iter().filter(|e| e.contains("upsert")).collect();
    assert_eq!(upserts.len(), 1, "the anon block moved position (ord changed): {described:?}");
    // The anonymous block kept its hash id across the reorder.
    assert_eq!(old[1].id, new[0].id);
    assert!(new[0].id.starts_with('h') && new[0].id.len() == 13, "{}", new[0].id);
}

#[test]
fn a_missing_file_renders_an_honest_block() {
    let s = missing_state("nowhere.sv", None, Format::Sv);
    assert_eq!(s.blocks.len(), 1);
    assert_eq!(s.blocks[0].id, "sv-missing");
    assert!(
        s.blocks[0].html.contains("page file moved or deleted — was nowhere.sv"),
        "{}",
        s.blocks[0].html
    );
    assert_eq!(s.blocks[0].ord, "a000000000000");
    assert!(s.props.is_empty());
    assert_eq!(s.stamp, None);
    assert!(s.file_refs.is_empty());
}

#[test]
fn a_read_page_keeps_its_props_and_stamp() {
    let page = page_of("<sv-page label=\"x\">\n<sv-prose id=\"b1\">\nhi\n</sv-prose>\n", Format::Sv);
    let contents: Vec<Option<Result<String, String>>> = page.blocks.iter().map(|_| None).collect();
    let r = render_page(&page, "p", &Vec::new(), &contents);
    let s = loaded_state(&page, r, Some((5, 9)), Format::Sv, Vec::new());
    assert_eq!(s.props, vec![("label".to_string(), "x".to_string())]);
    assert_eq!(s.stamp, Some((5, 9)));
    assert_eq!(s.blocks.len(), 1);
    assert_eq!(s.blocks[0].id, "b1");
}

#[test]
fn a_missing_file_name_is_escaped() {
    let blocks = missing_page("<b>.sv");
    assert!(blocks[0].html.contains("was &lt;b>.sv"), "{}", blocks[0].html);
}

#[test]
fn an_unchanged_page_sends_nothing() {
    let src = "<sv-prose id=\"b1\">\none\n</sv-prose>\n<sv-markup>\n<b>x</b>\n</sv-markup>\n<sv-markup>\n<b>x</b>\n</sv-markup>\n";
    let a = page_from(src);
    let b = page_from(src);
    assert!(diff_events(&a, &b).is_empty());
}

#[test]
fn first_render_upserts_everything_in_order() {
    let new = page_from("<sv-prose id=\"a\">\none\n</sv-prose>\n<sv-prose id=\"b\">\ntwo\n</sv-prose>\n");
    let events = diff_events(&Vec::new(), &new);
    let idx: Vec<usize> = events
        .iter()
        .map(|e| match e {
            BlockChange::Upsert(i) => *i,
            BlockChange::Remove(_) => usize::MAX,
        })
        .collect();
    assert_eq!(idx, vec![0, 1]);
}

#[test]
fn duplicate_ids_get_occurrence_suffixes() {
    let ids = effective_ids(&vec!["x".to_string(), "y".to_string(), "x".to_string(), "x".to_string()]);
    assert_eq!(ids, vec!["x", "y", "x-2", "x-3"]);
}

#[test]
fn ords_are_twelve_digits_after_an_a() {
    assert_eq!(ord_of(0), "a000000000000");
    assert_eq!(ord_of(42), "a000000000042");
    assert_eq!(ord_of(1234567890123), "a1234567890123");
}

#[test]
fn imported_files_are_one_doc_block() {
    let p = page_of("# Title\n\n<sv-prose>\n", Format::Markdown);
    assert_eq!(p.blocks.len(), 1);
    assert_eq!(p.blocks[0].tag_name, "sv-prose");
    assert_eq!(p.blocks[0].attrs, vec![("id".to_string(), "doc".to_string())]);
    assert_eq!(p.blocks[0].body, "# Title\n\n<sv-prose>\n");
    assert!(p.props.is_empty());
    let p = page_of("<h1>x</h1>", Format::HtmlFrame);
    assert_eq!(p.blocks[0].tag_name, "sv-html");
    let p = page_of("<h1>x</h1>", Format::HtmlInline);
    assert_eq!(p.blocks[0].tag_name, "sv-markup");
}

#[test]
fn csv_blocks_ask_for_confined_files_only() {
    let page = page_of(
        "<sv-csv id=\"a\" src=\" data.csv \">\n</sv-csv>\n<sv-csv id=\"b\" src=\"../up.csv\">\n</sv-csv>\n<sv-csv id=\"c\" src=\"/etc/x.csv\">\n</sv-csv>\n<sv-csv id=\"d\">\n</sv-csv>\n<sv-prose id=\"e\">\nx\n</sv-prose>\n",
        Format::Sv,
    );
    let reqs = csv_requests(&page);
    assert_eq!(reqs[0], Some(Ok("data.csv".to_string())));
    assert_eq!(reqs[1], Some(Err("../up.csv: outside the project".to_string())));
    assert_eq!(reqs[2], Some(Err("/etc/x.csv: outside the project".to_string())));
    assert_eq!(reqs[3], Some(Err("sv-csv needs src=\"<project-relative .csv>\"".to_string())));
    assert_eq!(reqs[4], None);
    assert_eq!(
        csv_read_error("data.csv", "No such file"),
        "data.csv: No such file — the block heals when the file appears"
    );
}

#[test]
fn csv_blocks_render_from_what_was_read() {
    let page = page_of("<sv-csv id=\"t\" src=\"d.csv\">\n</sv-csv>\n", Format::Sv);
    let contents = vec![Some(Ok("a,b\n1,2\n".to_string()))];
    let r = render_page(&page, "p", &Vec::new(), &contents);
    assert!(r.blocks[0].html.contains(">a</th>") && r.blocks[0].html.contains("1 rows · d.csv"), "{}", r.blocks[0].html);
    assert!(r.ext_context[0].is_none());
}

#[test]
fn config_props_fill_only_what_the_file_leaves_unsaid() {
    let page = page_of("<sv-page label=\"Mine\">\n<sv-prose>\nx\n</sv-prose>\n", Format::Sv);
    let entry = EntryProps { label: Some("Theirs".into()), category: Some("docs".into()), order: None };
    let props = live_props(&page, "docs/a.sv", Some(&entry));
    let mut m = std::collections::BTreeMap::new();
    for (k, v) in props {
        m.insert(k, v);
    }
    assert_eq!(m["label"], "Mine");
    assert_eq!(m["category"], "docs");
    assert_eq!(m["tier"], "committed");
    assert_eq!(m["closable"], "config");
    assert_eq!(m["path"], "docs/a.sv");
    assert!(!m.contains_key("order"));
    let props = live_props(&page, ".sideview/pages/s1.sv", None);
    let m: std::collections::BTreeMap<_, _> = props.into_iter().collect();
    assert_eq!(m["tier"], "throwaway");
    assert_eq!(m["closable"], "yes");
}

#[test]
fn format_labels() {
    assert_eq!(format_label(Some(Format::Markdown)), "markdown");
    assert_eq!(format_label(Some(Format::HtmlInline)), "html-inline");
    assert_eq!(format_label(Some(Format::HtmlFrame)), "html-frame");
    assert_eq!(format_label(Some(Format::Sv)), "sv");
    assert_eq!(format_label(None), "sv");
}

#[test]
fn a_tick_reloads_only_what_moved() {
    let s = Some((10, 20));
    assert!(!needs_reload(Some(s), s, false, &vec![(Some((1, 2)), Some((1, 2)))]));
    assert!(needs_reload(None, s, false, &Vec::new()), "a page with no state yet loads");
    assert!(needs_reload(Some(Some((10, 21))), s, false, &Vec::new()));
    assert!(needs_reload(Some(s), s, true, &Vec::new()), "a config change re-reads");
    assert!(needs_reload(Some(s), s, false, &vec![(Some((1, 2)), None)]), "a referenced file went away");
    assert!(heartbeat_due(0) && heartbeat_due(24) && !heartbeat_due(5));
    let a = vec![("p".to_string(), 1i64), ("q".to_string(), 2)];
    let b = vec![("q".to_string(), 2i64), ("p".to_string(), 1)];
    assert!(!order_changed(&a, &a.clone()));
    assert!(order_changed(&a, &b));
}
