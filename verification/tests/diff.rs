use sideview::diff::{outline, render};

const TWO_FILES: &str = "\
diff --git a/src/one.rs b/src/one.rs
index 111..222 100644
--- a/src/one.rs
+++ b/src/one.rs
@@ -1,3 +1,3 @@
 fn main() {
-    let x = 3;
+    let x = 4;
 }
diff --git a/docs/two.md b/docs/two.md
index 333..444 100644
--- a/docs/two.md
+++ b/docs/two.md
@@ -1,2 +1,2 @@
-old heading
+new heading
 body
";

#[test]
fn multi_file_diffs_render_both_views_with_line_numbers() {
    let html = render("b1", TWO_FILES, "unified");
    assert!(html.contains("src/one.rs"), "{html}");
    assert!(html.contains("docs/two.md"));
    assert!(html.contains("sv-view-unified") && html.contains("sv-view-split"));
    assert!(html.contains(r#"<td class="sv-no">2</td>"#), "line numbers: {html}");
    assert!(html.contains(r#"data-view="unified""#));
    assert!(render("b1", TWO_FILES, "split").contains(r#"data-view="split""#));
}

#[test]
fn intraline_emphasis_marks_the_changed_word_only() {
    let html = render("b1", TWO_FILES, "unified");
    assert!(html.contains("<del>3;</del>"), "{html}");
    assert!(html.contains("<ins>4;</ins>"), "{html}");
    assert!(html.contains("let x = <del>"), "shared prefix stays plain: {html}");
}

#[test]
fn outline_lists_file_paths_and_anchors_match_the_html() {
    let headings = outline("b1", TWO_FILES);
    assert_eq!(
        headings.iter().map(|h| h.text.as_str()).collect::<Vec<_>>(),
        vec!["src/one.rs", "docs/two.md"]
    );
    let html = render("b1", TWO_FILES, "unified");
    for h in &headings {
        assert_eq!(h.level, 2);
        let anchor = format!(r#"id="{}""#, h.id.as_deref().unwrap());
        assert!(html.contains(&anchor), "missing {anchor}");
    }
}

#[test]
fn garbage_degrades_to_raw_mono_and_never_errors() {
    let html = render("b1", "this is <b>not</b> a diff at all", "unified");
    assert!(html.contains("sv-degraded-note"), "{html}");
    assert!(html.contains("&lt;b&gt;not&lt;/b&gt;"), "raw and escaped: {html}");
    assert!(outline("b1", "not a diff").is_empty());
}

#[test]
fn renames_and_creates_are_titled_honestly() {
    let renamed = "\
diff --git a/old.rs b/new.rs
similarity index 90%
rename from old.rs
rename to new.rs
";
    let headings = outline("b1", renamed);
    assert_eq!(headings.len(), 1);
    assert_eq!(headings[0].text, "old.rs → new.rs");
}

#[test]
fn unrelated_pairs_get_no_emphasis() {
    let (o, n) = sideview::diff::emphasize(
        &vec!["completely different content".to_string()],
        &vec!["zzz qqq vvv".to_string()],
    );
    assert!(!o[0].contains("<del>"), "{o:?}");
    assert!(!n[0].contains("<ins>"), "{n:?}");
}
