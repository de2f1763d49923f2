use sideview::csv::block;
use sideview::format::parse;

fn csv_block(attrs: &str, body_file_content: &str) -> String {
    let src = format!("<sv-csv id=\"b1\" src=\"data.csv\"{attrs}>\n</sv-csv>");
    let page = parse(&src);
    block("b1", &page.blocks[0], Ok(body_file_content.to_string()))
}

#[test]
fn csv_renders_diff_tints_strips_directives_and_aligns_numbers() {
    let html = csv_block(
        "",
        "_sv_row,station,temp\nadd,Berwick,11.2\ndel,Hexham,9.4\nmod,Alnwick,14.9\n,Kelso,8.0\n",
    );
    assert!(html.contains(r#"<tr class="sv-csv-add">"#));
    assert!(html.contains(r#"<tr class="sv-csv-del">"#));
    assert!(html.contains(r#"<tr class="sv-csv-mod">"#));
    assert!(!html.contains("_sv_row"), "directive columns never display");
    assert!(html.contains("<th>station</th>"));
    assert!(html.contains(r#"<th class="sv-num">temp</th>"#), "numeric column right-aligns");
    assert!(html.contains("4 rows"));
}

#[test]
fn cell_marks_tint_one_cell_and_never_display() {
    let html = csv_block(
        "",
        "_sv_row,_sv_mark_temp,station,temp\nmod,mod,Berwick,11.2\n,,Hexham,9.4\n",
    );
    assert!(html.contains(r#"<tr class="sv-csv-mod">"#), "row mark still applies: {html}");
    assert!(
        html.contains(r#"<td class="sv-num sv-csv-mod">11.2</td>"#),
        "the named cell wears the mark: {html}"
    );
    assert!(!html.contains("_sv_mark"), "directive columns never display");
    assert!(!html.contains(r#"sv-csv-mod">9.4"#), "unmarked rows' cells stay bare: {html}");
    let html = csv_block("", "_sv_mark_ghost,a\nadd,1\n");
    assert!(!html.contains("sv-csv-add"), "unknown column name is a no-op: {html}");
}

#[test]
fn sqlnow_directives_hide_and_format_marks_render() {
    let html = csv_block(
        "",
        "_sqlnow_format_temp,_sqlnow_cell_temp,station,temp\nchanged,\"{\"\"kind\"\":\"\"bar\"\"}\",Berwick,11.2\nadded,,Kelso,8.0\n",
    );
    assert!(
        html.contains(r#"<td class="sv-num sv-csv-mod">11.2</td>"#),
        "changed → mod tint: {html}"
    );
    assert!(html.contains(r#"sv-csv-add">8.0"#), "added → add tint: {html}");
    assert!(!html.contains("_sqlnow_"), "the whole prefix hides: {html}");
    assert!(!html.contains("bar"), "widget JSON never renders as data: {html}");
    let html = csv_block("", "_sqlnow_format_a,a\nheat:0.7,1\n");
    assert!(!html.contains("sv-csv-add") && !html.contains("sv-csv-mod"), "{html}");
}

#[test]
fn csv_caps_at_review_scale_and_says_so() {
    let mut data = String::from("n\n");
    for i in 0..2500 {
        data.push_str(&format!("{i}\n"));
    }
    let html = csv_block("", &data);
    assert!(html.contains("showing 2000 of 2500 rows"), "the cap is the requirement");
    assert_eq!(html.matches("<tr>").count(), 2001, "2000 body rows + the header row");
}

#[test]
fn csv_freeze_height_and_failure_are_honest() {
    let html = csv_block(r#" freeze="2" height="24rem""#, "a,b\n1,2\n");
    assert!(html.contains(r#"data-sv-freeze="2""#));
    assert!(html.contains("max-height:24rem"));
    let html = csv_block(r#" freeze="9""#, "a\n1\n");
    assert!(!html.contains("data-sv-freeze"));
    let src = "<sv-csv id=\"b1\" src=\"gone.csv\">\n</sv-csv>";
    let page = parse(src);
    let html = block("b1", &page.blocks[0], Err("no file gone.csv".into()));
    assert!(html.contains("sv-degraded-note") && html.contains("gone.csv"));
    let html = csv_block("", "a\n<script>x</script>\n");
    assert!(html.contains("&lt;script&gt;"));
}

#[test]
fn renders_diff_tints_strips_directives_and_aligns_numbers() {
    let html = csv_block(
        "",
        "_sv_row,station,temp\nadd,Berwick,11.2\ndel,Hexham,9.4\nmod,Alnwick,14.9\n,Kelso,8.0\n",
    );
    assert!(html.contains(r#"<tr class="sv-csv-add">"#));
    assert!(html.contains(r#"<tr class="sv-csv-del">"#));
    assert!(html.contains(r#"<tr class="sv-csv-mod">"#));
    assert!(!html.contains("_sv_row"), "directive columns never display");
    assert!(html.contains("<th>station</th>"));
    assert!(html.contains(r#"<th class="sv-num">temp</th>"#), "numeric column right-aligns");
    assert!(html.contains("4 rows"));
}

#[test]
fn caps_at_review_scale_and_says_so() {
    let mut data = String::from("n\n");
    for i in 0..2500 {
        data.push_str(&format!("{i}\n"));
    }
    let html = csv_block("", &data);
    assert!(html.contains("showing 2000 of 2500 rows"), "the cap is the requirement");
    assert_eq!(html.matches("<tr>").count(), 2001, "2000 body rows + the header row");
}

#[test]
fn freeze_height_and_failure_are_honest() {
    let html = csv_block(r#" freeze="2" height="24rem""#, "a,b\n1,2\n");
    assert!(html.contains(r#"data-sv-freeze="2""#));
    assert!(html.contains("max-height:24rem"));
    let html = csv_block(r#" freeze="9""#, "a\n1\n");
    assert!(!html.contains("data-sv-freeze"));
    let src = "<sv-csv id=\"b1\" src=\"gone.csv\">\n</sv-csv>";
    let page = parse(src);
    let html = block("b1", &page.blocks[0], Err("no file gone.csv".into()));
    assert!(html.contains("sv-degraded-note") && html.contains("gone.csv"));
    let html = csv_block("", "a\n<script>x</script>\n");
    assert!(html.contains("&lt;script&gt;"));
}
