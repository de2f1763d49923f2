//! The daemon sends rendered HTML, not sources. comrak runs here, the design
//! vocabulary lives here, and the SSE payload is the finished element — so
//! the client never needs a markdown parser and cannot drift out of sync.

use vstd::prelude::*;

use crate::format::{attr_lookup, Block, BlockV};
use crate::session::{opt_str, pct_encode};
use crate::text::{
    chars_of, concat, esc_attr, esc_text, is_alnum, is_ascii_alnum, is_ascii_digit, is_digit,
    push_attr_escaped, push_char, push_str, push_text_escaped, str_eq,
};
use vstd::utf8::encode_utf8;

use comrak::arena_tree::NodeEdge;
use comrak::nodes::NodeValue;
use comrak::options::{Extension, Plugins, Render};
use comrak::plugins::syntect::SyntectAdapterBuilder;

verus! {

// ---- escaping and small pieces -----------------------------------------------------

/// HTML text escaping: `&`, `<` and `>`.
pub fn text_escape(s: &str) -> (r: String)
    ensures
        r@ == esc_text(s@),
{
    let mut r = String::new();
    push_text_escaped(&mut r, s);
    r
}

/// Attribute escaping: `&` and `"`.
pub fn attr_escape(s: &str) -> (r: String)
    ensures
        r@ == esc_attr(s@),
{
    let mut r = String::new();
    push_attr_escaped(&mut r, s);
    r
}

pub open spec fn preformatted_spec(body: Seq<char>) -> Seq<char> {
    "<pre><code>"@ + esc_text(body) + "</code></pre>"@
}

/// A body shown raw: escaped, monospaced.
pub fn preformatted(body: &str) -> (r: String)
    ensures
        r@ == preformatted_spec(body@),
{
    let mut r = String::new();
    push_str(&mut r, "<pre><code>");
    push_text_escaped(&mut r, body);
    push_str(&mut r, "</code></pre>");
    r
}

/// A character a CSS length may hold.
pub open spec fn css_length_char(c: char) -> bool {
    is_alnum(c) || c == '.' || c == '%'
}

/// A plausible CSS length (`40rem`, `600px`, `85vh`, `50%`) and nothing more:
/// one to sixteen ASCII letters, digits, `.` or `%`, starting with a digit.
pub open spec fn is_css_length_spec(h: Seq<char>) -> bool {
    &&& 0 < h.len() <= 16
    &&& forall|i: int| 0 <= i < h.len() ==> css_length_char(#[trigger] h[i])
    &&& is_digit(h[0])
}

/// Not because the author is distrusted (markup blocks are unsanitized by
/// design), but because a typo'd unit should fall back to the default rather
/// than emit a broken style attribute. Every accepted character is ASCII, so
/// the byte length the check is phrased in is the character count.
pub fn is_css_length(h: &str) -> (r: bool)
    ensures
        r == is_css_length_spec(h@),
{
    let v = chars_of(h);
    if v.len() == 0 || v.len() > 16 {
        return false;
    }
    let mut i: usize = 0;
    while i < v.len()
        invariant
            i <= v.len(),
            v@ == h@,
            forall|j: int| 0 <= j < i ==> css_length_char(#[trigger] v@[j]),
        decreases v.len() - i,
    {
        let c = v[i];
        if !(is_ascii_alnum(c) || c == '.' || c == '%') {
            return false;
        }
        i = i + 1;
    }
    is_ascii_digit(v[0])
}

/// The inline style an explicit, plausible `height` pins a frame with.
pub open spec fn height_style(height: Option<Seq<char>>) -> Seq<char> {
    match height {
        Some(h) => if is_css_length_spec(h) {
            " data-sv-fixed=\"1\" style=\"height:"@ + h + "\""@
        } else {
            Seq::empty()
        },
        None => Seq::empty(),
    }
}

fn push_height_style(out: &mut String, height: Option<&str>)
    ensures
        final(out)@ == old(out)@ + height_style(opt_str(height)),
{
    match height {
        Some(h) => {
            if is_css_length(h) {
                push_str(out, " data-sv-fixed=\"1\" style=\"height:");
                push_str(out, h);
                push_str(out, "\"");
            }
        },
        None => {},
    }
}

// ---- markdown --------------------------------------------------------------------

/// Names the HTML comrak renders for markdown under the options prose uses
/// (GFM tables, strikethrough, task lists, autolinks, footnotes; raw HTML
/// kept; fenced code highlighted by syntect with `sv-`-prefixed classes),
/// with heading ids under the given prefix when one is given.
pub uninterp spec fn markdown_html(text: Seq<char>, header_id_prefix: Option<Seq<char>>) -> Seq<char>;

/// `comrak::markdown_to_html_with_plugins` with prose's options. Raw HTML
/// passes through: prose is the author's own HTML-bearing markdown, the same
/// trust story as markup blocks.
#[verifier::external_body]
pub(crate) fn markdown_opts(text: &str, header_id_prefix: Option<&str>) -> (r: String)
    ensures
        r@ == markdown_html(text@, opt_str(header_id_prefix)),
{
    let mut options = comrak::Options::default();
    options.extension.table = true;
    options.extension.strikethrough = true;
    options.extension.tasklist = true;
    options.extension.autolink = true;
    options.extension.footnotes = true;
    options.render = Render::builder().maybe_unsafe(Some(true)).build();
    options.extension.header_id_prefix = header_id_prefix.map(str::to_string);
    let adapter = SyntectAdapterBuilder::new().css_with_class_prefix("sv-").build();
    let mut plugins = Plugins::default();
    plugins.render.codefence_syntax_highlighter = Some(&adapter);
    comrak::markdown_to_html_with_plugins(text, &options, &plugins)
}

/// Names the HTML comrak renders for a comment body: prose's extensions, but
/// safe — raw HTML escaped, never omitted (old comments talk about tags) —
/// and no heading ids (a comment is an utterance, not structure).
pub uninterp spec fn comment_html(text: Seq<char>) -> Seq<char>;

/// `comrak::markdown_to_html_with_plugins` for a comment body: a comment comes
/// from whoever can see the page, so safe mode.
#[verifier::external_body]
pub fn comment_body(text: &str) -> (r: String)
    ensures
        r@ == comment_html(text@),
{
    let mut options = comrak::Options::default();
    options.extension.table = true;
    options.extension.strikethrough = true;
    options.extension.tasklist = true;
    options.extension.autolink = true;
    options.extension.footnotes = true;
    options.render.escape = true;
    let adapter = SyntectAdapterBuilder::new().css_with_class_prefix("sv-").build();
    let mut plugins = Plugins::default();
    plugins.render.codefence_syntax_highlighter = Some(&adapter);
    comrak::markdown_to_html_with_plugins(text, &options, &plugins)
}

// ---- notes -----------------------------------------------------------------------

/// The spot an sv-note names: `target · at`, the target alone, or nothing.
pub open spec fn note_place(b: BlockV) -> Seq<char> {
    match (attr_lookup(b.attrs, "target"@), attr_lookup(b.attrs, "at"@)) {
        (Some(t), Some(a)) => t + " · "@ + a,
        (Some(t), None) => t,
        _ => Seq::empty(),
    }
}

/// An sv-note: a quiet reference line naming its spot, then its markdown
/// body.
pub open spec fn note_spec(b: BlockV) -> Seq<char> {
    let place = note_place(b);
    let refline = if place.len() == 0 {
        Seq::empty()
    } else {
        "<div class=\"sv-note-ref\">→ "@ + esc_text(place) + "</div>"@
    };
    refline + markdown_html(b.body, None)
}

fn note(b: &Block) -> (r: String)
    ensures
        r@ == note_spec(b@),
{
    let mut place = String::new();
    match (b.attr("target"), b.attr("at")) {
        (Some(t), Some(a)) => {
            push_str(&mut place, t);
            push_str(&mut place, " · ");
            push_str(&mut place, a);
        },
        (Some(t), None) => {
            push_str(&mut place, t);
        },
        _ => {},
    }
    let mut r = String::new();
    if !place.as_str().is_empty() {
        push_str(&mut r, "<div class=\"sv-note-ref\">→ ");
        push_text_escaped(&mut r, place.as_str());
        push_str(&mut r, "</div>");
    }
    push_str(&mut r, markdown_opts(b.body.as_str(), None).as_str());
    r
}

// ---- frames ----------------------------------------------------------------------

/// What every isolated document gets in front of it: the base stylesheets,
/// an import map so a block can `import { createApp } from 'vue'`, and the
/// envelope script — a versioned postMessage channel carrying size out and
/// theme in.
pub const IFRAME_PRELUDE: &'static str = r#"<link rel="stylesheet" href="/assets/vendor/bootstrap.min.css"><link rel="stylesheet" href="/assets/sideview.css"><script type="importmap">{"imports":{"vue":"/assets/vendor/vue.esm-browser.prod.js"}}</script><script>document.documentElement.setAttribute('data-bs-theme',matchMedia('(prefers-color-scheme: dark)').matches?'dark':'light');addEventListener('message',(e)=>{const m=e.data;if(m&&m.sv===1&&m.type==='theme')document.documentElement.setAttribute('data-bs-theme',m.mode)});(()=>{const report=()=>parent.postMessage({sv:1,type:'size',height:document.documentElement.scrollHeight},'*');const ready=()=>{report();const ro=new ResizeObserver(report);ro.observe(document.documentElement);if(document.body)ro.observe(document.body)};if(document.readyState==='complete')ready();else addEventListener('load',ready)})()</script>"#;

/// A whole document isolated in a sandboxed iframe, its prelude and body
/// attribute-escaped into `srcdoc`.
pub open spec fn iframe_spec(document: Seq<char>, height: Option<Seq<char>>) -> Seq<char> {
    "<iframe class=\"sv-html\" sandbox=\"allow-scripts\""@ + height_style(height) + " srcdoc=\""@
        + esc_attr(IFRAME_PRELUDE@ + document) + "\"></iframe>"@
}

/// An explicit `height` attribute is the agent saying "this tall": it pins
/// the iframe (`data-sv-fixed` tells the parent to ignore size reports).
pub fn iframe(document: &str, height: Option<&str>) -> (r: String)
    ensures
        r@ == iframe_spec(document@, opt_str(height)),
{
    let mut r = String::new();
    push_str(&mut r, "<iframe class=\"sv-html\" sandbox=\"allow-scripts\"");
    push_height_style(&mut r, height);
    push_str(&mut r, " srcdoc=\"");
    let mut with_style = String::new();
    push_str(&mut with_style, IFRAME_PRELUDE);
    push_str(&mut with_style, document);
    push_attr_escaped(&mut r, with_style.as_str());
    push_str(&mut r, "\"></iframe>");
    r
}

/// An extension block: an iframe on our own origin at the extension's
/// per-block base.
pub open spec fn ext_block_spec(
    id: Seq<char>,
    ext_name: Seq<char>,
    page_id: Seq<char>,
    height: Option<Seq<char>>,
) -> Seq<char> {
    let src = "/x/"@ + ext_name + "/"@ + pct_encode(encode_utf8(page_id)) + "/"@ + pct_encode(
        encode_utf8(id),
    ) + "/"@;
    "<section class=\"sv-block\" data-block=\""@ + id + "\" data-type=\"sv-"@ + ext_name
        + "\"><iframe class=\"sv-ext\" src=\""@ + src + "\""@ + height_style(height)
        + "></iframe></section>"@
}

/// Same-origin and unsandboxed — the registration was the trust act — so the
/// parent can measure it; the entry gets its injections when the frame is
/// fetched, not here.
pub fn ext_block(id: &str, ext_name: &str, page_id: &str, height: Option<&str>) -> (r: String)
    ensures
        r@ == ext_block_spec(id@, ext_name@, page_id@, opt_str(height)),
{
    let mut r = String::new();
    push_str(&mut r, "<section class=\"sv-block\" data-block=\"");
    push_str(&mut r, id);
    push_str(&mut r, "\" data-type=\"sv-");
    push_str(&mut r, ext_name);
    push_str(&mut r, "\"><iframe class=\"sv-ext\" src=\"");
    push_str(&mut r, "/x/");
    push_str(&mut r, ext_name);
    push_str(&mut r, "/");
    push_str(&mut r, crate::session::encode(page_id).as_str());
    push_str(&mut r, "/");
    push_str(&mut r, crate::session::encode(id).as_str());
    push_str(&mut r, "/");
    push_str(&mut r, "\"");
    push_height_style(&mut r, height);
    push_str(&mut r, "></iframe></section>");
    r
}


// ---- outlines --------------------------------------------------------------------

/// One heading a block contains, as reported to the page for its outline.
/// `id` is an anchor reachable from the page: comrak-generated for prose,
/// never for iframe-isolated html.
pub struct Heading {
    pub level: u8,
    pub text: String,
    pub id: Option<String>,
}

pub open spec fn heading_view(h: Heading) -> (u8, Seq<char>, Option<Seq<char>>) {
    (
        h.level,
        h.text@,
        match h.id {
            Some(s) => Some(s@),
            None => None,
        },
    )
}

pub open spec fn headings_view(v: Seq<Heading>) -> Seq<(u8, Seq<char>, Option<Seq<char>>)> {
    v.map_values(|h: Heading| heading_view(h))
}


/// What the outline reads of a markdown parse: each node's start (a heading
/// with its level, a text or code-span literal, anything else) and its end,
/// in document order.
pub enum MdEdge {
    Heading(u8),
    Text(String),
    Code(String),
    Other,
    End,
}

pub enum MdEdgeV {
    Heading(u8),
    Text(Seq<char>),
    Code(Seq<char>),
    Other,
    End,
}

impl View for MdEdge {
    type V = MdEdgeV;

    open spec fn view(&self) -> MdEdgeV {
        match self {
            MdEdge::Heading(l) => MdEdgeV::Heading(*l),
            MdEdge::Text(t) => MdEdgeV::Text(t@),
            MdEdge::Code(c) => MdEdgeV::Code(c@),
            MdEdge::Other => MdEdgeV::Other,
            MdEdge::End => MdEdgeV::End,
        }
    }
}

pub open spec fn edges_view(v: Seq<MdEdge>) -> Seq<MdEdgeV> {
    v.map_values(|e: MdEdge| e@)
}

/// Names the edges of comrak's parse of a markdown text under prose's
/// extensions.
pub uninterp spec fn markdown_edges(text: Seq<char>) -> Seq<MdEdgeV>;

/// `comrak::parse_document` and the tree's `traverse()`, each edge converted
/// to an `MdEdge`.
#[verifier::external_body]
fn md_edges(text: &str) -> (r: Vec<MdEdge>)
    ensures
        edges_view(r@) == markdown_edges(text@),
{
    let options = comrak::Options { extension: Extension { table: true, strikethrough: true, tasklist: true, autolink: true, footnotes: true, ..Default::default() }, ..Default::default() };
    let arena = comrak::Arena::new();
    let root = comrak::parse_document(&arena, text, &options);
    root.traverse().map(|edge| match edge {
        NodeEdge::Start(n) => match &n.data.borrow().value {
            NodeValue::Heading(h) => MdEdge::Heading(h.level),
            NodeValue::Text(t) => MdEdge::Text(t.to_string()),
            NodeValue::Code(c) => MdEdge::Code(c.literal.to_string()),
            _ => MdEdge::Other,
        },
        NodeEdge::End(_) => MdEdge::End,
    }).collect()
}

/// Names the anchors comrak's `Anchorizer` gives a sequence of heading
/// texts fed to one anchorizer in order (so later duplicates are suffixed).
pub uninterp spec fn anchors_of(texts: Seq<Seq<char>>) -> Seq<Seq<char>>;

/// `comrak::Anchorizer::anchorize` over the texts in order, one anchorizer
/// for all of them: one anchor per text.
#[verifier::external_body]
fn anchors(texts: &Vec<String>) -> (r: Vec<String>)
    ensures
        r@.len() == texts@.len(),
        crate::format::strs_view(r@) == anchors_of(crate::format::strs_view(texts@)),
{
    let mut anchorizer = comrak::Anchorizer::new();
    let mut out = Vec::new();
    for t in texts {
        out.push(anchorizer.anchorize(t));
    }
    out
}

/// The heading scan's state: nesting depth, the heading being read (level,
/// the depth it opened at, its text so far), and the headings finished.
pub struct HeadScan {
    pub depth: nat,
    pub cur: Option<(u8, nat, Seq<char>)>,
    pub done: Seq<(u8, Seq<char>)>,
}

/// A heading's text is the text and code-span literals beneath it.
pub open spec fn head_step(st: HeadScan, e: MdEdgeV) -> HeadScan {
    match e {
        MdEdgeV::End => {
            let d: nat = if st.depth > 0 { (st.depth - 1) as nat } else { 0 };
            match st.cur {
                Some(c) => if d == c.1 {
                    HeadScan { depth: d, cur: None, done: st.done.push((c.0, c.2)) }
                } else {
                    HeadScan { depth: d, cur: st.cur, done: st.done }
                },
                None => HeadScan { depth: d, cur: None, done: st.done },
            }
        },
        MdEdgeV::Heading(l) => HeadScan {
            depth: st.depth + 1,
            cur: if st.cur is None { Some((l, st.depth, Seq::empty())) } else { st.cur },
            done: st.done,
        },
        MdEdgeV::Text(t) => HeadScan {
            depth: st.depth + 1,
            cur: match st.cur {
                Some(c) => Some((c.0, c.1, c.2 + t)),
                None => None,
            },
            done: st.done,
        },
        MdEdgeV::Code(t) => HeadScan {
            depth: st.depth + 1,
            cur: match st.cur {
                Some(c) => Some((c.0, c.1, c.2 + t)),
                None => None,
            },
            done: st.done,
        },
        MdEdgeV::Other => HeadScan { depth: st.depth + 1, cur: st.cur, done: st.done },
    }
}

pub open spec fn head_fold(es: Seq<MdEdgeV>) -> HeadScan
    decreases es.len(),
{
    if es.len() == 0 {
        HeadScan { depth: 0, cur: None, done: Seq::empty() }
    } else {
        head_step(head_fold(es.drop_last()), es.last())
    }
}

/// A prose block's outline: its headings in order, each with its level, its
/// text, and the anchor comrak's renderer gives it under the block's prefix.
pub open spec fn prose_outline_spec(text: Seq<char>, prefix: Seq<char>) -> Seq<(u8, Seq<char>, Option<Seq<char>>)> {
    let hs = head_fold(markdown_edges(text)).done;
    let an = anchors_of(hs.map_values(|h: (u8, Seq<char>)| h.1));
    Seq::new(hs.len(), |i: int| (hs[i].0, hs[i].1, Some(prefix + an[i])))
}

fn prose_outline(text: &str, prefix: &str) -> (r: Vec<Heading>)
    ensures
        headings_view(r@) == prose_outline_spec(text@, prefix@),
{
    let edges = md_edges(text);
    let ghost ev = edges_view(edges@);
    let mut depth: usize = 0;
    let mut cur: Option<(u8, usize, String)> = None;
    let mut levels: Vec<u8> = Vec::new();
    let mut texts: Vec<String> = Vec::new();
    let mut i: usize = 0;
    assert(ev.take(0) =~= Seq::<MdEdgeV>::empty());
    while i < edges.len()
        invariant
            i <= edges.len(),
            ev == edges_view(edges@),
            ev == markdown_edges(text@),
            depth <= i,
            levels.len() == texts.len(),
            ({
                let st = head_fold(ev.take(i as int));
                &&& st.depth == depth
                &&& st.cur == match cur {
                    Some(c) => Some((c.0, c.1 as nat, c.2@)),
                    None => None,
                }
                &&& st.done.len() == levels.len()
                &&& forall|k: int| 0 <= k < levels.len() ==> #[trigger] st.done[k] == (levels@[k], texts@[k]@)
            }),
        decreases edges.len() - i,
    {
        assert(ev.take(i + 1).drop_last() =~= ev.take(i as int));
        let ghost st = head_fold(ev.take(i as int));
        match &edges[i] {
            MdEdge::End => {
                let d: usize = if depth > 0 { depth - 1 } else { 0 };
                match &cur {
                    Some(c) => {
                        if d == c.1 {
                            levels.push(c.0);
                            texts.push(c.2.clone());
                            cur = None;
                        }
                    },
                    None => {},
                }
                depth = d;
            },
            MdEdge::Heading(l) => {
                if cur.is_none() {
                    cur = Some((*l, depth, String::new()));
                }
                depth = depth + 1;
            },
            MdEdge::Text(t) => {
                cur = match cur {
                    Some(c) => {
                        let mut s = c.2;
                        push_str(&mut s, t.as_str());
                        Some((c.0, c.1, s))
                    },
                    None => None,
                };
                depth = depth + 1;
            },
            MdEdge::Code(t) => {
                cur = match cur {
                    Some(c) => {
                        let mut s = c.2;
                        push_str(&mut s, t.as_str());
                        Some((c.0, c.1, s))
                    },
                    None => None,
                };
                depth = depth + 1;
            },
            MdEdge::Other => {
                depth = depth + 1;
            },
        }
        i = i + 1;
    }
    assert(ev.take(edges.len() as int) =~= ev);
    let ghost hs = head_fold(ev).done;
    assert(crate::format::strs_view(texts@) =~= hs.map_values(|h: (u8, Seq<char>)| h.1));
    let ids = anchors(&texts);
    let mut r: Vec<Heading> = Vec::new();
    let mut k: usize = 0;
    while k < levels.len()
        invariant
            k <= levels.len(),
            levels.len() == texts.len(),
            ids@.len() == texts@.len(),
            hs.len() == levels.len(),
            forall|j: int| 0 <= j < levels.len() ==> #[trigger] hs[j] == (levels@[j], texts@[j]@),
            crate::format::strs_view(ids@) == anchors_of(hs.map_values(|h: (u8, Seq<char>)| h.1)),
            headings_view(r@) =~= prose_outline_spec(text@, prefix@).take(k as int),
            hs == head_fold(markdown_edges(text@)).done,
        decreases levels.len() - k,
    {
        let mut id = String::new();
        push_str(&mut id, prefix);
        push_str(&mut id, ids[k].as_str());
        let ghost prev = r@;
        r.push(Heading { level: levels[k], text: texts[k].clone(), id: Some(id) });
        assert(headings_view(r@) =~= headings_view(prev).push(heading_view(r@.last())));
        k = k + 1;
    }
    r
}

// ---- blocks ----------------------------------------------------------------------

/// The parser's warnings, shown in the block.
pub open spec fn warnings_html(ws: Seq<Seq<char>>) -> Seq<char> {
    concat(Seq::new(ws.len(), |i: int| "<div class=\"sv-parse-warning\">"@ + esc_text(ws[i]) + "</div>"@))
}

pub fn push_warnings(out: &mut String, ws: &Vec<String>)
    ensures
        final(out)@ == old(out)@ + warnings_html(crate::format::strs_view(ws@)),
{
    let ghost wv = crate::format::strs_view(ws@);
    let ghost rows = Seq::new(wv.len(), |i: int| "<div class=\"sv-parse-warning\">"@ + esc_text(wv[i]) + "</div>"@);
    let mut i: usize = 0;
    assert(rows.take(0) =~= Seq::<Seq<char>>::empty());
    while i < ws.len()
        invariant
            i <= ws.len(),
            wv == crate::format::strs_view(ws@),
            rows == Seq::new(wv.len(), |i: int| "<div class=\"sv-parse-warning\">"@ + esc_text(wv[i]) + "</div>"@),
            out@ == old(out)@ + concat(rows.take(i as int)),
        decreases ws.len() - i,
    {
        push_str(out, "<div class=\"sv-parse-warning\">");
        push_text_escaped(out, ws[i].as_str());
        push_str(out, "</div>");
        proof {
            crate::text::lemma_concat_take(rows, i as int);
        }
        i = i + 1;
    }
    assert(rows.take(ws.len() as int) =~= rows);
}

/// The class and inner HTML each block type renders as. Unknown types and
/// stray content degrade visibly with their content shown raw.
pub open spec fn block_parts(id: Seq<char>, b: BlockV) -> (Seq<char>, Seq<char>) {
    let t = b.tag_name;
    if t == "sv-prose"@ {
        ("sv-block"@, markdown_html(b.body, Some(id + seq!['-'])))
    } else if t == "sv-markup"@ {
        ("sv-block"@, b.body)
    } else if t == "sv-html"@ {
        ("sv-block"@, iframe_spec(b.body, attr_lookup(b.attrs, "height"@)))
    } else if t == "sv-note"@ {
        ("sv-block sv-note"@, note_spec(b))
    } else if t == "sv-diff"@ {
        (
            "sv-block"@,
            crate::diff::render_spec(
                id,
                b.body,
                match attr_lookup(b.attrs, "view"@) {
                    Some(v) => v,
                    None => "unified"@,
                },
            ),
        )
    } else if t == "sv-stray"@ {
        ("sv-block sv-degraded"@, preformatted_spec(b.body))
    } else {
        (
            "sv-block sv-degraded"@,
            "<p class=\"sv-degraded-note\">this sideview doesn't know `"@ + esc_text(t)
                + "` — upgrade to show it properly</p>"@ + preformatted_spec(b.body),
        )
    }
}

/// The element the page inserts for a block.
pub open spec fn block_spec(id: Seq<char>, b: BlockV) -> Seq<char> {
    let (class, body) = block_parts(id, b);
    "<section class=\""@ + class + "\" data-block=\""@ + id + "\" data-type=\""@ + esc_text(b.tag_name)
        + "\">"@ + warnings_html(b.warnings) + body + "</section>"@
}

fn block_body(id: &str, b: &Block) -> (r: (&'static str, String))
    ensures
        (r.0@, r.1@) == block_parts(id@, b@),
{
    let t = b.tag_name.as_str();
    if str_eq(t, "sv-prose") {
        let mut prefix = String::new();
        push_str(&mut prefix, id);
        push_char(&mut prefix, '-');
        assert(prefix@ =~= id@ + seq!['-']);
        ("sv-block", markdown_opts(b.body.as_str(), Some(prefix.as_str())))
    } else if str_eq(t, "sv-markup") {
        ("sv-block", b.body.clone())
    } else if str_eq(t, "sv-html") {
        ("sv-block", iframe(b.body.as_str(), b.attr("height")))
    } else if str_eq(t, "sv-note") {
        ("sv-block sv-note", note(b))
    } else if str_eq(t, "sv-diff") {
        let view = match b.attr("view") {
            Some(v) => v,
            None => "unified",
        };
        ("sv-block", crate::diff::render(id, b.body.as_str(), view))
    } else if str_eq(t, "sv-stray") {
        ("sv-block sv-degraded", preformatted(b.body.as_str()))
    } else {
        let mut r = String::new();
        push_str(&mut r, "<p class=\"sv-degraded-note\">this sideview doesn't know `");
        push_text_escaped(&mut r, t);
        push_str(&mut r, "` — upgrade to show it properly</p>");
        push_str(&mut r, preformatted(b.body.as_str()).as_str());
        ("sv-block sv-degraded", r)
    }
}

/// Render a parsed block into the element the page inserts. Never errors:
/// unknown types and parse warnings render as visibly marked content — a
/// newer file meeting an older binary degrades honestly, not silently.
pub fn block(id: &str, b: &Block) -> (r: String)
    ensures
        r@ == block_spec(id@, b@),
{
    let (class, body) = block_body(id, b);
    let mut r = String::new();
    push_str(&mut r, "<section class=\"");
    push_str(&mut r, class);
    push_str(&mut r, "\" data-block=\"");
    push_str(&mut r, id);
    push_str(&mut r, "\" data-type=\"");
    push_text_escaped(&mut r, b.tag_name.as_str());
    push_str(&mut r, "\">");
    push_warnings(&mut r, &b.warnings);
    push_str(&mut r, body.as_str());
    push_str(&mut r, "</section>");
    r
}

/// The outline a block supplies, derived from its content the same way its
/// HTML is: prose headings are document structure; a diff's files are its
/// sections; markup, html and everything else contribute nothing.
pub open spec fn outline_spec(id: Seq<char>, b: BlockV) -> Seq<(u8, Seq<char>, Option<Seq<char>>)> {
    if b.tag_name == "sv-prose"@ {
        prose_outline_spec(b.body, id + seq!['-'])
    } else if b.tag_name == "sv-diff"@ {
        crate::diff::outline_spec(id, b.body)
    } else {
        Seq::empty()
    }
}

pub fn outline(id: &str, b: &Block) -> (r: Vec<Heading>)
    ensures
        headings_view(r@) == outline_spec(id@, b@),
{
    let t = b.tag_name.as_str();
    if str_eq(t, "sv-prose") {
        let mut prefix = String::new();
        push_str(&mut prefix, id);
        push_char(&mut prefix, '-');
        assert(prefix@ =~= id@ + seq!['-']);
        prose_outline(b.body.as_str(), prefix.as_str())
    } else if str_eq(t, "sv-diff") {
        crate::diff::outline(id, b.body.as_str())
    } else {
        let r: Vec<Heading> = Vec::new();
        assert(headings_view(r@) =~= Seq::<(u8, Seq<char>, Option<Seq<char>>)>::empty());
        r
    }
}


/// A frame's height is pinned exactly when the attribute is a plausible CSS
/// length: one to sixteen characters, each an ASCII letter, an ASCII digit,
/// `.` or `%`, the first a digit (`50%`, `40rem`, `600px`). Then the frame
/// carries `data-sv-fixed="1"` and that height as its style; anything else
/// (or no attribute) leaves it to size itself.
pub proof fn lemma_height_pins_plausible_lengths(h: Seq<char>)
    ensures
        ({
            let plausible = 0 < h.len() <= 16 && ('0' <= h[0] && h[0] <= '9') && forall|i: int|
                0 <= i < h.len() ==> {
                    let c = #[trigger] h[i];
                    ('a' <= c && c <= 'z') || ('A' <= c && c <= 'Z') || ('0' <= c && c <= '9')
                        || c == '.' || c == '%'
                };
            &&& plausible ==> height_style(Some(h)) == " data-sv-fixed=\"1\" style=\"height:"@ + h + "\""@
            &&& !plausible ==> height_style(Some(h)).len() == 0
        }),
        height_style(None).len() == 0,
{
}

} // verus!
