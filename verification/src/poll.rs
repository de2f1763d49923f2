//! What the live view knows about a page, derived from its file: the
//! effective id of every block, the element and headings each one renders
//! as, the files its csv blocks ask to read, and the surgical diff between
//! two renderings of the same page. The caller owns the file system, the
//! clock and the wire; everything here is a function of what it is handed.

use std::collections::hash_map::DefaultHasher;
use std::hash::{Hash, Hasher};

use vstd::prelude::*;

use crate::config::{Extension, Format};
use crate::format::{attr_lookup, attrs_view, parse, parse_spec, strs_view, Block, BlockV, Page, PageV};
use crate::models::dotdot_at;
use crate::render::{block_spec, ext_block_spec, headings_view, outline_spec, Heading};
use crate::session::opt_str;
use crate::text::{
    chars_of, dec, digit_char, push_char, push_dec, push_str, push_usize, starts_with, str_eq,
    string_of, trim, trim_chars,
};

verus! {

// ---- fixed-width numbers ---------------------------------------------------------

/// `s` left-padded with zeros to at least `w` characters, as `{:0w}` pads.
pub open spec fn zero_pad(s: Seq<char>, w: nat) -> Seq<char> {
    if s.len() < w {
        Seq::new((w - s.len()) as nat, |_i: int| '0') + s
    } else {
        s
    }
}

pub open spec fn hex_digit(d: nat) -> char {
    if d < 10 { digit_char(d) }
    else if d == 10 { 'a' } else if d == 11 { 'b' } else if d == 12 { 'c' }
    else if d == 13 { 'd' } else if d == 14 { 'e' } else { 'f' }
}

/// Lower-case hexadecimal digits of `n`, as `{:x}` writes them.
pub open spec fn hex(n: nat) -> Seq<char>
    decreases n,
{
    if n < 16 {
        seq![hex_digit(n)]
    } else {
        hex(n / 16).push(hex_digit(n % 16))
    }
}

fn hex_digit_of(d: u64) -> (c: char)
    requires
        d < 16,
    ensures
        c == hex_digit(d as nat),
{
    if d == 0 { '0' } else if d == 1 { '1' } else if d == 2 { '2' } else if d == 3 { '3' }
    else if d == 4 { '4' } else if d == 5 { '5' } else if d == 6 { '6' } else if d == 7 { '7' }
    else if d == 8 { '8' } else if d == 9 { '9' } else if d == 10 { 'a' } else if d == 11 { 'b' }
    else if d == 12 { 'c' } else if d == 13 { 'd' } else if d == 14 { 'e' } else { 'f' }
}

fn push_hex(out: &mut String, n: u64)
    ensures
        final(out)@ == old(out)@ + hex(n as nat),
    decreases n,
{
    if n >= 16 {
        push_hex(out, n / 16);
    }
    push_char(out, hex_digit_of(n % 16));
    assert(out@ =~= old(out)@ + hex(n as nat));
}

/// Appends `digits` left-padded with zeros to `w` characters.
fn push_padded(out: &mut String, digits: &String, w: usize)
    ensures
        final(out)@ == old(out)@ + zero_pad(digits@, w as nat),
{
    let n = digits.unicode_len();
    if n < w {
        let mut k: usize = 0;
        while k < w - n
            invariant
                n == digits@.len(),
                n < w,
                k <= w - n,
                out@ == old(out)@ + Seq::new(k as nat, |_i: int| '0'),
            decreases w - n - k,
        {
            push_char(out, '0');
            k = k + 1;
            assert(out@ =~= old(out)@ + Seq::new(k as nat, |_i: int| '0'));
        }
    }
    push_str(out, digits.as_str());
    assert(out@ =~= old(out)@ + zero_pad(digits@, w as nat));
}

/// The position key of the `i`-th block: `a` and twelve digits, so keys sort
/// as strings in block order.
pub open spec fn ord_spec(i: nat) -> Seq<char> {
    seq!['a'] + zero_pad(dec(i), 12)
}

pub fn ord_of(i: usize) -> (r: String)
    ensures
        r@ == ord_spec(i as nat),
{
    let mut digits = String::new();
    push_usize(&mut digits, i);
    let mut r = String::new();
    push_char(&mut r, 'a');
    push_padded(&mut r, &digits, 12);
    assert(r@ =~= ord_spec(i as nat));
    r
}

// ---- block ids -------------------------------------------------------------------

/// What std's `DefaultHasher::new()` finishes to after hashing the pair
/// `(tag, body)`.
pub uninterp spec fn default_hash(tag: Seq<char>, body: Seq<char>) -> u64;

/// Hashes `(tag, body)` with `std::collections::hash_map::DefaultHasher::new()`
/// and returns `finish()`. The contract only names the result: `new` starts
/// from fixed keys, so the same pair hashes the same in every process of one
/// build, and the algorithm itself is std's.
#[verifier::external_body]
fn content_hash(tag: &str, body: &str) -> (r: u64)
    ensures
        r == default_hash(tag@, body@),
{
    let mut h = DefaultHasher::new();
    (tag, body).hash(&mut h);
    h.finish()
}

/// The id of a block that names none: `h` and the low 48 bits of its content
/// hash in twelve hex digits — stable across reorders; an edit reads as a
/// remove and an add.
pub open spec fn hash_id(h: u64) -> Seq<char> {
    seq!['h'] + zero_pad(hex((h as nat) % 0x1_0000_0000_0000), 12)
}

fn hash_id_of(h: u64) -> (r: String)
    ensures
        r@ == hash_id(h),
{
    let mut digits = String::new();
    push_hex(&mut digits, h % 0x1_0000_0000_0000);
    let mut r = String::new();
    push_char(&mut r, 'h');
    push_padded(&mut r, &digits, 12);
    assert(r@ =~= hash_id(h));
    r
}

/// A block's base id: its `id` attribute, else its content hash id.
pub open spec fn base_id(b: BlockV) -> Seq<char> {
    match attr_lookup(b.attrs, "id"@) {
        Some(id) => id,
        None => hash_id(default_hash(b.tag_name, b.body)),
    }
}

pub fn base_id_of(b: &Block) -> (r: String)
    ensures
        r@ == base_id(b@),
{
    match b.id() {
        Some(id) => {
            let mut r = String::new();
            push_str(&mut r, id);
            r
        },
        None => hash_id_of(content_hash(b.tag_name.as_str(), b.body.as_str())),
    }
}

/// How often `x` occurs in `s`.
pub open spec fn occurrences(s: Seq<Seq<char>>, x: Seq<char>) -> nat
    decreases s.len(),
{
    if s.len() == 0 {
        0
    } else {
        occurrences(s.drop_last(), x) + if s.last() == x { 1nat } else { 0nat }
    }
}

/// The id block `i` is addressed by: its base the first time that base
/// occurs, `base-2`, `base-3`, … at later occurrences.
pub open spec fn effective_id(bases: Seq<Seq<char>>, i: int) -> Seq<char> {
    let n = occurrences(bases.take(i + 1), bases[i]);
    if n <= 1 {
        bases[i]
    } else {
        bases[i] + seq!['-'] + dec(n)
    }
}

proof fn lemma_occurrences_grow(s: Seq<Seq<char>>, x: Seq<char>, a: int, b: int)
    requires
        0 <= a <= b <= s.len(),
    ensures
        occurrences(s.take(b), x) >= occurrences(s.take(a), x),
    decreases b - a,
{
    if b > a {
        lemma_occurrences_grow(s, x, a, b - 1);
        assert(s.take(b).drop_last() =~= s.take(b - 1));
    }
}

/// Blocks that share a base are told apart: each repeat gets its own
/// occurrence suffix, so two blocks with the same base never share an
/// effective id.
pub proof fn lemma_repeated_bases_get_distinct_ids(bases: Seq<Seq<char>>, i: int, j: int)
    requires
        0 <= i < j < bases.len(),
        bases[i] == bases[j],
    ensures
        effective_id(bases, i) != effective_id(bases, j),
{
    let x = bases[i];
    assert(bases.take(i + 1).drop_last() =~= bases.take(i));
    assert(bases.take(j + 1).drop_last() =~= bases.take(j));
    lemma_occurrences_grow(bases, x, i + 1, j);
    let ni = occurrences(bases.take(i + 1), x);
    let nj = occurrences(bases.take(j + 1), x);
    assert(ni >= 1 && nj >= ni + 1);
    let ej = x + seq!['-'] + dec(nj);
    assert(effective_id(bases, j) == ej);
    if ni <= 1 {
        assert(effective_id(bases, i).len() < ej.len());
    } else {
        let ei = x + seq!['-'] + dec(ni);
        if ei == ej {
            assert(ei.subrange(x.len() as int + 1, ei.len() as int) =~= dec(ni));
            assert(ej.subrange(x.len() as int + 1, ej.len() as int) =~= dec(nj));
            crate::text::lemma_dec_value(ni);
            crate::text::lemma_dec_value(nj);
        }
    }
}

fn occurrences_upto(bases: &Vec<String>, i: usize) -> (n: usize)
    requires
        i < bases.len(),
    ensures
        n == occurrences(strs_view(bases@).take(i + 1), bases@[i as int]@),
        n <= i + 1,
{
    let ghost bv = strs_view(bases@);
    let mut n: usize = 0;
    let mut j: usize = 0;
    assert(bv.take(0) =~= Seq::<Seq<char>>::empty());
    while j <= i
        invariant
            i < bases.len(),
            j <= i + 1,
            n <= j,
            bv == strs_view(bases@),
            n == occurrences(bv.take(j as int), bv[i as int]),
        decreases i + 1 - j,
    {
        assert(bv.take(j + 1).drop_last() =~= bv.take(j as int));
        assert(bv.take(j + 1).last() == bases@[j as int]@);
        if str_eq(bases[j].as_str(), bases[i].as_str()) {
            n = n + 1;
        }
        j = j + 1;
    }
    n
}

/// Effective ids for a page's base ids, in block order.
pub fn effective_ids(bases: &Vec<String>) -> (r: Vec<String>)
    ensures
        r.len() == bases.len(),
        forall|i: int| 0 <= i < bases.len() ==> #[trigger] r@[i]@ == effective_id(strs_view(bases@), i),
{
    let ghost bv = strs_view(bases@);
    let mut r: Vec<String> = Vec::new();
    let mut i: usize = 0;
    while i < bases.len()
        invariant
            i <= bases.len(),
            r.len() == i,
            bv == strs_view(bases@),
            forall|k: int| 0 <= k < i ==> #[trigger] r@[k]@ == effective_id(bv, k),
        decreases bases.len() - i,
    {
        let n = occurrences_upto(bases, i);
        let mut id = String::new();
        push_str(&mut id, bases[i].as_str());
        if n > 1 {
            push_char(&mut id, '-');
            push_usize(&mut id, n);
        }
        assert(id@ == effective_id(bv, i as int));
        r.push(id);
        i = i + 1;
    }
    r
}

// ---- the page a file reads as ---------------------------------------------------

/// The one block an imported file becomes, by format.
pub open spec fn import_tag(fmt: Format) -> Seq<char> {
    match fmt {
        Format::Markdown => "sv-prose"@,
        Format::HtmlInline => "sv-markup"@,
        Format::HtmlFrame => "sv-html"@,
        Format::Sv => "sv-page"@,
    }
}

/// An `.sv` file parses; an imported file is exactly one block with the
/// stable id `doc`, so its comments survive every edit to it, and no props:
/// label and category come from config, the file cannot say.
pub open spec fn page_of_spec(source: Seq<char>, fmt: Format) -> PageV {
    if fmt == Format::Sv {
        parse_spec(source)
    } else {
        PageV {
            props: Seq::empty(),
            blocks: seq![
                BlockV {
                    tag_name: import_tag(fmt),
                    attrs: seq![("id"@, "doc"@)],
                    body: source,
                    warnings: Seq::empty(),
                    lines: (0, 0),
                },
            ],
            warnings: Seq::empty(),
        }
    }
}

fn imported_page(source: &str, fmt: Format) -> (p: Page)
    requires
        fmt != Format::Sv,
    ensures
        p@ == page_of_spec(source@, fmt),
{
    let tag = match fmt {
        Format::Markdown => "sv-prose",
        Format::HtmlInline => "sv-markup",
        _ => "sv-html",
    };
    let mut tag_name = String::new();
    push_str(&mut tag_name, tag);
    let mut k = String::new();
    push_str(&mut k, "id");
    let mut v = String::new();
    push_str(&mut v, "doc");
    let mut body = String::new();
    push_str(&mut body, source);
    let mut attrs: Vec<(String, String)> = Vec::new();
    attrs.push((k, v));
    let mut blocks: Vec<Block> = Vec::new();
    blocks.push(Block { tag_name, attrs, body, warnings: Vec::new(), lines: (0, 0) });
    let p = Page { props: Vec::new(), blocks, warnings: Vec::new() };
    assert(p@.blocks[0].attrs =~= seq![("id"@, "doc"@)]);
    assert(p@.blocks[0].warnings =~= Seq::<Seq<char>>::empty());
    assert(p@.props =~= Seq::<(Seq<char>, Seq<char>)>::empty());
    assert(p@.warnings =~= Seq::<Seq<char>>::empty());
    assert(p@.blocks =~= page_of_spec(source@, fmt).blocks);
    p
}

/// The page a file's text reads as in a given format.
pub fn page_of(source: &str, fmt: Format) -> (p: Page)
    ensures
        p@ == page_of_spec(source@, fmt),
{
    if fmt == Format::Sv {
        parse(source)
    } else {
        imported_page(source, fmt)
    }
}

// ---- a file that is gone -----------------------------------------------------------

/// Only `<` replaced, by `&lt;`.
pub open spec fn lt_escape(s: Seq<char>) -> Seq<char>
    decreases s.len(),
{
    if s.len() == 0 {
        Seq::empty()
    } else {
        lt_escape(s.drop_last()) + if s.last() == '<' {
            seq!['&', 'l', 't', ';']
        } else {
            seq![s.last()]
        }
    }
}

fn push_lt_escaped(out: &mut String, s: &str)
    ensures
        final(out)@ == old(out)@ + lt_escape(s@),
{
    let v = chars_of(s);
    let mut i: usize = 0;
    assert(v@.take(0) =~= Seq::<char>::empty());
    while i < v.len()
        invariant
            i <= v.len(),
            v@ == s@,
            out@ == old(out)@ + lt_escape(v@.take(i as int)),
        decreases v.len() - i,
    {
        assert(v@.take(i + 1).drop_last() =~= v@.take(i as int));
        if v[i] == '<' {
            push_char(out, '&');
            push_char(out, 'l');
            push_char(out, 't');
            push_char(out, ';');
        } else {
            push_char(out, v[i]);
        }
        i = i + 1;
        assert(out@ =~= old(out)@ + lt_escape(v@.take(i as int)));
    }
    assert(v@.take(v@.len() as int) =~= v@);
}

/// The one honest block a page whose file cannot be read shows.
pub open spec fn missing_html(rel: Seq<char>) -> Seq<char> {
    "<section class=\"sv-block sv-degraded\" data-block=\"sv-missing\" data-type=\"sv-missing\"><p class=\"sv-degraded-note\">"@
        + lt_escape("page file moved or deleted — was "@ + rel) + "</p></section>"@
}

/// One block as the page sees it: comparing these decides whether an
/// upsert goes out — html, position and headings are all part of "changed".
pub struct Rendered {
    pub id: String,
    pub ord: String,
    pub html: String,
    pub headings: Vec<Heading>,
}

pub struct RenderedV {
    pub id: Seq<char>,
    pub ord: Seq<char>,
    pub html: Seq<char>,
    pub headings: Seq<(u8, Seq<char>, Option<Seq<char>>)>,
}

impl View for Rendered {
    type V = RenderedV;

    open spec fn view(&self) -> RenderedV {
        RenderedV { id: self.id@, ord: self.ord@, html: self.html@, headings: headings_view(self.headings@) }
    }
}

pub open spec fn rendered_view(v: Seq<Rendered>) -> Seq<RenderedV> {
    v.map_values(|r: Rendered| r@)
}

/// A missing or unreadable page file renders as one block saying so rather
/// than as an empty page — a binding pointing at nothing is worth showing.
pub fn missing_page(rel: &str) -> (r: Vec<Rendered>)
    ensures
        rendered_view(r@) == seq![
            RenderedV {
                id: "sv-missing"@,
                ord: "a000000000000"@,
                html: missing_html(rel@),
                headings: Seq::empty(),
            },
        ],
{
    let mut msg = String::new();
    push_str(&mut msg, "page file moved or deleted — was ");
    push_str(&mut msg, rel);
    let mut html = String::new();
    push_str(
        &mut html,
        "<section class=\"sv-block sv-degraded\" data-block=\"sv-missing\" data-type=\"sv-missing\"><p class=\"sv-degraded-note\">",
    );
    push_lt_escaped(&mut html, msg.as_str());
    push_str(&mut html, "</p></section>");
    let mut id = String::new();
    push_str(&mut id, "sv-missing");
    let mut ord = String::new();
    push_str(&mut ord, "a000000000000");
    let headings: Vec<Heading> = Vec::new();
    let mut r: Vec<Rendered> = Vec::new();
    r.push(Rendered { id, ord, html, headings });
    assert(headings_view(r@[0].headings@) =~= Seq::<(u8, Seq<char>, Option<Seq<char>>)>::empty());
    assert(rendered_view(r@) =~= seq![
        RenderedV {
            id: "sv-missing"@,
            ord: "a000000000000"@,
            html: missing_html(rel@),
            headings: Seq::empty(),
        },
    ]);
    r
}

// ---- what csv blocks read ---------------------------------------------------------

/// The `src` a csv block names, trimmed.
pub open spec fn csv_src(b: BlockV) -> Seq<char> {
    trim(
        match attr_lookup(b.attrs, "src"@) {
            Some(v) => v,
            None => Seq::empty(),
        },
    )
}

/// A path that leaves the project: absolute, or with a `..` segment.
pub open spec fn outside_project(src: Seq<char>) -> bool {
    (src.len() > 0 && src[0] == '/') || exists|i: int| #[trigger] dotdot_at(src, i)
}

/// The file a csv block asks to read — project-relative, confined to the
/// project — or why it asks for none.
pub open spec fn csv_request(b: BlockV) -> Result<Seq<char>, Seq<char>> {
    let src = csv_src(b);
    if src.len() == 0 {
        Err("sv-csv needs src=\"<project-relative .csv>\""@)
    } else if outside_project(src) {
        Err(src + ": outside the project"@)
    } else {
        Ok(src)
    }
}

pub open spec fn request_view(r: Option<Result<String, String>>) -> Option<Result<Seq<char>, Seq<char>>> {
    match r {
        Some(Ok(s)) => Some(Ok(s@)),
        Some(Err(e)) => Some(Err(e@)),
        None => None,
    }
}

pub open spec fn requests_view(v: Seq<Option<Result<String, String>>>) -> Seq<Option<Result<Seq<char>, Seq<char>>>> {
    v.map_values(|r: Option<Result<String, String>>| request_view(r))
}

/// Per block: the read request of each csv block, nothing for the others.
pub open spec fn csv_requests_spec(p: PageV) -> Seq<Option<Result<Seq<char>, Seq<char>>>> {
    Seq::new(
        p.blocks.len(),
        |i: int|
            if p.blocks[i].tag_name == "sv-csv"@ {
                Some(csv_request(p.blocks[i]))
            } else {
                None
            },
    )
}

fn has_dotdot(v: &Vec<char>) -> (r: bool)
    ensures
        r == exists|i: int| #[trigger] dotdot_at(v@, i),
{
    let mut i: usize = 0;
    while i < v.len()
        invariant
            i <= v.len(),
            forall|k: int| 0 <= k < i ==> !#[trigger] dotdot_at(v@, k),
        decreases v.len() - i,
    {
        let start = i == 0 || v[i - 1] == '/';
        if start && v.len() - i >= 2 && v[i] == '.' && v[i + 1] == '.' && (v.len() - i == 2 || v[i
            + 2] == '/') {
            assert(dotdot_at(v@, i as int));
            return true;
        }
        i = i + 1;
    }
    assert forall|k: int| !#[trigger] dotdot_at(v@, k) by {
        if 0 <= k < v@.len() {
        }
    }
    false
}

fn csv_request_of(b: &Block) -> (r: Result<String, String>)
    ensures
        request_view(Some(r)) == Some(csv_request(b@)),
{
    let raw = match b.attr("src") {
        Some(v) => chars_of(v),
        None => Vec::new(),
    };
    proof {
        if attr_lookup(b@.attrs, "src"@) is None {
            assert(raw@ =~= Seq::<char>::empty());
        }
    }
    let src = trim_chars(&raw);
    if src.len() == 0 {
        let mut e = String::new();
        push_str(&mut e, "sv-csv needs src=\"<project-relative .csv>\"");
        return Err(e);
    }
    if src[0] == '/' || has_dotdot(&src) {
        let mut e = string_of(&src);
        push_str(&mut e, ": outside the project");
        return Err(e);
    }
    Ok(string_of(&src))
}

/// What the caller reads before rendering: for each csv block the file it
/// asks for (or the reason it asks for none), nothing for other blocks.
pub fn csv_requests(page: &Page) -> (r: Vec<Option<Result<String, String>>>)
    ensures
        requests_view(r@) == csv_requests_spec(page@),
{
    let mut r: Vec<Option<Result<String, String>>> = Vec::new();
    let mut i: usize = 0;
    while i < page.blocks.len()
        invariant
            i <= page.blocks.len(),
            r.len() == i,
            forall|k: int| 0 <= k < i ==> #[trigger] request_view(r@[k]) == csv_requests_spec(page@)[k],
        decreases page.blocks.len() - i,
    {
        let b = &page.blocks[i];
        if str_eq(b.tag_name.as_str(), "sv-csv") {
            let q = csv_request_of(b);
            r.push(Some(q));
        } else {
            r.push(None);
        }
        i = i + 1;
    }
    assert(requests_view(r@) =~= csv_requests_spec(page@));
    r
}

/// The reason a csv block shows when its file could not be read.
pub open spec fn csv_read_error_spec(src: Seq<char>, err: Seq<char>) -> Seq<char> {
    src + ": "@ + err + " — the block heals when the file appears"@
}

pub fn csv_read_error(src: &str, err: &str) -> (r: String)
    ensures
        r@ == csv_read_error_spec(src@, err@),
{
    let mut r = String::new();
    push_str(&mut r, src);
    push_str(&mut r, ": ");
    push_str(&mut r, err);
    push_str(&mut r, " — the block heals when the file appears");
    r
}

// ---- a page's state ----------------------------------------------------------------

/// Everything the daemon knows about one page, derived from its file and
/// rebuilt whenever the file changes. A stamp is a file's modification time
/// (milliseconds since the epoch) and length.
pub struct PageState {
    pub props: Vec<(String, String)>,
    pub fmt: Format,
    pub blocks: Vec<Rendered>,
    pub stamp: Option<(i64, u64)>,
    /// Per block: the raw attributes and body of a block an extension
    /// claims, kept for the frame's injection.
    pub ext_blocks: Vec<Option<(Vec<(String, String)>, String)>>,
    /// The files the blocks reference, with the stamps they were rendered from.
    pub file_refs: Vec<(String, Option<(i64, u64)>)>,
}

/// The state of a page whose file cannot be read: one honest block saying
/// so, no properties, nothing referenced, and the stamp it was seen with.
pub fn missing_state(rel: &str, stamp: Option<(i64, u64)>, fmt: Format) -> (s: PageState)
    ensures
        s.props@.len() == 0,
        s.stamp == stamp,
        s.fmt == fmt,
        rendered_view(s.blocks@) == seq![
            RenderedV {
                id: "sv-missing"@,
                ord: "a000000000000"@,
                html: missing_html(rel@),
                headings: Seq::empty(),
            },
        ],
        s.ext_blocks@.len() == 0,
        s.file_refs@.len() == 0,
{
    PageState {
        props: Vec::new(),
        fmt,
        blocks: missing_page(rel),
        stamp,
        ext_blocks: Vec::new(),
        file_refs: Vec::new(),
    }
}

/// The state of a page whose file was read: its parsed properties, its
/// rendered blocks and their extension context, the stamp it was read at,
/// and the referenced files' stamps.
pub fn loaded_state(
    page: &Page,
    rendered: PageRender,
    stamp: Option<(i64, u64)>,
    fmt: Format,
    file_refs: Vec<(String, Option<(i64, u64)>)>,
) -> (s: PageState)
    ensures
        attrs_view(s.props@) == attrs_view(page.props@),
        s.fmt == fmt,
        s.blocks@ == rendered.blocks@,
        s.ext_blocks@ == rendered.ext_context@,
        s.stamp == stamp,
        s.file_refs@ == file_refs@,
{
    PageState {
        props: copy_attrs(&page.props),
        fmt,
        blocks: rendered.blocks,
        stamp,
        ext_blocks: rendered.ext_context,
        file_refs,
    }
}

// ---- rendering a page ----------------------------------------------------------------

pub open spec fn ext_names(exts: Seq<Extension>) -> Seq<Seq<char>> {
    exts.map_values(|e: Extension| e.manifest.name@)
}

/// The first registered extension claiming a block tag, by name.
pub open spec fn claiming_ext(names: Seq<Seq<char>>, tag: Seq<char>) -> Option<Seq<char>>
    decreases names.len(),
{
    if names.len() == 0 {
        None
    } else if "sv-"@ + names[0] == tag {
        Some(names[0])
    } else {
        claiming_ext(names.drop_first(), tag)
    }
}

pub open spec fn content_of(c: Option<Result<Seq<char>, Seq<char>>>) -> Result<Seq<char>, Seq<char>> {
    match c {
        Some(r) => r,
        None => Err(Seq::empty()),
    }
}

/// Block `i` of a page, rendered under its effective id: a csv block from
/// the content read for it, a tag a registered extension claims as that
/// extension's frame, everything else through the block renderer (which
/// ends at the honest unknown-tag block). Only the last kind has headings.
pub open spec fn rendered_spec(
    b: BlockV,
    id: Seq<char>,
    i: nat,
    names: Seq<Seq<char>>,
    page_id: Seq<char>,
    content: Option<Result<Seq<char>, Seq<char>>>,
) -> RenderedV {
    if b.tag_name == "sv-csv"@ {
        RenderedV {
            id,
            ord: ord_spec(i),
            html: crate::csv::block_spec(id, b, content_of(content)),
            headings: Seq::empty(),
        }
    } else {
        match claiming_ext(names, b.tag_name) {
            Some(n) => RenderedV {
                id,
                ord: ord_spec(i),
                html: ext_block_spec(id, n, page_id, attr_lookup(b.attrs, "height"@)),
                headings: Seq::empty(),
            },
            None => RenderedV { id, ord: ord_spec(i), html: block_spec(id, b), headings: outline_spec(id, b) },
        }
    }
}

pub open spec fn page_bases(p: PageV) -> Seq<Seq<char>> {
    Seq::new(p.blocks.len(), |j: int| base_id(p.blocks[j]))
}

/// The effective ids of a page's blocks, in order.
pub open spec fn page_ids(p: PageV) -> Seq<Seq<char>> {
    Seq::new(p.blocks.len(), |i: int| effective_id(page_bases(p), i))
}

pub open spec fn ctx_view(c: Option<(Vec<(String, String)>, String)>) -> Option<(Seq<(Seq<char>, Seq<char>)>, Seq<char>)> {
    match c {
        Some((a, b)) => Some((attrs_view(a@), b@)),
        None => None,
    }
}

/// A page rendered: its blocks, and for each block an extension claims the
/// raw context (attributes and body) the extension's frame is handed when
/// it is served.
pub struct PageRender {
    pub blocks: Vec<Rendered>,
    pub ext_context: Vec<Option<(Vec<(String, String)>, String)>>,
}

fn copy_attrs(a: &Vec<(String, String)>) -> (r: Vec<(String, String)>)
    ensures
        attrs_view(r@) == attrs_view(a@),
{
    let mut r: Vec<(String, String)> = Vec::new();
    let mut i: usize = 0;
    while i < a.len()
        invariant
            i <= a.len(),
            r.len() == i,
            attrs_view(r@) == attrs_view(a@).take(i as int),
        decreases a.len() - i,
    {
        let mut k = String::new();
        push_str(&mut k, a[i].0.as_str());
        let mut v = String::new();
        push_str(&mut v, a[i].1.as_str());
        let ghost before = r@;
        r.push((k, v));
        proof {
            assert(r@ == before.push(r@[i as int]));
            assert(attrs_view(r@)[i as int] == attrs_view(a@)[i as int]);
            assert forall|m: int| 0 <= m < i implies #[trigger] attrs_view(r@)[m] == attrs_view(before)[m] by {
                assert(r@[m] == before[m]);
            }
        }
        i = i + 1;
        assert(attrs_view(r@) =~= attrs_view(a@).take(i as int));
    }
    assert(attrs_view(a@).take(a@.len() as int) =~= attrs_view(a@));
    r
}

fn claiming(exts: &Vec<Extension>, tag: &str) -> (r: Option<usize>)
    ensures
        match r {
            Some(k) => k < exts.len() && claiming_ext(ext_names(exts@), tag@) == Some(exts@[k as int].manifest.name@),
            None => claiming_ext(ext_names(exts@), tag@) is None,
        },
{
    let ghost names = ext_names(exts@);
    let mut k: usize = 0;
    assert(names.subrange(0, names.len() as int) =~= names);
    while k < exts.len()
        invariant
            k <= exts.len(),
            names == ext_names(exts@),
            claiming_ext(names, tag@) == claiming_ext(names.subrange(k as int, names.len() as int), tag@),
        decreases exts.len() - k,
    {
        let t = exts[k].tag();
        let ghost rest = names.subrange(k as int, names.len() as int);
        assert(rest[0] == exts@[k as int].manifest.name@);
        if str_eq(t.as_str(), tag) {
            return Some(k);
        }
        assert(rest.drop_first() =~= names.subrange(k + 1, names.len() as int));
        k = k + 1;
    }
    None
}

fn copy_content(c: &Result<String, String>) -> (r: Result<String, String>)
    ensures
        crate::csv::content_view(r) == crate::csv::content_view(*c),
{
    match c {
        Ok(t) => {
            let mut s = String::new();
            push_str(&mut s, t.as_str());
            Ok(s)
        },
        Err(e) => {
            let mut s = String::new();
            push_str(&mut s, e.as_str());
            Err(s)
        },
    }
}

fn render_one(
    b: &Block,
    id: String,
    i: usize,
    exts: &Vec<Extension>,
    page_id: &str,
    content: &Option<Result<String, String>>,
) -> (r: (Rendered, Option<(Vec<(String, String)>, String)>))
    ensures
        r.0@ == rendered_spec(b@, id@, i as nat, ext_names(exts@), page_id@, request_view(*content)),
        ctx_view(r.1) == (if b@.tag_name != "sv-csv"@ && claiming_ext(ext_names(exts@), b@.tag_name) is Some {
            Some((b@.attrs, b@.body))
        } else {
            None
        }),
{
    let ord = ord_of(i);
    if str_eq(b.tag_name.as_str(), "sv-csv") {
        let c = match content {
            Some(c) => copy_content(c),
            None => Err(String::new()),
        };
        proof {
            if content is None {
                assert(crate::csv::content_view(c) == content_of(request_view(*content)));
            }
        }
        let html = crate::csv::block(id.as_str(), b, c);
        let headings: Vec<Heading> = Vec::new();
        let r = Rendered { id, ord, html, headings };
        assert(headings_view(r.headings@) =~= Seq::<(u8, Seq<char>, Option<Seq<char>>)>::empty());
        return (r, None);
    }
    match claiming(exts, b.tag_name.as_str()) {
        Some(k) => {
            let html = crate::render::ext_block(id.as_str(), exts[k].manifest.name.as_str(), page_id, b.attr("height"));
            let headings: Vec<Heading> = Vec::new();
            let r = Rendered { id, ord, html, headings };
            assert(headings_view(r.headings@) =~= Seq::<(u8, Seq<char>, Option<Seq<char>>)>::empty());
            let mut body = String::new();
            push_str(&mut body, b.body.as_str());
            (r, Some((copy_attrs(&b.attrs), body)))
        },
        None => {
            let html = crate::render::block(id.as_str(), b);
            let headings = crate::render::outline(id.as_str(), b);
            (Rendered { id, ord, html, headings }, None)
        },
    }
}

/// A page rendered into the state the live view serves from. `contents`
/// holds, per block, what the caller read for a csv block's request — the
/// file's text, or why it has none — and is not consulted for other blocks.
pub fn render_page(
    page: &Page,
    page_id: &str,
    exts: &Vec<Extension>,
    contents: &Vec<Option<Result<String, String>>>,
) -> (r: PageRender)
    requires
        contents.len() == page.blocks.len(),
        forall|i: int| 0 <= i < page.blocks.len() && (#[trigger] page.blocks@[i]).tag_name@ == "sv-csv"@ ==> contents@[i] is Some,
    ensures
        r.blocks.len() == page.blocks.len(),
        r.ext_context.len() == page.blocks.len(),
        forall|i: int| 0 <= i < page.blocks.len() ==> #[trigger] r.blocks@[i]@ == rendered_spec(
            page@.blocks[i],
            page_ids(page@)[i],
            i as nat,
            ext_names(exts@),
            page_id@,
            request_view(contents@[i]),
        ),
        forall|i: int| 0 <= i < page.blocks.len() ==> #[trigger] ctx_view(r.ext_context@[i]) == (if page@.blocks[i].tag_name != "sv-csv"@ && claiming_ext(ext_names(exts@), page@.blocks[i].tag_name) is Some {
            Some((page@.blocks[i].attrs, page@.blocks[i].body))
        } else {
            None
        }),
{
    let mut bases: Vec<String> = Vec::new();
    let mut j: usize = 0;
    while j < page.blocks.len()
        invariant
            j <= page.blocks.len(),
            bases.len() == j,
            forall|k: int| 0 <= k < j ==> #[trigger] bases@[k]@ == base_id(page@.blocks[k]),
        decreases page.blocks.len() - j,
    {
        bases.push(base_id_of(&page.blocks[j]));
        j = j + 1;
    }
    assert(strs_view(bases@) =~= page_bases(page@));
    let ids = effective_ids(&bases);
    let mut blocks: Vec<Rendered> = Vec::new();
    let mut ext_context: Vec<Option<(Vec<(String, String)>, String)>> = Vec::new();
    let mut i: usize = 0;
    while i < page.blocks.len()
        invariant
            i <= page.blocks.len(),
            contents.len() == page.blocks.len(),
            ids.len() == page.blocks.len(),
            forall|k: int| 0 <= k < page.blocks.len() ==> #[trigger] ids@[k]@ == page_ids(page@)[k],
            blocks.len() == i,
            ext_context.len() == i,
            forall|k: int| 0 <= k < i ==> #[trigger] blocks@[k]@ == rendered_spec(
                page@.blocks[k],
                page_ids(page@)[k],
                k as nat,
                ext_names(exts@),
                page_id@,
                request_view(contents@[k]),
            ),
            forall|k: int| 0 <= k < i ==> #[trigger] ctx_view(ext_context@[k]) == (if page@.blocks[k].tag_name != "sv-csv"@ && claiming_ext(ext_names(exts@), page@.blocks[k].tag_name) is Some {
                Some((page@.blocks[k].attrs, page@.blocks[k].body))
            } else {
                None
            }),
        decreases page.blocks.len() - i,
    {
        let mut id = String::new();
        push_str(&mut id, ids[i].as_str());
        let (rb, cx) = render_one(&page.blocks[i], id, i, exts, page_id, &contents[i]);
        blocks.push(rb);
        ext_context.push(cx);
        i = i + 1;
    }
    PageRender { blocks, ext_context }
}

// ---- the reparse diff -----------------------------------------------------------------

/// One change the live view sends after a reparse: the block at this index
/// of the new rendering is new or changed, or the block with this id is gone.
#[derive(Debug)]
pub enum BlockChange {
    Upsert(usize),
    Remove(String),
}

pub enum BlockChangeV {
    Upsert(nat),
    Remove(Seq<char>),
}

pub open spec fn change_view(c: BlockChange) -> BlockChangeV {
    match c {
        BlockChange::Upsert(i) => BlockChangeV::Upsert(i as nat),
        BlockChange::Remove(id) => BlockChangeV::Remove(id@),
    }
}

pub open spec fn changes_view(v: Seq<BlockChange>) -> Seq<BlockChangeV> {
    v.map_values(|c: BlockChange| change_view(c))
}

/// The last index in `old` holding `id`, or -1.
pub open spec fn last_with_id(old: Seq<RenderedV>, id: Seq<char>) -> int
    decreases old.len(),
{
    if old.len() == 0 {
        -1
    } else if old.last().id == id {
        old.len() - 1
    } else {
        last_with_id(old.drop_last(), id)
    }
}

/// `b` went out before exactly as it is now.
pub open spec fn unchanged(old: Seq<RenderedV>, b: RenderedV) -> bool {
    let j = last_with_id(old, b.id);
    0 <= j && old[j] == b
}

pub open spec fn has_id(v: Seq<RenderedV>, id: Seq<char>) -> bool {
    exists|k: int| 0 <= k < v.len() && (#[trigger] v[k]).id == id
}

pub open spec fn upserts(old: Seq<RenderedV>, new: Seq<RenderedV>) -> Seq<BlockChangeV>
    decreases new.len(),
{
    if new.len() == 0 {
        Seq::empty()
    } else {
        upserts(old, new.drop_last()) + if unchanged(old, new.last()) {
            Seq::empty()
        } else {
            seq![BlockChangeV::Upsert((new.len() - 1) as nat)]
        }
    }
}

pub open spec fn removes(old: Seq<RenderedV>, new: Seq<RenderedV>) -> Seq<BlockChangeV>
    decreases old.len(),
{
    if old.len() == 0 {
        Seq::empty()
    } else {
        removes(old.drop_last(), new) + if has_id(new, old.last().id) {
            Seq::empty()
        } else {
            seq![BlockChangeV::Remove(old.last().id)]
        }
    }
}

/// The reparse diff: an upsert for every new or changed block, in page
/// order, then a remove for every block that is gone — what keeps live
/// patching surgical though the source of truth is a whole file.
pub open spec fn diff_spec(old: Seq<RenderedV>, new: Seq<RenderedV>) -> Seq<BlockChangeV> {
    upserts(old, new) + removes(old, new)
}

fn same_opt_str(a: &Option<String>, b: &Option<String>) -> (r: bool)
    ensures
        r == (crate::monitor::opt_view(*a) == crate::monitor::opt_view(*b)),
{
    match (a, b) {
        (Some(x), Some(y)) => str_eq(x.as_str(), y.as_str()),
        (None, None) => true,
        _ => false,
    }
}

fn same_headings(a: &Vec<Heading>, b: &Vec<Heading>) -> (r: bool)
    ensures
        r == (headings_view(a@) == headings_view(b@)),
{
    if a.len() != b.len() {
        proof {
            if headings_view(a@) == headings_view(b@) {
                assert(headings_view(a@).len() == headings_view(b@).len());
            }
        }
        return false;
    }
    let mut i: usize = 0;
    while i < a.len()
        invariant
            i <= a.len() == b.len(),
            headings_view(a@).take(i as int) == headings_view(b@).take(i as int),
        decreases a.len() - i,
    {
        let same = a[i].level == b[i].level && str_eq(a[i].text.as_str(), b[i].text.as_str())
            && same_opt_str(&a[i].id, &b[i].id);
        if !same {
            proof {
                assert(headings_view(a@)[i as int] != headings_view(b@)[i as int]);
            }
            return false;
        }
        assert(headings_view(a@)[i as int] == headings_view(b@)[i as int]);
        assert(headings_view(a@).take(i + 1) =~= headings_view(a@).take(i as int).push(headings_view(a@)[i as int]));
        assert(headings_view(b@).take(i + 1) =~= headings_view(b@).take(i as int).push(headings_view(b@)[i as int]));
        i = i + 1;
    }
    assert(headings_view(a@).take(a.len() as int) =~= headings_view(a@));
    assert(headings_view(b@).take(b.len() as int) =~= headings_view(b@));
    true
}

fn same_rendered(a: &Rendered, b: &Rendered) -> (r: bool)
    ensures
        r == (a@ == b@),
{
    str_eq(a.id.as_str(), b.id.as_str()) && str_eq(a.ord.as_str(), b.ord.as_str()) && str_eq(
        a.html.as_str(),
        b.html.as_str(),
    ) && same_headings(&a.headings, &b.headings)
}

fn last_index_of(old: &Vec<Rendered>, id: &str) -> (r: Option<usize>)
    ensures
        match r {
            Some(j) => j < old.len() && last_with_id(rendered_view(old@), id@) == j as int,
            None => last_with_id(rendered_view(old@), id@) == -1,
        },
{
    let ghost ov = rendered_view(old@);
    let mut n: usize = old.len();
    assert(ov.take(n as int) =~= ov);
    while n > 0
        invariant
            n <= old.len(),
            ov == rendered_view(old@),
            last_with_id(ov, id@) == last_with_id(ov.take(n as int), id@),
        decreases n,
    {
        assert(ov.take(n as int).last() == old@[n - 1]@);
        if str_eq(old[n - 1].id.as_str(), id) {
            return Some(n - 1);
        }
        assert(ov.take(n as int).drop_last() =~= ov.take(n - 1));
        n = n - 1;
    }
    None
}

fn holds_id(v: &Vec<Rendered>, id: &str) -> (r: bool)
    ensures
        r == has_id(rendered_view(v@), id@),
{
    let ghost vv = rendered_view(v@);
    let mut k: usize = 0;
    while k < v.len()
        invariant
            k <= v.len(),
            vv == rendered_view(v@),
            forall|m: int| 0 <= m < k ==> (#[trigger] vv[m]).id != id@,
        decreases v.len() - k,
    {
        if str_eq(v[k].id.as_str(), id) {
            assert(vv[k as int].id == id@);
            return true;
        }
        k = k + 1;
    }
    false
}

/// The changes that turn the old rendering of a page into the new one.
pub fn diff_events(old: &Vec<Rendered>, new: &Vec<Rendered>) -> (r: Vec<BlockChange>)
    ensures
        changes_view(r@) == diff_spec(rendered_view(old@), rendered_view(new@)),
{
    let ghost ov = rendered_view(old@);
    let ghost nv = rendered_view(new@);
    let mut r: Vec<BlockChange> = Vec::new();
    let mut i: usize = 0;
    assert(nv.take(0) =~= Seq::<RenderedV>::empty());
    while i < new.len()
        invariant
            i <= new.len(),
            ov == rendered_view(old@),
            nv == rendered_view(new@),
            changes_view(r@) == upserts(ov, nv.take(i as int)),
        decreases new.len() - i,
    {
        assert(nv.take(i + 1).drop_last() =~= nv.take(i as int));
        assert(nv.take(i + 1).last() == new@[i as int]@);
        let same = match last_index_of(old, new[i].id.as_str()) {
            Some(j) => same_rendered(&old[j], &new[i]),
            None => false,
        };
        let ghost before = r@;
        if !same {
            r.push(BlockChange::Upsert(i));
            assert(changes_view(r@) =~= changes_view(before).push(BlockChangeV::Upsert(i as nat)));
        }
        i = i + 1;
    }
    assert(nv.take(new.len() as int) =~= nv);
    let ghost ups = changes_view(r@);
    let mut k: usize = 0;
    assert(ov.take(0) =~= Seq::<RenderedV>::empty());
    assert(ups + removes(ov.take(0), nv) =~= ups);
    while k < old.len()
        invariant
            k <= old.len(),
            ov == rendered_view(old@),
            nv == rendered_view(new@),
            changes_view(r@) == ups + removes(ov.take(k as int), nv),
        decreases old.len() - k,
    {
        assert(ov.take(k + 1).drop_last() =~= ov.take(k as int));
        assert(ov.take(k + 1).last() == old@[k as int]@);
        let ghost before = r@;
        if !holds_id(new, old[k].id.as_str()) {
            let mut id = String::new();
            push_str(&mut id, old[k].id.as_str());
            r.push(BlockChange::Remove(id));
            assert(changes_view(r@) =~= changes_view(before).push(BlockChangeV::Remove(old@[k as int].id@)));
        }
        k = k + 1;
        assert(changes_view(r@) =~= ups + removes(ov.take(k as int), nv));
    }
    assert(ov.take(old.len() as int) =~= ov);
    r
}

/// Diffing a rendering against itself sends nothing, so an untouched file
/// costs the browser no traffic (given distinct ids, which effective ids are
/// built to be).
pub proof fn lemma_diff_of_same_is_empty(v: Seq<RenderedV>)
    requires
        forall|i: int, j: int| 0 <= i < j < v.len() ==> v[i].id != v[j].id,
    ensures
        diff_spec(v, v) == Seq::<BlockChangeV>::empty(),
{
    assert forall|k: int| 0 <= k < v.len() implies unchanged(v, #[trigger] v[k]) by {
        lemma_last_with_unique_id(v, k);
    }
    lemma_no_upserts(v, v.len() as int);
    lemma_no_removes(v, v.len() as int);
    assert(v.take(v.len() as int) =~= v);
}

proof fn lemma_last_with_unique_id(v: Seq<RenderedV>, k: int)
    requires
        0 <= k < v.len(),
        forall|i: int, j: int| 0 <= i < j < v.len() ==> v[i].id != v[j].id,
    ensures
        last_with_id(v, v[k].id) == k,
    decreases v.len(),
{
    if k < v.len() - 1 {
        assert(v.last().id != v[k].id);
        let w = v.drop_last();
        assert forall|i: int, j: int| 0 <= i < j < w.len() implies w[i].id != w[j].id by {
            assert(w[i] == v[i] && w[j] == v[j]);
        }
        lemma_last_with_unique_id(w, k);
    }
}

proof fn lemma_no_upserts(v: Seq<RenderedV>, n: int)
    requires
        0 <= n <= v.len(),
        forall|k: int| 0 <= k < v.len() ==> unchanged(v, #[trigger] v[k]),
    ensures
        upserts(v, v.take(n)) == Seq::<BlockChangeV>::empty(),
    decreases n,
{
    if n > 0 {
        assert(v.take(n).drop_last() =~= v.take(n - 1));
        assert(v.take(n).last() == v[n - 1]);
        lemma_no_upserts(v, n - 1);
        assert(upserts(v, v.take(n)) =~= Seq::<BlockChangeV>::empty());
    } else {
        assert(v.take(0).len() == 0);
    }
}

proof fn lemma_no_removes(v: Seq<RenderedV>, n: int)
    requires
        0 <= n <= v.len(),
    ensures
        removes(v.take(n), v) == Seq::<BlockChangeV>::empty(),
    decreases n,
{
    if n > 0 {
        assert(v.take(n).drop_last() =~= v.take(n - 1));
        assert(v.take(n).last() == v[n - 1]);
        assert(has_id(v, v[n - 1].id));
        lemma_no_removes(v, n - 1);
        assert(removes(v.take(n), v) =~= Seq::<BlockChangeV>::empty());
    } else {
        assert(v.take(0).len() == 0);
    }
}

proof fn lemma_upserts_member(old: Seq<RenderedV>, new: Seq<RenderedV>, k: int)
    requires
        0 <= k < new.len(),
    ensures
        upserts(old, new).contains(BlockChangeV::Upsert(k as nat)) <==> !unchanged(old, new[k]),
    decreases new.len(),
{
    let rest = upserts(old, new.drop_last());
    let tail = if unchanged(old, new.last()) { Seq::<BlockChangeV>::empty() } else { seq![BlockChangeV::Upsert((new.len() - 1) as nat)] };
    assert(upserts(old, new) == rest + tail);
    lemma_upserts_below(old, new.drop_last());
    if k < new.len() - 1 {
        lemma_upserts_member(old, new.drop_last(), k);
        assert(new.drop_last()[k] == new[k]);
        if (rest + tail).contains(BlockChangeV::Upsert(k as nat)) {
            let j = choose|j: int| 0 <= j < (rest + tail).len() && (rest + tail)[j] == BlockChangeV::Upsert(k as nat);
            if j >= rest.len() {
                assert(tail[j - rest.len()] == BlockChangeV::Upsert((new.len() - 1) as nat));
            } else {
                assert(rest[j] == BlockChangeV::Upsert(k as nat));
            }
        }
        if rest.contains(BlockChangeV::Upsert(k as nat)) {
            let j = choose|j: int| 0 <= j < rest.len() && rest[j] == BlockChangeV::Upsert(k as nat);
            assert((rest + tail)[j] == BlockChangeV::Upsert(k as nat));
        }
    } else {
        if !unchanged(old, new[k]) {
            assert((rest + tail)[rest.len() as int] == BlockChangeV::Upsert(k as nat));
        } else {
            assert(tail.len() == 0);
            assert((rest + tail) =~= rest);
            if rest.contains(BlockChangeV::Upsert(k as nat)) {
                let j = choose|j: int| 0 <= j < rest.len() && rest[j] == BlockChangeV::Upsert(k as nat);
            }
        }
    }
}

proof fn lemma_upserts_below(old: Seq<RenderedV>, new: Seq<RenderedV>)
    ensures
        forall|j: int| 0 <= j < upserts(old, new).len() ==> (#[trigger] upserts(old, new)[j] matches BlockChangeV::Upsert(i) && i < new.len()),
    decreases new.len(),
{
    if new.len() > 0 {
        lemma_upserts_below(old, new.drop_last());
    }
}

proof fn lemma_removes_member(old: Seq<RenderedV>, new: Seq<RenderedV>, id: Seq<char>)
    ensures
        removes(old, new).contains(BlockChangeV::Remove(id)) <==> (has_id(old, id) && !has_id(new, id)),
    decreases old.len(),
{
    if old.len() > 0 {
        let rest = removes(old.drop_last(), new);
        let tail = if has_id(new, old.last().id) { Seq::<BlockChangeV>::empty() } else { seq![BlockChangeV::Remove(old.last().id)] };
        assert(removes(old, new) == rest + tail);
        lemma_removes_member(old.drop_last(), new, id);
        if has_id(old.drop_last(), id) {
            let k = choose|k: int| 0 <= k < old.drop_last().len() && (#[trigger] old.drop_last()[k]).id == id;
            assert(old[k] == old.drop_last()[k]);
        }
        if has_id(old, id) && !has_id(old.drop_last(), id) {
            let k = choose|k: int| 0 <= k < old.len() && (#[trigger] old[k]).id == id;
            if k < old.len() - 1 {
                assert(old.drop_last()[k] == old[k]);
            }
            assert(old.last().id == id);
        }
        if (rest + tail).contains(BlockChangeV::Remove(id)) {
            let j = choose|j: int| 0 <= j < (rest + tail).len() && (rest + tail)[j] == BlockChangeV::Remove(id);
            if j < rest.len() {
                assert(rest[j] == BlockChangeV::Remove(id));
            } else {
                assert(tail[j - rest.len()] == BlockChangeV::Remove(id));
                assert(old[old.len() - 1].id == id);
            }
        }
        if rest.contains(BlockChangeV::Remove(id)) {
            let j = choose|j: int| 0 <= j < rest.len() && rest[j] == BlockChangeV::Remove(id);
            assert((rest + tail)[j] == BlockChangeV::Remove(id));
        }
        if !has_id(new, id) && old.last().id == id {
            assert((rest + tail)[rest.len() as int] == BlockChangeV::Remove(id));
        }
    }
}

/// The reparse diff is exact: block `k` of the new rendering is upserted
/// exactly when the browser's copy (the old block with its id) differs
/// from it, and an id is removed exactly when the old rendering had it and
/// the new one does not — nothing stale survives, nothing unchanged is
/// resent.
pub proof fn lemma_diff_is_exact(old: Seq<RenderedV>, new: Seq<RenderedV>)
    ensures
        forall|k: int| 0 <= k < new.len() ==> (diff_spec(old, new).contains(BlockChangeV::Upsert(k as nat)) <==> !unchanged(old, #[trigger] new[k])),
        forall|id: Seq<char>| #[trigger] diff_spec(old, new).contains(BlockChangeV::Remove(id)) <==> (has_id(old, id) && !has_id(new, id)),
{
    let u = upserts(old, new);
    let r = removes(old, new);
    lemma_removes_only_removes(old, new);
    lemma_upserts_below(old, new);
    assert forall|k: int| 0 <= k < new.len() implies (diff_spec(old, new).contains(BlockChangeV::Upsert(k as nat)) <==> !unchanged(old, #[trigger] new[k])) by {
        lemma_upserts_member(old, new, k);
        let x = BlockChangeV::Upsert(k as nat);
        if (u + r).contains(x) {
            let j = choose|j: int| 0 <= j < (u + r).len() && (u + r)[j] == x;
            if j >= u.len() {
                assert(r[j - u.len()] == x);
            } else {
                assert(u[j] == x);
            }
        }
        if u.contains(x) {
            let j = choose|j: int| 0 <= j < u.len() && u[j] == x;
            assert((u + r)[j] == x);
        }
    }
    assert forall|id: Seq<char>| #[trigger] diff_spec(old, new).contains(BlockChangeV::Remove(id)) <==> (has_id(old, id) && !has_id(new, id)) by {
        lemma_removes_member(old, new, id);
        let x = BlockChangeV::Remove(id);
        if (u + r).contains(x) {
            let j = choose|j: int| 0 <= j < (u + r).len() && (u + r)[j] == x;
            if j < u.len() {
                assert(u[j] == x);
            } else {
                assert(r[j - u.len()] == x);
            }
        }
        if r.contains(x) {
            let j = choose|j: int| 0 <= j < r.len() && r[j] == x;
            assert((u + r)[j + u.len()] == x);
        }
    }
}

proof fn lemma_removes_only_removes(old: Seq<RenderedV>, new: Seq<RenderedV>)
    ensures
        forall|j: int| 0 <= j < removes(old, new).len() ==> (#[trigger] removes(old, new)[j]) is Remove,
    decreases old.len(),
{
    if old.len() > 0 {
        lemma_removes_only_removes(old.drop_last(), new);
    }
}

// ---- page props ------------------------------------------------------------------------

/// Props as a map: a later pair overwrites an earlier one with its key.
pub open spec fn props_map(ps: Seq<(Seq<char>, Seq<char>)>) -> Map<Seq<char>, Seq<char>>
    decreases ps.len(),
{
    if ps.len() == 0 {
        Map::empty()
    } else {
        props_map(ps.drop_last()).insert(ps.last().0, ps.last().1)
    }
}

pub proof fn lemma_props_map_keys(ps: Seq<(Seq<char>, Seq<char>)>, k: Seq<char>)
    ensures
        props_map(ps).dom().contains(k) <==> exists|i: int| 0 <= i < ps.len() && (#[trigger] ps[i]).0 == k,
    decreases ps.len(),
{
    if ps.len() > 0 {
        lemma_props_map_keys(ps.drop_last(), k);
        if exists|i: int| 0 <= i < ps.len() && (#[trigger] ps[i]).0 == k {
            let i = choose|i: int| 0 <= i < ps.len() && (#[trigger] ps[i]).0 == k;
            if i < ps.len() - 1 {
                assert(ps.drop_last()[i] == ps[i]);
            }
        }
        if exists|i: int| 0 <= i < ps.len() - 1 && (#[trigger] ps.drop_last()[i]).0 == k {
            let i = choose|i: int| 0 <= i < ps.len() - 1 && (#[trigger] ps.drop_last()[i]).0 == k;
            assert(ps[i] == ps.drop_last()[i]);
        }
    }
}

/// Config supplies only what a page's file cannot say about itself: a
/// label, category or order the file's own props give is the one the page
/// carries, whatever the config declares.
pub proof fn lemma_file_props_win(
    file_props: Seq<(Seq<char>, Seq<char>)>,
    path: Seq<char>,
    entry: Option<(Option<Seq<char>>, Option<Seq<char>>, Option<Seq<char>>)>,
    k: Seq<char>,
)
    requires
        k == "label"@ || k == "category"@ || k == "order"@,
        props_map(file_props).dom().contains(k),
    ensures
        live_props_spec(file_props, path, entry).dom().contains(k),
        live_props_spec(file_props, path, entry)[k] == props_map(file_props)[k],
{
    reveal_strlit("label");
    reveal_strlit("category");
    reveal_strlit("order");
    reveal_strlit("tier");
    reveal_strlit("path");
    reveal_strlit("closable");
    assert(k != "tier"@ && k != "path"@ && k != "closable"@) by {
        if k == "label"@ {
            assert(k.len() != "tier"@.len() || k[0] != "tier"@[0]);
            assert(k[0] != "path"@[0]);
            assert(k[0] != "closable"@[0]);
        } else if k == "category"@ {
            assert(k[0] != "tier"@[0]);
            assert(k[0] != "path"@[0]);
            assert(k[1] != "closable"@[1]);
        } else {
            assert(k[0] != "tier"@[0]);
            assert(k[0] != "path"@[0]);
            assert(k[0] != "closable"@[0]);
        }
    }
}

/// A page committed to the repo unbinds when its chip closes; a throwaway
/// page under the store's pages directory is scratch and closes by deletion.
pub open spec fn is_throwaway_spec(rel: Seq<char>) -> bool {
    starts_with(rel, crate::session::dir_name() + "/pages/"@)
}

pub fn is_throwaway_page(rel: &str) -> (r: bool)
    ensures
        r == is_throwaway_spec(rel@),
{
    let v = chars_of(rel);
    let mut p = String::new();
    push_str(&mut p, ".sideview");
    push_str(&mut p, "/pages/");
    let pv = chars_of(p.as_str());
    crate::text::has_prefix(&v, &pv)
}

/// What the config says of a page that its file cannot: label, category,
/// and the sort key, already written out as text.
pub struct EntryProps {
    pub label: Option<String>,
    pub category: Option<String>,
    pub order: Option<String>,
}

pub open spec fn or_insert(m: Map<Seq<char>, Seq<char>>, k: Seq<char>, v: Option<Seq<char>>) -> Map<Seq<char>, Seq<char>> {
    match v {
        Some(x) => if m.dom().contains(k) { m } else { m.insert(k, x) },
        None => m,
    }
}

/// The props a page carries in the pages event: its file's own, then what
/// the live view decides where tier and config are both in hand — the tier,
/// the path, what the chip's close may do (nothing meaningful for a page
/// the config declares) — then the config's label, category and order,
/// only where the file says nothing: an `.sv` page's own props win.
pub open spec fn live_props_spec(
    file_props: Seq<(Seq<char>, Seq<char>)>,
    path: Seq<char>,
    entry: Option<(Option<Seq<char>>, Option<Seq<char>>, Option<Seq<char>>)>,
) -> Map<Seq<char>, Seq<char>> {
    let m = props_map(file_props).insert(
        "tier"@,
        if is_throwaway_spec(path) { "throwaway"@ } else { "committed"@ },
    ).insert("path"@, path).insert("closable"@, if entry is Some { "config"@ } else { "yes"@ });
    match entry {
        None => m,
        Some((label, category, order)) => or_insert(
            or_insert(or_insert(m, "label"@, label), "category"@, category),
            "order"@,
            order,
        ),
    }
}

pub open spec fn entry_view(e: Option<&EntryProps>) -> Option<(Option<Seq<char>>, Option<Seq<char>>, Option<Seq<char>>)> {
    match e {
        Some(x) => Some((crate::monitor::opt_view(x.label), crate::monitor::opt_view(x.category), crate::monitor::opt_view(x.order))),
        None => None,
    }
}

fn push_prop(ps: &mut Vec<(String, String)>, k: &str, v: &str)
    ensures
        props_map(attrs_view(final(ps)@)) == props_map(attrs_view(old(ps)@)).insert(k@, v@),
{
    let mut ks = String::new();
    push_str(&mut ks, k);
    let mut vs = String::new();
    push_str(&mut vs, v);
    ps.push((ks, vs));
    assert(attrs_view(ps@).drop_last() =~= attrs_view(old(ps)@));
}

fn has_key(ps: &Vec<(String, String)>, k: &str) -> (r: bool)
    ensures
        r == props_map(attrs_view(ps@)).dom().contains(k@),
{
    proof {
        lemma_props_map_keys(attrs_view(ps@), k@);
    }
    let mut i: usize = 0;
    while i < ps.len()
        invariant
            i <= ps.len(),
            forall|m: int| 0 <= m < i ==> (#[trigger] attrs_view(ps@)[m]).0 != k@,
        decreases ps.len() - i,
    {
        if str_eq(ps[i].0.as_str(), k) {
            assert(attrs_view(ps@).len() == ps@.len());
            assert(attrs_view(ps@)[i as int].0 == k@);
            proof {
                lemma_props_map_keys(attrs_view(ps@), k@);
            }
            return true;
        }
        i = i + 1;
    }
    false
}

fn push_absent(ps: &mut Vec<(String, String)>, k: &str, v: &Option<String>)
    ensures
        props_map(attrs_view(final(ps)@)) == or_insert(props_map(attrs_view(old(ps)@)), k@, crate::monitor::opt_view(*v)),
{
    match v {
        Some(x) => {
            if !has_key(ps, k) {
                push_prop(ps, k, x.as_str());
            }
        },
        None => {},
    }
}

/// The props the pages event carries for a page, as pairs applied in order
/// (a later pair overwrites an earlier one with its key).
pub fn live_props(page: &Page, path: &str, entry: Option<&EntryProps>) -> (r: Vec<(String, String)>)
    ensures
        props_map(attrs_view(r@)) == live_props_spec(page@.props, path@, entry_view(entry)),
{
    let mut r = copy_attrs(&page.props);
    if is_throwaway_page(path) {
        push_prop(&mut r, "tier", "throwaway");
    } else {
        push_prop(&mut r, "tier", "committed");
    }
    push_prop(&mut r, "path", path);
    match entry {
        Some(e) => {
            push_prop(&mut r, "closable", "config");
            push_absent(&mut r, "label", &e.label);
            push_absent(&mut r, "category", &e.category);
            push_absent(&mut r, "order", &e.order);
        },
        None => {
            push_prop(&mut r, "closable", "yes");
        },
    }
    r
}

/// The format name a page advertises: `sv` pages edit from the page;
/// imported ones do not (their canon is a foreign file, not spliceable
/// blocks). A page not yet loaded counts as `sv`.
pub fn format_label(fmt: Option<Format>) -> (r: &'static str)
    ensures
        r@ == match fmt {
            Some(Format::Markdown) => "markdown"@,
            Some(Format::HtmlInline) => "html-inline"@,
            Some(Format::HtmlFrame) => "html-frame"@,
            _ => "sv"@,
        },
{
    match fmt {
        Some(Format::Markdown) => "markdown",
        Some(Format::HtmlInline) => "html-inline",
        Some(Format::HtmlFrame) => "html-frame",
        _ => "sv",
    }
}

/// Binding order as plain values: page id and when it was last active.
pub open spec fn order_view(v: Seq<(String, i64)>) -> Seq<(Seq<char>, i64)> {
    v.map_values(|p: (String, i64)| (p.0@, p.1))
}

// ---- one tick of the live view ----------------------------------------------------------

/// Ticks between heartbeats (about three seconds of polling).
pub const HEARTBEAT_EVERY: u32 = 12;

/// Whether this tick refreshes the daemon's row.
pub fn heartbeat_due(ticks: u32) -> (r: bool)
    ensures
        r == (ticks % HEARTBEAT_EVERY == 0),
{
    ticks % HEARTBEAT_EVERY == 0
}

pub open spec fn stamps_differ(refs: Seq<(Option<(i64, u64)>, Option<(i64, u64)>)>) -> bool {
    exists|i: int| 0 <= i < refs.len() && (#[trigger] refs[i]).0 != refs[i].1
}

/// Whether a page's state is rebuilt this tick: its file's stamp is not the
/// one its state was built from (or it has no state yet), the config
/// changed (which can change how it renders or what it is called), or a
/// file one of its blocks references (recorded stamp, stamp now) moved.
pub fn needs_reload(
    known: Option<Option<(i64, u64)>>,
    stamp: Option<(i64, u64)>,
    config_changed: bool,
    refs: &Vec<(Option<(i64, u64)>, Option<(i64, u64)>)>,
) -> (r: bool)
    ensures
        r == (known != Some(stamp) || config_changed || stamps_differ(refs@)),
{
    let same = match known {
        Some(k) => match (k, stamp) {
            (None, None) => true,
            (Some((a, b)), Some((c, d))) => a == c && b == d,
            _ => false,
        },
        None => false,
    };
    if !same || config_changed {
        return true;
    }
    let mut i: usize = 0;
    while i < refs.len()
        invariant
            i <= refs.len(),
            forall|j: int| 0 <= j < i ==> (#[trigger] refs@[j]).0 == refs@[j].1,
        decreases refs.len() - i,
    {
        let differs = match (refs[i].0, refs[i].1) {
            (None, None) => false,
            (Some((a, b)), Some((c, d))) => !(a == c && b == d),
            _ => true,
        };
        if differs {
            return true;
        }
        i = i + 1;
    }
    false
}

/// Whether the pages event goes out this tick: the binding order moved, a
/// reloaded page's properties changed, or the explicit outlines changed.
pub fn order_changed(old: &Vec<(String, i64)>, new: &Vec<(String, i64)>) -> (r: bool)
    ensures
        r == (order_view(old@) != order_view(new@)),
{
    if old.len() != new.len() {
        assert(order_view(old@).len() != order_view(new@).len());
        return true;
    }
    let mut i: usize = 0;
    while i < old.len()
        invariant
            i <= old.len(),
            old.len() == new.len(),
            forall|j: int| 0 <= j < i ==> #[trigger] order_view(old@)[j] == order_view(new@)[j],
        decreases old.len() - i,
    {
        if !str_eq(old[i].0.as_str(), new[i].0.as_str()) || old[i].1 != new[i].1 {
            assert(order_view(old@)[i as int] != order_view(new@)[i as int]);
            return true;
        }
        i = i + 1;
    }
    assert(order_view(old@) =~= order_view(new@));
    false
}

} // verus!
