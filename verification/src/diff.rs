//! `sv-diff` rendering: unified diff text in, both views out.
//!
//! diffy parses the patch (git's extended format included); `similar` marks
//! word-level changes within paired lines; the aligned model, the HTML and
//! the duotone treatment are ours. Both views render from one aligned model
//! into one HTML string, the inactive one hidden by CSS, so toggling is
//! instant. `render` never errors: a body that isn't a parseable diff is
//! shown raw with an honest note.

use vstd::prelude::*;

use diffy::patch_set::{FileOperation, ParseOptions, PatchSet};
use diffy::Line;
use similar::{ChangeTag, DiffOp, TextDiff};

use crate::text::{
    concat, dec, esc_text, lemma_concat_push, push_char, push_str, push_text_escaped, push_usize,
    str_eq,
};

verus! {

// ---- what diffy hands over ---------------------------------------------------------

/// What a file patch does, paths with their first component (`a/`, `b/`)
/// stripped.
pub enum FileOp {
    Create(String),
    Delete(String),
    Modify(String, String),
    Rename(String, String),
    Copy(String, String),
}

pub enum FileOpV {
    Create(Seq<char>),
    Delete(Seq<char>),
    Modify(Seq<char>, Seq<char>),
    Rename(Seq<char>, Seq<char>),
    Copy(Seq<char>, Seq<char>),
}

impl View for FileOp {
    type V = FileOpV;

    open spec fn view(&self) -> FileOpV {
        match self {
            FileOp::Create(p) => FileOpV::Create(p@),
            FileOp::Delete(p) => FileOpV::Delete(p@),
            FileOp::Modify(a, b) => FileOpV::Modify(a@, b@),
            FileOp::Rename(a, b) => FileOpV::Rename(a@, b@),
            FileOp::Copy(a, b) => FileOpV::Copy(a@, b@),
        }
    }
}

/// One line of a hunk, its trailing newline still on.
pub enum DiffLine {
    Context(String),
    Delete(String),
    Insert(String),
}

pub enum DiffLineV {
    Context(Seq<char>),
    Delete(Seq<char>),
    Insert(Seq<char>),
}

impl View for DiffLine {
    type V = DiffLineV;

    open spec fn view(&self) -> DiffLineV {
        match self {
            DiffLine::Context(t) => DiffLineV::Context(t@),
            DiffLine::Delete(t) => DiffLineV::Delete(t@),
            DiffLine::Insert(t) => DiffLineV::Insert(t@),
        }
    }
}

/// One operation of a character-level diff, by the lengths it covers.
#[derive(Clone, Copy)]
pub enum CharOp {
    Equal(usize),
    Delete(usize),
    Insert(usize),
    Replace(usize, usize),
}

/// What a word-level change does.
#[derive(Clone, Copy)]
pub enum WordTag {
    Equal,
    Delete,
    Insert,
}

pub open spec fn ops_view(v: Seq<FileOp>) -> Seq<FileOpV> {
    v.map_values(|o: FileOp| o@)
}

pub open spec fn lines_view(v: Seq<DiffLine>) -> Seq<DiffLineV> {
    v.map_values(|l: DiffLine| l@)
}

pub open spec fn changes_view(v: Seq<(WordTag, String)>) -> Seq<(WordTag, Seq<char>)> {
    v.map_values(|c: (WordTag, String)| (c.0, c.1@))
}

pub open spec fn opt_string(o: Option<String>) -> Option<Seq<char>> {
    match o {
        Some(s) => Some(s@),
        None => None,
    }
}

pub open spec fn opt_ranges(o: Option<Vec<(usize, usize, usize, usize)>>) -> Option<Seq<(usize, usize, usize, usize)>> {
    match o {
        Some(v) => Some(v@),
        None => None,
    }
}

/// Names what diffy's git-format patch-set parser finds in a body: each file
/// patch it reads before the first error, by its operation, and the first
/// error's message when there is one (diffy reports "no patches found" for a
/// body with none).
pub uninterp spec fn diffy_files_of(body: Seq<char>) -> (Seq<FileOpV>, Option<Seq<char>>);

/// Runs `diffy::patch_set::PatchSet::parse` (git format) and converts each
/// file patch's operation, stopping at the first error.
#[verifier::external_body]
fn diffy_files(body: &str) -> (r: (Vec<FileOp>, Option<String>))
    ensures
        (ops_view(r.0@), opt_string(r.1)) == diffy_files_of(body@),
{
    let mut ops = Vec::new();
    for item in PatchSet::parse(body, ParseOptions::gitdiff()) {
        match item {
            Ok(fp) => ops.push(match fp.operation().strip_prefix(1) {
                FileOperation::Create(p) => FileOp::Create(p.to_string()),
                FileOperation::Delete(p) => FileOp::Delete(p.to_string()),
                FileOperation::Modify { original, modified } => FileOp::Modify(original.to_string(), modified.to_string()),
                FileOperation::Rename { from, to } => FileOp::Rename(from.to_string(), to.to_string()),
                FileOperation::Copy { from, to } => FileOp::Copy(from.to_string(), to.to_string()),
            }),
            Err(e) => return (ops, Some(e.to_string())),
        }
    }
    (ops, None)
}

/// Names the hunks of the `i`th file patch diffy reads from a body, by their
/// old and new ranges (start, length), or none for a binary patch.
pub uninterp spec fn diffy_hunks_of(body: Seq<char>, i: usize) -> Option<Seq<(usize, usize, usize, usize)>>;

/// Re-reads the body with diffy and takes the `i`th file patch's hunk ranges.
/// Such a patch exists (and parsed) whenever `i` is below the count
/// `diffy_files` reports, which is what `requires` asks.
#[verifier::external_body]
fn diffy_hunks(body: &str, i: usize) -> (r: Option<Vec<(usize, usize, usize, usize)>>)
    requires
        i < diffy_files_of(body@).0.len(),
    ensures
        opt_ranges(r) == diffy_hunks_of(body@, i),
{
    let fp = PatchSet::parse(body, ParseOptions::gitdiff()).nth(i).unwrap().unwrap();
    fp.patch().as_text().map(|p| p.hunks().iter().map(|h| (h.old_range().start(), h.old_range().len(), h.new_range().start(), h.new_range().len())).collect())
}

/// Names the lines of hunk `j` of the `i`th file patch diffy reads.
pub uninterp spec fn diffy_lines_of(body: Seq<char>, i: usize, j: usize) -> Seq<DiffLineV>;

/// Re-reads the body with diffy and converts hunk `j` of file patch `i`, line
/// for line.
#[verifier::external_body]
fn diffy_lines(body: &str, i: usize, j: usize) -> (r: Vec<DiffLine>)
    requires
        i < diffy_files_of(body@).0.len(),
        diffy_hunks_of(body@, i) is Some,
        j < diffy_hunks_of(body@, i)->0.len(),
    ensures
        lines_view(r@) == diffy_lines_of(body@, i, j),
{
    let fp = PatchSet::parse(body, ParseOptions::gitdiff()).nth(i).unwrap().unwrap();
    fp.patch().as_text().unwrap().hunks()[j].lines().iter().map(|l| match l {
        Line::Context(t) => DiffLine::Context(t.to_string()),
        Line::Delete(t) => DiffLine::Delete(t.to_string()),
        Line::Insert(t) => DiffLine::Insert(t.to_string()),
    }).collect()
}

/// Names `similar`'s character-level diff of two strings: its operations,
/// and the two token counts (one token per character).
pub uninterp spec fn char_ops_of(a: Seq<char>, b: Seq<char>) -> (Seq<CharOp>, usize, usize);

/// `TextDiff::from_chars`: the operations and both token counts,
/// the inputs of `similar`'s ratio.
#[verifier::external_body]
fn char_ops(a: &str, b: &str) -> (r: (Vec<CharOp>, usize, usize))
    ensures
        (r.0@, r.1, r.2) == char_ops_of(a@, b@),
{
    let diff = TextDiff::from_chars(a, b);
    let ops = diff.ops().iter().map(|op| match *op {
        DiffOp::Equal { len, .. } => CharOp::Equal(len),
        DiffOp::Delete { old_len, .. } => CharOp::Delete(old_len),
        DiffOp::Insert { new_len, .. } => CharOp::Insert(new_len),
        DiffOp::Replace { old_len, new_len, .. } => CharOp::Replace(old_len, new_len),
    }).collect();
    (ops, diff.old_len(), diff.new_len())
}

/// Names `similar`'s word-level changes between two strings, in order, each
/// with the text it covers.
pub uninterp spec fn word_changes_of(a: Seq<char>, b: Seq<char>) -> Seq<(WordTag, Seq<char>)>;

/// `TextDiff::from_words(..).iter_all_changes()`, change for change.
#[verifier::external_body]
fn word_changes(a: &str, b: &str) -> (r: Vec<(WordTag, String)>)
    ensures
        changes_view(r@) == word_changes_of(a@, b@),
{
    TextDiff::from_words(a, b).iter_all_changes().map(|c| (match c.tag() {
        ChangeTag::Equal => WordTag::Equal,
        ChangeTag::Delete => WordTag::Delete,
        ChangeTag::Insert => WordTag::Insert,
    }, c.value().to_string())).collect()
}

// ---- titles and anchors ------------------------------------------------------------

/// What the outline and the file header call a file.
pub open spec fn title_spec(op: FileOpV) -> Seq<char> {
    match op {
        FileOpV::Create(p) => p + " (new)"@,
        FileOpV::Delete(p) => p + " (deleted)"@,
        FileOpV::Modify(o, m) => if o == m {
            o
        } else {
            o + " → "@ + m
        },
        FileOpV::Rename(f, t) => f + " → "@ + t,
        FileOpV::Copy(f, t) => f + " → "@ + t + " (copy)"@,
    }
}

fn title_for(op: &FileOp) -> (r: String)
    ensures
        r@ == title_spec(op@),
{
    let mut r = String::new();
    match op {
        FileOp::Create(p) => {
            push_str(&mut r, p.as_str());
            push_str(&mut r, " (new)");
        },
        FileOp::Delete(p) => {
            push_str(&mut r, p.as_str());
            push_str(&mut r, " (deleted)");
        },
        FileOp::Modify(o, m) => {
            push_str(&mut r, o.as_str());
            if !str_eq(o.as_str(), m.as_str()) {
                push_str(&mut r, " → ");
                push_str(&mut r, m.as_str());
            }
        },
        FileOp::Rename(f, t) => {
            push_str(&mut r, f.as_str());
            push_str(&mut r, " → ");
            push_str(&mut r, t.as_str());
        },
        FileOp::Copy(f, t) => {
            push_str(&mut r, f.as_str());
            push_str(&mut r, " → ");
            push_str(&mut r, t.as_str());
            push_str(&mut r, " (copy)");
        },
    }
    r
}

/// The id of file `i`'s header, which the outline links to.
pub open spec fn anchor_spec(block_id: Seq<char>, i: nat) -> Seq<char> {
    block_id + "-file"@ + dec(i)
}

fn anchor(block_id: &str, i: usize) -> (r: String)
    ensures
        r@ == anchor_spec(block_id@, i as nat),
{
    let mut r = String::new();
    push_str(&mut r, block_id);
    push_str(&mut r, "-file");
    push_usize(&mut r, i);
    r
}

// ---- intraline emphasis ------------------------------------------------------------

/// Characters the two sides share, by `similar`'s equal runs.
pub open spec fn equal_total(ops: Seq<CharOp>) -> nat
    decreases ops.len(),
{
    if ops.len() == 0 {
        0
    } else {
        equal_total(ops.drop_last()) + match ops.last() {
            CharOp::Equal(l) => l as nat,
            _ => 0,
        }
    }
}

proof fn lemma_equal_total_prefix(ops: Seq<CharOp>, i: int)
    requires
        0 <= i <= ops.len(),
    ensures
        equal_total(ops.take(i)) <= equal_total(ops),
    decreases ops.len(),
{
    if i == ops.len() {
        assert(ops.take(i) =~= ops);
    } else {
        assert(ops.drop_last().take(i) =~= ops.take(i));
        lemma_equal_total_prefix(ops.drop_last(), i);
    }
}

/// A removed/added pair close enough to be an edit: `similar`'s character
/// ratio `2 * shared / (old + new)` at least 0.4 (1.0 for two empty lines),
/// stated in integers — `5 * shared >= old + new`.
pub open spec fn similar_enough(a: Seq<char>, b: Seq<char>) -> bool {
    let (ops, ol, nl) = char_ops_of(a, b);
    ol + nl == 0 || 5 * equal_total(ops) >= ol + nl
}

fn is_similar_enough(a: &str, b: &str) -> (r: bool)
    ensures
        r == similar_enough(a@, b@),
{
    let (ops, ol, nl) = char_ops(a, b);
    let t: u128 = ol as u128 + nl as u128;
    if t == 0 {
        return true;
    }
    let mut m: u128 = 0;
    let mut i: usize = 0;
    while i < ops.len()
        invariant
            i <= ops.len(),
            (ops@, ol, nl) == char_ops_of(a@, b@),
            t == ol + nl,
            m == equal_total(ops@.take(i as int)),
            m < t,
        decreases ops.len() - i,
    {
        assert(ops@.take(i + 1).drop_last() =~= ops@.take(i as int));
        match ops[i] {
            CharOp::Equal(l) => {
                m = m + l as u128;
            },
            _ => {},
        }
        i = i + 1;
        if m >= t {
            proof {
                lemma_equal_total_prefix(ops@, i as int);
            }
            return true;
        }
    }
    assert(ops@.take(ops.len() as int) =~= ops@);
    5 * m >= t
}

/// Word-level emphasis of a pair: shared words plain on both sides, removed
/// ones in `<del>` on the old side, added ones in `<ins>` on the new.
pub open spec fn word_emph(cs: Seq<(WordTag, Seq<char>)>) -> (Seq<char>, Seq<char>)
    decreases cs.len(),
{
    if cs.len() == 0 {
        (Seq::empty(), Seq::empty())
    } else {
        let (o, n) = word_emph(cs.drop_last());
        let e = esc_text(cs.last().1);
        match cs.last().0 {
            WordTag::Equal => (o + e, n + e),
            WordTag::Delete => (o + "<del>"@ + e + "</del>"@, n),
            WordTag::Insert => (o, n + "<ins>"@ + e + "</ins>"@),
        }
    }
}

fn emphasize_pair(a: &str, b: &str) -> (r: (String, String))
    ensures
        (r.0@, r.1@) == word_emph(word_changes_of(a@, b@)),
{
    let cs = word_changes(a, b);
    let ghost cv = changes_view(cs@);
    let mut o = String::new();
    let mut n = String::new();
    let mut i: usize = 0;
    assert(cv.take(0) =~= Seq::<(WordTag, Seq<char>)>::empty());
    while i < cs.len()
        invariant
            i <= cs.len(),
            cv == changes_view(cs@),
            cv == word_changes_of(a@, b@),
            (o@, n@) == word_emph(cv.take(i as int)),
        decreases cs.len() - i,
    {
        assert(cv.take(i + 1).drop_last() =~= cv.take(i as int));
        let (tag, text) = (cs[i].0, cs[i].1.as_str());
        match tag {
            WordTag::Equal => {
                push_text_escaped(&mut o, text);
                push_text_escaped(&mut n, text);
            },
            WordTag::Delete => {
                push_str(&mut o, "<del>");
                push_text_escaped(&mut o, text);
                push_str(&mut o, "</del>");
            },
            WordTag::Insert => {
                push_str(&mut n, "<ins>");
                push_text_escaped(&mut n, text);
                push_str(&mut n, "</ins>");
            },
        }
        i = i + 1;
    }
    assert(cv.take(cs.len() as int) =~= cv);
    (o, n)
}

/// One side of a pair as HTML: word emphasis when the pair is similar enough
/// to be an edit, plain escaped text otherwise.
pub open spec fn emph_pair(a: Seq<char>, b: Seq<char>) -> (Seq<char>, Seq<char>) {
    if similar_enough(a, b) {
        word_emph(word_changes_of(a, b))
    } else {
        (esc_text(a), esc_text(b))
    }
}

/// The runs paired index-wise; unpaired lines stay plain.
pub open spec fn emph_old(old: Seq<Seq<char>>, new: Seq<Seq<char>>, i: int) -> Seq<char> {
    if i < new.len() {
        emph_pair(old[i], new[i]).0
    } else {
        esc_text(old[i])
    }
}

pub open spec fn emph_new(old: Seq<Seq<char>>, new: Seq<Seq<char>>, i: int) -> Seq<char> {
    if i < old.len() {
        emph_pair(old[i], new[i]).1
    } else {
        esc_text(new[i])
    }
}

/// Intraline emphasis over a removed run and an added run.
pub fn emphasize(old: &Vec<String>, new: &Vec<String>) -> (r: (Vec<String>, Vec<String>))
    ensures
        r.0.len() == old.len(),
        r.1.len() == new.len(),
        forall|i: int| 0 <= i < old.len() ==> #[trigger] r.0@[i]@ == emph_old(crate::format::strs_view(old@), crate::format::strs_view(new@), i),
        forall|i: int| 0 <= i < new.len() ==> #[trigger] r.1@[i]@ == emph_new(crate::format::strs_view(old@), crate::format::strs_view(new@), i),
{
    let ghost ov = crate::format::strs_view(old@);
    let ghost nv = crate::format::strs_view(new@);
    let mut oh: Vec<String> = Vec::new();
    let mut nh: Vec<String> = Vec::new();
    let mut i: usize = 0;
    while i < old.len()
        invariant
            i <= old.len(),
            ov == crate::format::strs_view(old@),
            nv == crate::format::strs_view(new@),
            oh.len() == i,
            forall|k: int| 0 <= k < i ==> #[trigger] oh@[k]@ == emph_old(ov, nv, k),
        decreases old.len() - i,
    {
        let s = if i < new.len() {
            let a = old[i].as_str();
            let b = new[i].as_str();
            if is_similar_enough(a, b) {
                emphasize_pair(a, b).0
            } else {
                let mut t = String::new();
                push_text_escaped(&mut t, a);
                t
            }
        } else {
            let mut t = String::new();
            push_text_escaped(&mut t, old[i].as_str());
            t
        };
        oh.push(s);
        i = i + 1;
    }
    let mut j: usize = 0;
    while j < new.len()
        invariant
            j <= new.len(),
            ov == crate::format::strs_view(old@),
            nv == crate::format::strs_view(new@),
            nh.len() == j,
            forall|k: int| 0 <= k < j ==> #[trigger] nh@[k]@ == emph_new(ov, nv, k),
        decreases new.len() - j,
    {
        let s = if j < old.len() {
            let a = old[j].as_str();
            let b = new[j].as_str();
            if is_similar_enough(a, b) {
                emphasize_pair(a, b).1
            } else {
                let mut t = String::new();
                push_text_escaped(&mut t, b);
                t
            }
        } else {
            let mut t = String::new();
            push_text_escaped(&mut t, new[j].as_str());
            t
        };
        nh.push(s);
        j = j + 1;
    }
    (oh, nh)
}


// ---- the aligned model -------------------------------------------------------------

/// A run of context lines, or a run of removed lines aligned against a run
/// of added lines — the model both views render from. Lines are numbered and
/// pre-escaped HTML (with `<del>`/`<ins>` emphasis on paired edits).
pub enum Segment {
    Context(Vec<(usize, usize, String)>),
    Change(Vec<(usize, String)>, Vec<(usize, String)>),
}

pub enum SegmentV {
    Context(Seq<(usize, usize, Seq<char>)>),
    Change(Seq<(usize, Seq<char>)>, Seq<(usize, Seq<char>)>),
}

pub open spec fn ctx_view(v: Seq<(usize, usize, String)>) -> Seq<(usize, usize, Seq<char>)> {
    v.map_values(|t: (usize, usize, String)| (t.0, t.1, t.2@))
}

pub open spec fn numbered_view(v: Seq<(usize, String)>) -> Seq<(usize, Seq<char>)> {
    v.map_values(|t: (usize, String)| (t.0, t.1@))
}

impl View for Segment {
    type V = SegmentV;

    open spec fn view(&self) -> SegmentV {
        match self {
            Segment::Context(v) => SegmentV::Context(ctx_view(v@)),
            Segment::Change(o, n) => SegmentV::Change(numbered_view(o@), numbered_view(n@)),
        }
    }
}

pub open spec fn segs_view(v: Seq<Segment>) -> Seq<SegmentV> {
    v.map_values(|s: Segment| s@)
}

/// `trim_end_matches('\n')`.
pub open spec fn trim_nl(t: Seq<char>) -> Seq<char>
    decreases t.len(),
{
    if t.len() > 0 && t.last() == '\n' {
        trim_nl(t.drop_last())
    } else {
        t
    }
}

fn trim_newlines(t: &str) -> (r: String)
    ensures
        r@ == trim_nl(t@),
{
    let v = crate::text::chars_of(t);
    let mut n: usize = v.len();
    assert(v@.subrange(0, n as int) =~= v@);
    while n > 0 && v[n - 1] == '\n'
        invariant
            n <= v.len(),
            v@ == t@,
            trim_nl(t@) == trim_nl(v@.subrange(0, n as int)),
        decreases n,
    {
        assert(v@.subrange(0, n as int).drop_last() =~= v@.subrange(0, n - 1));
        n = n - 1;
    }
    crate::text::string_of_range(&v, 0, n)
}

/// The next line number. Only a hunk header that claims a line at the very
/// top of the `usize` range gets there; the count then stays at the largest
/// number rather than stopping the render or starting over.
pub open spec fn inc(n: usize) -> usize {
    if n == usize::MAX {
        n
    } else {
        (n + 1) as usize
    }
}

fn next_no(n: usize) -> (r: usize)
    ensures
        r == inc(n),
{
    if n == usize::MAX {
        n
    } else {
        n + 1
    }
}

/// The fold's state: segments so far, the pending context run, the pending
/// removed and added runs (numbers and raw texts), and both line counters.
pub struct SegState {
    pub out: Seq<SegmentV>,
    pub ctx: Seq<(usize, usize, Seq<char>)>,
    pub dels: Seq<usize>,
    pub del_texts: Seq<Seq<char>>,
    pub inss: Seq<usize>,
    pub ins_texts: Seq<Seq<char>>,
    pub old_no: usize,
    pub new_no: usize,
}

pub open spec fn zip_nums(ns: Seq<usize>, hs: Seq<Seq<char>>) -> Seq<(usize, Seq<char>)> {
    Seq::new(ns.len(), |i: int| (ns[i], hs[i]))
}

/// Close a pending change: emphasize the pair of runs and append them.
pub open spec fn flush_change(st: SegState) -> SegState {
    if st.dels.len() == 0 && st.inss.len() == 0 {
        st
    } else {
        let oh = Seq::new(st.del_texts.len(), |i: int| emph_old(st.del_texts, st.ins_texts, i));
        let nh = Seq::new(st.ins_texts.len(), |i: int| emph_new(st.del_texts, st.ins_texts, i));
        SegState {
            out: st.out.push(SegmentV::Change(zip_nums(st.dels, oh), zip_nums(st.inss, nh))),
            ctx: st.ctx,
            dels: Seq::empty(),
            del_texts: Seq::empty(),
            inss: Seq::empty(),
            ins_texts: Seq::empty(),
            old_no: st.old_no,
            new_no: st.new_no,
        }
    }
}

/// Close a pending context run.
pub open spec fn flush_ctx(st: SegState) -> SegState {
    if st.ctx.len() > 0 {
        SegState {
            out: st.out.push(SegmentV::Context(st.ctx)),
            ctx: Seq::empty(),
            dels: st.dels,
            del_texts: st.del_texts,
            inss: st.inss,
            ins_texts: st.ins_texts,
            old_no: st.old_no,
            new_no: st.new_no,
        }
    } else {
        st
    }
}

pub open spec fn seg_step(st: SegState, line: DiffLineV) -> SegState {
    match line {
        DiffLineV::Context(t) => {
            let s = flush_change(st);
            SegState {
                ctx: s.ctx.push((s.old_no, s.new_no, esc_text(trim_nl(t)))),
                old_no: inc(s.old_no),
                new_no: inc(s.new_no),
                ..s
            }
        },
        DiffLineV::Delete(t) => {
            let s = flush_ctx(st);
            SegState {
                dels: s.dels.push(s.old_no),
                del_texts: s.del_texts.push(trim_nl(t)),
                old_no: inc(s.old_no),
                ..s
            }
        },
        DiffLineV::Insert(t) => {
            let s = flush_ctx(st);
            SegState {
                inss: s.inss.push(s.new_no),
                ins_texts: s.ins_texts.push(trim_nl(t)),
                new_no: inc(s.new_no),
                ..s
            }
        },
    }
}

pub open spec fn seg_init(old_start: usize, new_start: usize) -> SegState {
    SegState {
        out: Seq::empty(),
        ctx: Seq::empty(),
        dels: Seq::empty(),
        del_texts: Seq::empty(),
        inss: Seq::empty(),
        ins_texts: Seq::empty(),
        old_no: old_start,
        new_no: new_start,
    }
}

pub open spec fn seg_fold(old_start: usize, new_start: usize, lines: Seq<DiffLineV>) -> SegState
    decreases lines.len(),
{
    if lines.len() == 0 {
        seg_init(old_start, new_start)
    } else {
        seg_step(seg_fold(old_start, new_start, lines.drop_last()), lines.last())
    }
}

/// A hunk's lines folded into the aligned model, numbered from the hunk's
/// starts.
pub open spec fn segments_spec(old_start: usize, new_start: usize, lines: Seq<DiffLineV>) -> Seq<SegmentV> {
    flush_ctx(flush_change(seg_fold(old_start, new_start, lines))).out
}

struct SegBuilder {
    out: Vec<Segment>,
    ctx: Vec<(usize, usize, String)>,
    dels: Vec<usize>,
    del_texts: Vec<String>,
    inss: Vec<usize>,
    ins_texts: Vec<String>,
    old_no: usize,
    new_no: usize,
}

impl View for SegBuilder {
    type V = SegState;

    closed spec fn view(&self) -> SegState {
        SegState {
            out: segs_view(self.out@),
            ctx: ctx_view(self.ctx@),
            dels: self.dels@,
            del_texts: crate::format::strs_view(self.del_texts@),
            inss: self.inss@,
            ins_texts: crate::format::strs_view(self.ins_texts@),
            old_no: self.old_no,
            new_no: self.new_no,
        }
    }
}

impl SegBuilder {
    closed spec fn wf(&self) -> bool {
        self.dels.len() == self.del_texts.len() && self.inss.len() == self.ins_texts.len()
    }

    fn flush_change(&mut self)
        requires
            old(self).wf(),
        ensures
            final(self).wf(),
            final(self)@ == flush_change(old(self)@),
    {
        if self.dels.len() == 0 && self.inss.len() == 0 {
            return;
        }
        let ghost st = self@;
        let (oh, nh) = emphasize(&self.del_texts, &self.ins_texts);
        let ghost zo = zip_nums(st.dels, Seq::new(st.del_texts.len(), |k: int| emph_old(st.del_texts, st.ins_texts, k)));
        let ghost zn = zip_nums(st.inss, Seq::new(st.ins_texts.len(), |k: int| emph_new(st.del_texts, st.ins_texts, k)));
        let mut olds: Vec<(usize, String)> = Vec::new();
        let mut i: usize = 0;
        assert(numbered_view(olds@) =~= zo.take(0));
        while i < self.dels.len()
            invariant
                i <= self.dels.len(),
                self@ == st,
                self.wf(),
                st.dels == self.dels@,
                st.del_texts.len() == self.del_texts.len(),
                oh.len() == self.del_texts.len(),
                forall|k: int| 0 <= k < oh.len() ==> #[trigger] oh@[k]@ == emph_old(st.del_texts, st.ins_texts, k),
                zo == zip_nums(st.dels, Seq::new(st.del_texts.len(), |k: int| emph_old(st.del_texts, st.ins_texts, k))),
                numbered_view(olds@) == zo.take(i as int),
            decreases self.dels.len() - i,
        {
            let ghost prev = olds@;
            olds.push((self.dels[i], oh[i].clone()));
            assert(numbered_view(olds@) =~= numbered_view(prev).push((self.dels@[i as int], oh@[i as int]@)));
            assert(zo.take(i + 1) =~= zo.take(i as int).push(zo[i as int]));
            i = i + 1;
        }
        assert(zo.take(self.dels.len() as int) =~= zo);
        let mut news: Vec<(usize, String)> = Vec::new();
        let mut j: usize = 0;
        assert(numbered_view(news@) =~= zn.take(0));
        while j < self.inss.len()
            invariant
                j <= self.inss.len(),
                self@ == st,
                self.wf(),
                st.inss == self.inss@,
                st.ins_texts.len() == self.ins_texts.len(),
                nh.len() == self.ins_texts.len(),
                forall|k: int| 0 <= k < nh.len() ==> #[trigger] nh@[k]@ == emph_new(st.del_texts, st.ins_texts, k),
                zn == zip_nums(st.inss, Seq::new(st.ins_texts.len(), |k: int| emph_new(st.del_texts, st.ins_texts, k))),
                numbered_view(news@) == zn.take(j as int),
            decreases self.inss.len() - j,
        {
            let ghost prev = news@;
            news.push((self.inss[j], nh[j].clone()));
            assert(numbered_view(news@) =~= numbered_view(prev).push((self.inss@[j as int], nh@[j as int]@)));
            assert(zn.take(j + 1) =~= zn.take(j as int).push(zn[j as int]));
            j = j + 1;
        }
        assert(zn.take(self.inss.len() as int) =~= zn);
        let ghost prev = self.out@;
        self.out.push(Segment::Change(olds, news));
        assert(segs_view(self.out@) =~= segs_view(prev).push(SegmentV::Change(zo, zn)));
        self.dels = Vec::new();
        self.del_texts = Vec::new();
        self.inss = Vec::new();
        self.ins_texts = Vec::new();
        assert(crate::format::strs_view(self.del_texts@) =~= Seq::<Seq<char>>::empty());
        assert(crate::format::strs_view(self.ins_texts@) =~= Seq::<Seq<char>>::empty());
        assert(self.dels@ =~= Seq::<usize>::empty());
        assert(self.inss@ =~= Seq::<usize>::empty());
    }

    fn flush_ctx(&mut self)
        requires
            old(self).wf(),
        ensures
            final(self).wf(),
            final(self)@ == flush_ctx(old(self)@),
    {
        if self.ctx.len() > 0 {
            let mut ctx: Vec<(usize, usize, String)> = Vec::new();
            std::mem::swap(&mut ctx, &mut self.ctx);
            let ghost prev = self.out@;
            self.out.push(Segment::Context(ctx));
            assert(segs_view(self.out@) =~= segs_view(prev).push(self.out@.last()@));
            assert(ctx_view(self.ctx@) =~= Seq::<(usize, usize, Seq<char>)>::empty());
        }
    }
}

/// Fold a hunk's lines into the aligned model, numbering as we go and
/// rendering intraline emphasis on paired lines.
fn segments(old_start: usize, new_start: usize, lines: &Vec<DiffLine>) -> (r: Vec<Segment>)
    ensures
        segs_view(r@) == segments_spec(old_start, new_start, lines_view(lines@)),
{
    let ghost lv = lines_view(lines@);
    let mut b = SegBuilder {
        out: Vec::new(),
        ctx: Vec::new(),
        dels: Vec::new(),
        del_texts: Vec::new(),
        inss: Vec::new(),
        ins_texts: Vec::new(),
        old_no: old_start,
        new_no: new_start,
    };
    assert(segs_view(b.out@) =~= Seq::<SegmentV>::empty());
    assert(ctx_view(b.ctx@) =~= Seq::<(usize, usize, Seq<char>)>::empty());
    assert(crate::format::strs_view(b.del_texts@) =~= Seq::<Seq<char>>::empty());
    assert(crate::format::strs_view(b.ins_texts@) =~= Seq::<Seq<char>>::empty());
    assert(b.dels@ =~= Seq::<usize>::empty());
    assert(b.inss@ =~= Seq::<usize>::empty());
    assert(b@ == seg_init(old_start, new_start));
    assert(lv.take(0) =~= Seq::<DiffLineV>::empty());
    let mut i: usize = 0;
    while i < lines.len()
        invariant
            i <= lines.len(),
            lv == lines_view(lines@),
            b.wf(),
            b@ == seg_fold(old_start, new_start, lv.take(i as int)),
        decreases lines.len() - i,
    {
        assert(lv.take(i + 1).drop_last() =~= lv.take(i as int));
        let ghost before = b@;
        match &lines[i] {
            DiffLine::Context(t) => {
                b.flush_change();
                let ghost s = b@;
                let html = crate::render::text_escape(trim_newlines(t.as_str()).as_str());
                b.ctx.push((b.old_no, b.new_no, html));
                b.old_no = next_no(b.old_no);
                b.new_no = next_no(b.new_no);
                assert(ctx_view(b.ctx@) =~= s.ctx.push((s.old_no, s.new_no, esc_text(trim_nl(t@)))));
            },
            DiffLine::Delete(t) => {
                b.flush_ctx();
                let ghost s = b@;
                let text = trim_newlines(t.as_str());
                b.dels.push(b.old_no);
                b.del_texts.push(text);
                b.old_no = next_no(b.old_no);
                assert(crate::format::strs_view(b.del_texts@) =~= s.del_texts.push(trim_nl(t@)));
            },
            DiffLine::Insert(t) => {
                b.flush_ctx();
                let ghost s = b@;
                let text = trim_newlines(t.as_str());
                b.inss.push(b.new_no);
                b.ins_texts.push(text);
                b.new_no = next_no(b.new_no);
                assert(crate::format::strs_view(b.ins_texts@) =~= s.ins_texts.push(trim_nl(t@)));
            },
        }
        i = i + 1;
        assert(b@ =~= seg_step(before, lv[i - 1]));
    }
    assert(lv.take(lines.len() as int) =~= lv);
    b.flush_change();
    b.flush_ctx();
    b.out
}


// ---- the two tables ----------------------------------------------------------------

pub open spec fn hunk_head(r: (usize, usize, usize, usize)) -> Seq<char> {
    "@@ -"@ + dec(r.0 as nat) + seq![','] + dec(r.1 as nat) + " +"@ + dec(r.2 as nat) + seq![',']
        + dec(r.3 as nat) + " @@"@
}

pub open spec fn u_hunk_row(head: Seq<char>) -> Seq<char> {
    "<tr class=\"sv-hunk\"><td class=\"sv-no\"></td><td class=\"sv-no\"></td><td>"@ + head
        + "</td></tr>"@
}

pub open spec fn s_hunk_row(head: Seq<char>) -> Seq<char> {
    "<tr class=\"sv-hunk\"><td class=\"sv-no\"></td><td></td><td class=\"sv-no\"></td><td>"@
        + head + "</td></tr>"@
}

pub open spec fn u_ctx_row(l: (usize, usize, Seq<char>)) -> Seq<char> {
    "<tr><td class=\"sv-no\">"@ + dec(l.0 as nat) + "</td><td class=\"sv-no\">"@ + dec(l.1 as nat)
        + "</td><td>"@ + l.2 + "</td></tr>"@
}

pub open spec fn s_ctx_row(l: (usize, usize, Seq<char>)) -> Seq<char> {
    "<tr><td class=\"sv-no\">"@ + dec(l.0 as nat) + "</td><td>"@ + l.2 + "</td><td class=\"sv-no\">"@
        + dec(l.1 as nat) + "</td><td>"@ + l.2 + "</td></tr>"@
}

pub open spec fn u_del_row(l: (usize, Seq<char>)) -> Seq<char> {
    "<tr class=\"sv-del\"><td class=\"sv-no\">"@ + dec(l.0 as nat) + "</td><td class=\"sv-no\"></td><td>"@
        + l.1 + "</td></tr>"@
}

pub open spec fn u_ins_row(l: (usize, Seq<char>)) -> Seq<char> {
    "<tr class=\"sv-ins\"><td class=\"sv-no\"></td><td class=\"sv-no\">"@ + dec(l.0 as nat)
        + "</td><td>"@ + l.1 + "</td></tr>"@
}

/// One side of a split change row: number, class, html — or empty cells.
pub open spec fn side(v: Seq<(usize, Seq<char>)>, i: int, class: Seq<char>) -> (Seq<char>, Seq<char>, Seq<char>) {
    if i < v.len() {
        (dec(v[i].0 as nat), class, v[i].1)
    } else {
        (Seq::empty(), "sv-empty"@, Seq::empty())
    }
}

/// One side's two cells of a split change row.
pub open spec fn side_cells(v: Seq<(usize, Seq<char>)>, i: int, class: Seq<char>) -> Seq<char> {
    let (no, c, h) = side(v, i, class);
    "<td class=\"sv-no\">"@ + no + "</td><td class=\""@ + c + "\">"@ + h + "</td>"@
}

/// Split is the two-column reading: pairs side by side, unpaired lines
/// against empty cells.
pub open spec fn s_change_row(old: Seq<(usize, Seq<char>)>, new: Seq<(usize, Seq<char>)>, i: int) -> Seq<char> {
    "<tr>"@ + side_cells(old, i, "sv-del"@) + side_cells(new, i, "sv-ins"@) + "</tr>"@
}

pub open spec fn max_len(a: nat, b: nat) -> nat {
    if a >= b {
        a
    } else {
        b
    }
}

pub open spec fn u_segment(seg: SegmentV) -> Seq<char> {
    match seg {
        SegmentV::Context(ls) => concat(Seq::new(ls.len(), |i: int| u_ctx_row(ls[i]))),
        SegmentV::Change(old, new) => concat(Seq::new(old.len(), |i: int| u_del_row(old[i])))
            + concat(Seq::new(new.len(), |i: int| u_ins_row(new[i]))),
    }
}

pub open spec fn s_segment(seg: SegmentV) -> Seq<char> {
    match seg {
        SegmentV::Context(ls) => concat(Seq::new(ls.len(), |i: int| s_ctx_row(ls[i]))),
        SegmentV::Change(old, new) => concat(
            Seq::new(max_len(old.len(), new.len()), |i: int| s_change_row(old, new, i)),
        ),
    }
}

fn push_u_ctx_row(out: &mut String, l: &(usize, usize, String))
    ensures
        final(out)@ == old(out)@ + u_ctx_row((l.0, l.1, l.2@)),
{
    push_str(out, "<tr><td class=\"sv-no\">");
    push_usize(out, l.0);
    push_str(out, "</td><td class=\"sv-no\">");
    push_usize(out, l.1);
    push_str(out, "</td><td>");
    push_str(out, l.2.as_str());
    push_str(out, "</td></tr>");
}

fn push_s_ctx_row(out: &mut String, l: &(usize, usize, String))
    ensures
        final(out)@ == old(out)@ + s_ctx_row((l.0, l.1, l.2@)),
{
    push_str(out, "<tr><td class=\"sv-no\">");
    push_usize(out, l.0);
    push_str(out, "</td><td>");
    push_str(out, l.2.as_str());
    push_str(out, "</td><td class=\"sv-no\">");
    push_usize(out, l.1);
    push_str(out, "</td><td>");
    push_str(out, l.2.as_str());
    push_str(out, "</td></tr>");
}

fn push_u_del_row(out: &mut String, l: &(usize, String))
    ensures
        final(out)@ == old(out)@ + u_del_row((l.0, l.1@)),
{
    push_str(out, "<tr class=\"sv-del\"><td class=\"sv-no\">");
    push_usize(out, l.0);
    push_str(out, "</td><td class=\"sv-no\"></td><td>");
    push_str(out, l.1.as_str());
    push_str(out, "</td></tr>");
}

fn push_u_ins_row(out: &mut String, l: &(usize, String))
    ensures
        final(out)@ == old(out)@ + u_ins_row((l.0, l.1@)),
{
    push_str(out, "<tr class=\"sv-ins\"><td class=\"sv-no\"></td><td class=\"sv-no\">");
    push_usize(out, l.0);
    push_str(out, "</td><td>");
    push_str(out, l.1.as_str());
    push_str(out, "</td></tr>");
}

fn push_side(out: &mut String, v: &Vec<(usize, String)>, i: usize, class: &str)
    ensures
        final(out)@ == old(out)@ + side_cells(numbered_view(v@), i as int, class@),
{
    push_str(out, "<td class=\"sv-no\">");
    if i < v.len() {
        push_usize(out, v[i].0);
        push_str(out, "</td><td class=\"");
        push_str(out, class);
        push_str(out, "\">");
        push_str(out, v[i].1.as_str());
    } else {
        push_str(out, "</td><td class=\"");
        push_str(out, "sv-empty");
        push_str(out, "\">");
    }
    push_str(out, "</td>");
}

fn push_s_change_row(out: &mut String, olds: &Vec<(usize, String)>, news: &Vec<(usize, String)>, i: usize)
    ensures
        final(out)@ == old(out)@ + s_change_row(numbered_view(olds@), numbered_view(news@), i as int),
{
    push_str(out, "<tr>");
    push_side(out, olds, i, "sv-del");
    push_side(out, news, i, "sv-ins");
    push_str(out, "</tr>");
}

fn push_u_segment(out: &mut String, seg: &Segment)
    ensures
        final(out)@ == old(out)@ + u_segment(seg@),
{
    match seg {
        Segment::Context(ls) => {
            let ghost rows = Seq::new(ls@.len(), |i: int| u_ctx_row(ctx_view(ls@)[i]));
            let mut i: usize = 0;
            assert(rows.take(0) =~= Seq::<Seq<char>>::empty());
            while i < ls.len()
                invariant
                    i <= ls.len(),
                    rows == Seq::new(ls@.len(), |i: int| u_ctx_row(ctx_view(ls@)[i])),
                    out@ == old(out)@ + concat(rows.take(i as int)),
                decreases ls.len() - i,
            {
                push_u_ctx_row(out, &ls[i]);
                proof {
                    crate::text::lemma_concat_take(rows, i as int);
                }
                i = i + 1;
            }
            assert(rows.take(ls.len() as int) =~= rows);
        },
        Segment::Change(o, n) => {
            let ghost rows = Seq::new(o@.len(), |i: int| u_del_row(numbered_view(o@)[i]));
            let mut i: usize = 0;
            assert(rows.take(0) =~= Seq::<Seq<char>>::empty());
            while i < o.len()
                invariant
                    i <= o.len(),
                    rows == Seq::new(o@.len(), |i: int| u_del_row(numbered_view(o@)[i])),
                    out@ == old(out)@ + concat(rows.take(i as int)),
                decreases o.len() - i,
            {
                push_u_del_row(out, &o[i]);
                proof {
                    crate::text::lemma_concat_take(rows, i as int);
                }
                i = i + 1;
            }
            assert(rows.take(o.len() as int) =~= rows);
            let ghost mid = out@;
            let ghost rows2 = Seq::new(n@.len(), |i: int| u_ins_row(numbered_view(n@)[i]));
            let mut j: usize = 0;
            assert(rows2.take(0) =~= Seq::<Seq<char>>::empty());
            while j < n.len()
                invariant
                    j <= n.len(),
                    rows2 == Seq::new(n@.len(), |i: int| u_ins_row(numbered_view(n@)[i])),
                    out@ == mid + concat(rows2.take(j as int)),
                decreases n.len() - j,
            {
                push_u_ins_row(out, &n[j]);
                proof {
                    crate::text::lemma_concat_take(rows2, j as int);
                }
                j = j + 1;
            }
            assert(rows2.take(n.len() as int) =~= rows2);
        },
    }
}

fn push_s_segment(out: &mut String, seg: &Segment)
    ensures
        final(out)@ == old(out)@ + s_segment(seg@),
{
    match seg {
        Segment::Context(ls) => {
            let ghost rows = Seq::new(ls@.len(), |i: int| s_ctx_row(ctx_view(ls@)[i]));
            let mut i: usize = 0;
            assert(rows.take(0) =~= Seq::<Seq<char>>::empty());
            while i < ls.len()
                invariant
                    i <= ls.len(),
                    rows == Seq::new(ls@.len(), |i: int| s_ctx_row(ctx_view(ls@)[i])),
                    out@ == old(out)@ + concat(rows.take(i as int)),
                decreases ls.len() - i,
            {
                push_s_ctx_row(out, &ls[i]);
                proof {
                    crate::text::lemma_concat_take(rows, i as int);
                }
                i = i + 1;
            }
            assert(rows.take(ls.len() as int) =~= rows);
        },
        Segment::Change(o, n) => {
            let m: usize = if o.len() >= n.len() { o.len() } else { n.len() };
            let ghost rows = Seq::new(m as nat, |i: int| s_change_row(numbered_view(o@), numbered_view(n@), i));
            let mut i: usize = 0;
            assert(rows.take(0) =~= Seq::<Seq<char>>::empty());
            while i < m
                invariant
                    i <= m,
                    rows == Seq::new(m as nat, |i: int| s_change_row(numbered_view(o@), numbered_view(n@), i)),
                    out@ == old(out)@ + concat(rows.take(i as int)),
                decreases m - i,
            {
                push_s_change_row(out, o, n, i);
                proof {
                    crate::text::lemma_concat_take(rows, i as int);
                }
                i = i + 1;
            }
            assert(rows.take(m as int) =~= rows);
        },
    }
}


pub open spec fn u_hunk(r: (usize, usize, usize, usize), segs: Seq<SegmentV>) -> Seq<char> {
    u_hunk_row(hunk_head(r)) + concat(Seq::new(segs.len(), |k: int| u_segment(segs[k])))
}

pub open spec fn s_hunk(r: (usize, usize, usize, usize), segs: Seq<SegmentV>) -> Seq<char> {
    s_hunk_row(hunk_head(r)) + concat(Seq::new(segs.len(), |k: int| s_segment(segs[k])))
}

/// The aligned model of hunk `j` of file `i`.
pub open spec fn hunk_segs(body: Seq<char>, i: usize, rs: Seq<(usize, usize, usize, usize)>, j: int) -> Seq<SegmentV> {
    segments_spec(rs[j].0, rs[j].2, diffy_lines_of(body, i, j as usize))
}

pub open spec fn unified_table(body: Seq<char>, i: usize, rs: Seq<(usize, usize, usize, usize)>) -> Seq<char> {
    "<table class=\"sv-diff-table sv-view-unified\"><tbody>"@ + concat(
        Seq::new(rs.len(), |j: int| u_hunk(rs[j], hunk_segs(body, i, rs, j))),
    ) + "</tbody></table>"@
}

pub open spec fn split_table(body: Seq<char>, i: usize, rs: Seq<(usize, usize, usize, usize)>) -> Seq<char> {
    "<table class=\"sv-diff-table sv-view-split\"><tbody>"@ + concat(
        Seq::new(rs.len(), |j: int| s_hunk(rs[j], hunk_segs(body, i, rs, j))),
    ) + "</tbody></table>"@
}

fn push_hunk_head(out: &mut String, r: (usize, usize, usize, usize))
    ensures
        final(out)@ == old(out)@ + hunk_head(r),
{
    push_str(out, "@@ -");
    push_usize(out, r.0);
    push_char(out, ',');
    push_usize(out, r.1);
    push_str(out, " +");
    push_usize(out, r.2);
    push_char(out, ',');
    push_usize(out, r.3);
    push_str(out, " @@");
}

/// One hunk's rows in both views.
fn push_hunk(unified: &mut String, split: &mut String, body: &str, i: usize, rs: &Vec<(usize, usize, usize, usize)>, j: usize)
    requires
        j < rs.len(),
        i < diffy_files_of(body@).0.len(),
        diffy_hunks_of(body@, i) == Some(rs@),
    ensures
        final(unified)@ == old(unified)@ + u_hunk(rs@[j as int], hunk_segs(body@, i, rs@, j as int)),
        final(split)@ == old(split)@ + s_hunk(rs@[j as int], hunk_segs(body@, i, rs@, j as int)),
{
    let r = rs[j];
    let lines = diffy_lines(body, i, j);
    let segs = segments(r.0, r.2, &lines);
    let ghost sv = segs_view(segs@);
    assert(sv == hunk_segs(body@, i, rs@, j as int));
    push_str(unified, "<tr class=\"sv-hunk\"><td class=\"sv-no\"></td><td class=\"sv-no\"></td><td>");
    push_hunk_head(unified, r);
    push_str(unified, "</td></tr>");
    push_str(split, "<tr class=\"sv-hunk\"><td class=\"sv-no\"></td><td></td><td class=\"sv-no\"></td><td>");
    push_hunk_head(split, r);
    push_str(split, "</td></tr>");
    let ghost um = unified@;
    let ghost sm = split@;
    let ghost urows = Seq::new(sv.len(), |k: int| u_segment(sv[k]));
    let ghost srows = Seq::new(sv.len(), |k: int| s_segment(sv[k]));
    let mut k: usize = 0;
    assert(urows.take(0) =~= Seq::<Seq<char>>::empty());
    assert(srows.take(0) =~= Seq::<Seq<char>>::empty());
    while k < segs.len()
        invariant
            k <= segs.len(),
            sv == segs_view(segs@),
            urows == Seq::new(sv.len(), |k: int| u_segment(sv[k])),
            srows == Seq::new(sv.len(), |k: int| s_segment(sv[k])),
            unified@ == um + concat(urows.take(k as int)),
            split@ == sm + concat(srows.take(k as int)),
        decreases segs.len() - k,
    {
        push_u_segment(unified, &segs[k]);
        push_s_segment(split, &segs[k]);
        proof {
            crate::text::lemma_concat_take(urows, k as int);
            crate::text::lemma_concat_take(srows, k as int);
        }
        k = k + 1;
    }
    assert(urows.take(segs.len() as int) =~= urows);
    assert(srows.take(segs.len() as int) =~= srows);
}

/// Both views of one file, from one aligned model: the unified table and
/// the split table, built from the hunk ranges diffy read for that file.
pub fn tables(body: &str, i: usize, rs: &Vec<(usize, usize, usize, usize)>) -> (r: String)
    requires
        i < diffy_files_of(body@).0.len(),
        diffy_hunks_of(body@, i) == Some(rs@),
    ensures
        r@ == unified_table(body@, i, rs@) + split_table(body@, i, rs@),
{
    let ghost uh = Seq::new(rs@.len(), |j: int| u_hunk(rs@[j], hunk_segs(body@, i, rs@, j)));
    let ghost sh = Seq::new(rs@.len(), |j: int| s_hunk(rs@[j], hunk_segs(body@, i, rs@, j)));
    let mut unified = String::new();
    push_str(&mut unified, "<table class=\"sv-diff-table sv-view-unified\"><tbody>");
    let mut split = String::new();
    push_str(&mut split, "<table class=\"sv-diff-table sv-view-split\"><tbody>");
    let ghost u0 = unified@;
    let ghost s0 = split@;
    let mut j: usize = 0;
    assert(uh.take(0) =~= Seq::<Seq<char>>::empty());
    assert(sh.take(0) =~= Seq::<Seq<char>>::empty());
    while j < rs.len()
        invariant
            j <= rs.len(),
            i < diffy_files_of(body@).0.len(),
            diffy_hunks_of(body@, i) == Some(rs@),
            uh == Seq::new(rs@.len(), |j: int| u_hunk(rs@[j], hunk_segs(body@, i, rs@, j))),
            sh == Seq::new(rs@.len(), |j: int| s_hunk(rs@[j], hunk_segs(body@, i, rs@, j))),
            unified@ == u0 + concat(uh.take(j as int)),
            split@ == s0 + concat(sh.take(j as int)),
        decreases rs.len() - j,
    {
        let ghost ub = unified@;
        let ghost sb = split@;
        push_hunk(&mut unified, &mut split, body, i, rs, j);
        assert(unified@ =~= ub + uh[j as int]);
        assert(split@ =~= sb + sh[j as int]);
        proof {
            crate::text::lemma_concat_take(uh, j as int);
            crate::text::lemma_concat_take(sh, j as int);
        }
        j = j + 1;
    }
    assert(uh.take(rs.len() as int) =~= uh);
    assert(sh.take(rs.len() as int) =~= sh);
    push_str(&mut unified, "</tbody></table>");
    push_str(&mut split, "</tbody></table>");
    push_str(&mut unified, split.as_str());
    unified
}

// ---- files, the outline, the block -------------------------------------------------

/// One file's header (anchored for the outline) and its tables, or the
/// binary notice.
pub open spec fn file_html(body: Seq<char>, block_id: Seq<char>, i: usize, op: FileOpV) -> Seq<char> {
    let head = "<div class=\"sv-diff-path\" id=\""@ + anchor_spec(block_id, i as nat) + "\">"@ + esc_text(
        title_spec(op),
    ) + "</div>"@;
    match diffy_hunks_of(body, i) {
        Some(rs) => head + unified_table(body, i, rs) + split_table(body, i, rs),
        None => head + "<div class=\"sv-diff-note\">binary file changed</div>"@,
    }
}

/// The note for a parse that stopped early: the whole body, or the rest of it.
pub open spec fn parse_note(body: Seq<char>) -> Option<Seq<char>> {
    let (ops, err) = diffy_files_of(body);
    match err {
        Some(e) => Some(
            if ops.len() == 0 {
                "could not parse as a diff: "@ + e
            } else {
                "rest of the diff could not be parsed: "@ + e
            },
        ),
        None => None,
    }
}

pub open spec fn figure_head(view: Seq<char>) -> Seq<char> {
    "<figure class=\"sv-diff\" data-view=\""@ + view
        + "\"><div class=\"sv-diff-bar\"><button type=\"button\" class=\"sv-diff-toggle\" title=\"toggle unified / side-by-side\">⇄ view</button></div>"@
}

/// What `render` returns: raw and escaped under a degraded note when no file
/// parsed; otherwise both views of every file that parsed, and the note for a
/// parse that stopped early.
pub open spec fn render_spec(block_id: Seq<char>, body: Seq<char>, view: Seq<char>) -> Seq<char> {
    let v = if view == "split"@ {
        "split"@
    } else {
        "unified"@
    };
    let ops = diffy_files_of(body).0;
    let note = parse_note(body);
    if ops.len() == 0 {
        "<p class=\"sv-degraded-note\">"@ + esc_text(
            match note {
                Some(n) => n,
                None => "not a unified diff — shown raw"@,
            },
        ) + "</p>"@ + "<pre><code>"@ + esc_text(body) + "</code></pre>"@
    } else {
        figure_head(v) + concat(Seq::new(ops.len(), |i: int| file_html(body, block_id, i as usize, ops[i])))
            + match note {
            Some(n) => "<div class=\"sv-parse-warning\">"@ + esc_text(n) + "</div>"@,
            None => Seq::empty(),
        } + "</figure>"@
    }
}

fn push_file_html(out: &mut String, body: &str, block_id: &str, i: usize, op: &FileOp)
    requires
        i < diffy_files_of(body@).0.len(),
    ensures
        final(out)@ == old(out)@ + file_html(body@, block_id@, i, op@),
{
    push_str(out, "<div class=\"sv-diff-path\" id=\"");
    push_str(out, anchor(block_id, i).as_str());
    push_str(out, "\">");
    push_text_escaped(out, title_for(op).as_str());
    push_str(out, "</div>");
    match diffy_hunks(body, i) {
        Some(rs) => {
            push_str(out, tables(body, i, &rs).as_str());
        },
        None => {
            push_str(out, "<div class=\"sv-diff-note\">binary file changed</div>");
        },
    }
}

fn note_of(n_files: usize, err: &Option<String>) -> (r: Option<String>)
    ensures
        r matches Some(s) ==> err is Some && s@ == if n_files == 0 {
            "could not parse as a diff: "@ + err->0@
        } else {
            "rest of the diff could not be parsed: "@ + err->0@
        },
        r is None ==> err is None,
{
    match err {
        Some(e) => {
            let mut n = String::new();
            if n_files == 0 {
                push_str(&mut n, "could not parse as a diff: ");
            } else {
                push_str(&mut n, "rest of the diff could not be parsed: ");
            }
            push_str(&mut n, e.as_str());
            Some(n)
        },
        None => None,
    }
}

/// Render an `sv-diff` body. `view="split|unified"` is the agent's default
/// (anything else reads as unified); never errors.
pub fn render(block_id: &str, body: &str, view: &str) -> (r: String)
    ensures
        r@ == render_spec(block_id@, body@, view@),
{
    let v = if str_eq(view, "split") { "split" } else { "unified" };
    let (ops, err) = diffy_files(body);
    let note = note_of(ops.len(), &err);
    assert(ops_view(ops@).len() == ops.len());
    let mut out = String::new();
    if ops.len() == 0 {
        push_str(&mut out, "<p class=\"sv-degraded-note\">");
        match &note {
            Some(n) => push_text_escaped(&mut out, n.as_str()),
            None => push_text_escaped(&mut out, "not a unified diff — shown raw"),
        }
        push_str(&mut out, "</p>");
        push_str(&mut out, "<pre><code>");
        push_text_escaped(&mut out, body);
        push_str(&mut out, "</code></pre>");
        return out;
    }
    push_str(&mut out, "<figure class=\"sv-diff\" data-view=\"");
    push_str(&mut out, v);
    push_str(
        &mut out,
        "\"><div class=\"sv-diff-bar\"><button type=\"button\" class=\"sv-diff-toggle\" title=\"toggle unified / side-by-side\">⇄ view</button></div>",
    );
    let ghost ov = ops_view(ops@);
    let ghost files = Seq::new(ov.len(), |i: int| file_html(body@, block_id@, i as usize, ov[i]));
    let ghost start = out@;
    let mut i: usize = 0;
    assert(files.take(0) =~= Seq::<Seq<char>>::empty());
    while i < ops.len()
        invariant
            i <= ops.len(),
            ov == ops_view(ops@),
            ov == diffy_files_of(body@).0,
            files == Seq::new(ov.len(), |i: int| file_html(body@, block_id@, i as usize, ov[i])),
            out@ == start + concat(files.take(i as int)),
        decreases ops.len() - i,
    {
        push_file_html(&mut out, body, block_id, i, &ops[i]);
        proof {
            crate::text::lemma_concat_take(files, i as int);
        }
        i = i + 1;
    }
    assert(files.take(ops.len() as int) =~= files);
    match &note {
        Some(n) => {
            push_str(&mut out, "<div class=\"sv-parse-warning\">");
            push_text_escaped(&mut out, n.as_str());
            push_str(&mut out, "</div>");
        },
        None => {},
    }
    push_str(&mut out, "</figure>");
    out
}

/// The outline contract: each file's path is a level-2 section heading, so
/// the rail navigates a multi-file diff; anchors match the ids `render`
/// emits.
pub open spec fn outline_spec(block_id: Seq<char>, body: Seq<char>) -> Seq<(u8, Seq<char>, Option<Seq<char>>)> {
    let ops = diffy_files_of(body).0;
    Seq::new(ops.len(), |i: int| (2u8, title_spec(ops[i]), Some(anchor_spec(block_id, i as nat))))
}

pub fn outline(block_id: &str, body: &str) -> (r: Vec<crate::render::Heading>)
    ensures
        crate::render::headings_view(r@) == outline_spec(block_id@, body@),
{
    let (ops, _) = diffy_files(body);
    let ghost ov = ops_view(ops@);
    let mut r: Vec<crate::render::Heading> = Vec::new();
    let mut i: usize = 0;
    while i < ops.len()
        invariant
            i <= ops.len(),
            ov == ops_view(ops@),
            ov == diffy_files_of(body@).0,
            crate::render::headings_view(r@) =~= outline_spec(block_id@, body@).take(i as int),
        decreases ops.len() - i,
    {
        let ghost prev = r@;
        r.push(crate::render::Heading { level: 2, text: title_for(&ops[i]), id: Some(anchor(block_id, i)) });
        assert(crate::render::headings_view(r@) =~= crate::render::headings_view(prev).push(
            crate::render::heading_view(r@.last()),
        ));
        i = i + 1;
    }
    r
}


/// What a file is called says what happened to it: a created file is its
/// path and ` (new)`, a deleted file its path and ` (deleted)` — never the
/// same title for the same path — and a file modified in place is just its
/// path.
pub proof fn lemma_titles_say_what_happened(p: Seq<char>)
    ensures
        title_spec(FileOpV::Create(p)) == p + " (new)"@,
        title_spec(FileOpV::Delete(p)) == p + " (deleted)"@,
        title_spec(FileOpV::Delete(p)) != title_spec(FileOpV::Create(p)),
        title_spec(FileOpV::Modify(p, p)) == p,
{
    reveal_strlit(" (new)");
    reveal_strlit(" (deleted)");
    let a = p + " (new)"@;
    let b = p + " (deleted)"@;
    assert(a.len() != b.len());
}


/// Renames and copies name both paths, in order: `from → to`, a copy
/// marked ` (copy)`; a modification that moves the path names both too.
pub proof fn lemma_titles_name_both_paths(f: Seq<char>, t: Seq<char>)
    ensures
        title_spec(FileOpV::Rename(f, t)) == f + " → "@ + t,
        title_spec(FileOpV::Copy(f, t)) == f + " → "@ + t + " (copy)"@,
        f != t ==> title_spec(FileOpV::Modify(f, t)) == f + " → "@ + t,
{
}

} // verus!
