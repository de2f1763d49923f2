//! What the authoring verbs promise over the format: the block a write
//! appends reads back from the new text as the page's newest block, under
//! the id the command printed.

use vstd::prelude::*;

use crate::edit::{append_block_spec, author_spec, first_bad, last_closer};
use crate::format::{
    attrs_text, block_text_spec, finish_spec, flush_spec, marker_spec, parse_spec, scan_end,
    scan_fold, scan_init, step_spec, strip_nl, BlockV, MarkerV, OpenV, PageV, ScanV,
};
use crate::format_laws::{
    attr_ok, attrs_ok, lemma_block_text_lines, lemma_closer_line, lemma_opener_line, valid_tag,
};
use crate::text::{
    dec, is_lower_or_digit, join_lines, lemma_lines_acc_append, lemma_lines_acc_no_nl, lines,
    lines_acc, strip_cr, trim,
};

verus! {

/// The scan continued over more lines, from a state, numbering the lines
/// from `base`.
pub open spec fn scan_from(st: ScanV, base: nat, ls: Seq<Seq<char>>) -> ScanV
    decreases ls.len(),
{
    if ls.len() == 0 {
        st
    } else {
        step_spec(scan_from(st, base, ls.drop_last()), (base + ls.len() - 1) as nat, ls.last())
    }
}

pub(crate) proof fn lemma_scan_concat(a: Seq<Seq<char>>, b: Seq<Seq<char>>)
    ensures
        scan_fold(a + b) == scan_from(scan_fold(a), a.len(), b),
    decreases b.len(),
{
    if b.len() == 0 {
        assert(a + b =~= a);
    } else {
        lemma_scan_concat(a, b.drop_last());
        assert((a + b).drop_last() =~= a + b.drop_last());
        assert((a + b).last() == b.last());
    }
}

pub(crate) proof fn lemma_scan_from_concat(st: ScanV, base: nat, a: Seq<Seq<char>>, b: Seq<Seq<char>>)
    ensures
        scan_from(st, base, a + b) == scan_from(scan_from(st, base, a), base + a.len(), b),
    decreases b.len(),
{
    if b.len() == 0 {
        assert(a + b =~= a);
    } else {
        lemma_scan_from_concat(st, base, a, b.drop_last());
        assert((a + b).drop_last() =~= a + b.drop_last());
        assert((a + b).last() == b.last());
    }
}

/// Body lines of an open block: each joins the body, nothing else moves.
pub(crate) proof fn lemma_body_lines(st: ScanV, base: nat, lb: Seq<Seq<char>>, k: int)
    requires
        st.open is Some,
        0 <= k <= lb.len(),
        forall|i: int| 0 <= i < lb.len() ==> marker_spec(#[trigger] lb[i]) is None,
    ensures
        scan_from(st, base, lb.take(k)) == (ScanV {
            page: st.page,
            seen_page_tag: st.seen_page_tag,
            open: Some(
                OpenV {
                    name: st.open->0.name,
                    attrs: st.open->0.attrs,
                    body: st.open->0.body + lb.take(k),
                    warnings: st.open->0.warnings,
                    start: st.open->0.start,
                },
            ),
            stray: st.stray,
        }),
    decreases k,
{
    if k == 0 {
        assert(lb.take(0) =~= Seq::<Seq<char>>::empty());
        assert(st.open->0.body + lb.take(0) =~= st.open->0.body);
    } else {
        lemma_body_lines(st, base, lb, k - 1);
        let prev = scan_from(st, base, lb.take(k - 1));
        assert(lb.take(k).drop_last() =~= lb.take(k - 1));
        assert(lb.take(k).last() == lb[k - 1]);
        assert(marker_spec(lb[k - 1]) is None);
        assert(scan_from(st, base, lb.take(k)) == step_spec(prev, (base + k - 1) as nat, lb[k - 1]));
        assert(step_spec(prev, (base + k - 1) as nat, lb[k - 1]) == crate::format::push_body(prev, lb[k - 1]));
        assert(st.open->0.body + lb.take(k - 1) + seq![lb[k - 1]] =~= st.open->0.body + lb.take(k));
        assert((st.open->0.body + lb.take(k - 1)).push(lb[k - 1]) =~= st.open->0.body + lb.take(k));
    }
}

/// The block a serialized block's lines make.
pub open spec fn written_block(
    t: Seq<char>,
    a: Seq<(Seq<char>, Seq<char>)>,
    lb: Seq<Seq<char>>,
    start: nat,
) -> BlockV {
    BlockV {
        tag_name: t,
        attrs: a,
        body: join_lines(lb),
        warnings: Seq::empty(),
        lines: (start, (start + lb.len() + 2) as nat),
    }
}

pub(crate) proof fn lemma_lines_acc_newline()
    ensures
        lines_acc(seq!['\n']) == (seq![Seq::<char>::empty()], Seq::<char>::empty()),
{
    assert(seq!['\n'].drop_last() =~= Seq::<char>::empty());
    assert(lines_acc(Seq::<char>::empty()) == (Seq::<Seq<char>>::empty(), Seq::<char>::empty()));
    assert(strip_cr(Seq::<char>::empty()) =~= Seq::<char>::empty());
    assert(Seq::<Seq<char>>::empty().push(Seq::<char>::empty()) =~= seq![Seq::<char>::empty()]);
}

pub(crate) proof fn lemma_scan_from_one(st: ScanV, base: nat, l: Seq<char>)
    ensures
        scan_from(st, base, seq![l]) == step_spec(st, base, l),
{
    assert(seq![l].drop_last() =~= Seq::<Seq<char>>::empty());
    assert(scan_from(st, base, Seq::<Seq<char>>::empty()) == st);
}

/// A blank line: taken into an open block's body, else it only ends a run
/// of stray content.
pub(crate) proof fn lemma_step_blank(st: ScanV, n: nat)
    ensures
        step_spec(st, n, Seq::<char>::empty()) == (match st.open {
            Some(_) => crate::format::push_body(st, Seq::<char>::empty()),
            None => flush_spec(st, n),
        }),
{
    assert(crate::text::trim_end(Seq::<char>::empty()) =~= Seq::<char>::empty());
    assert(trim(Seq::<char>::empty()) =~= Seq::<char>::empty());
    assert(marker_spec(Seq::<char>::empty()) is None);
}

/// An opener: whatever was open is closed (with a warning), stray content
/// is flushed, and the new block opens.
pub(crate) proof fn lemma_step_open(st: ScanV, i: nat, t: Seq<char>, a: Seq<(Seq<char>, Seq<char>)>)
    requires
        valid_tag(t),
        t != "sv-page"@,
        attrs_ok(a),
    ensures
        ({
            let r = step_spec(st, i, seq!['<'] + t + attrs_text(a) + seq!['>']);
            &&& r.open == Some(OpenV { name: t, attrs: a, body: Seq::empty(), warnings: Seq::empty(), start: i })
            &&& r.stray is None
            &&& (st.open is None && st.stray is None) ==> (r.page == st.page && r.seen_page_tag == st.seen_page_tag)
        }),
{
    lemma_opener_line(t, a);
}

/// The closer of the open block: the block joins the page.
pub(crate) proof fn lemma_step_close(st: ScanV, i: nat, t: Seq<char>)
    requires
        valid_tag(t),
        st.open matches Some(o) && o.name == t,
    ensures
        step_spec(st, i, seq!['<', '/'] + t + seq!['>']) == finish_spec(st, i + 1),
{
    lemma_closer_line(t);
}

/// From any scan state, a blank line and then a block's lines leave that
/// block as the page's newest, with nothing open and nothing stray; from a
/// state with nothing open or stray, nothing else changes.
proof fn lemma_blank_then_block(st: ScanV, n: nat, t: Seq<char>, a: Seq<(Seq<char>, Seq<char>)>, lb: Seq<Seq<char>>)
    requires
        valid_tag(t),
        t != "sv-page"@,
        attrs_ok(a),
        forall|i: int| 0 <= i < lb.len() ==> marker_spec(#[trigger] lb[i]) is None,
    ensures
        ({
            let r = scan_from(
                st,
                n,
                seq![Seq::<char>::empty(), seq!['<'] + t + attrs_text(a) + seq!['>']] + lb + seq![
                    seq!['<', '/'] + t + seq!['>'],
                ],
            );
            &&& r.open is None
            &&& r.stray is None
            &&& r.page.blocks.len() > 0
            &&& r.page.blocks.last() == written_block(t, a, lb, n + 1)
            &&& (st.open is None && st.stray is None) ==> (r.page.blocks == st.page.blocks.push(
                written_block(t, a, lb, n + 1),
            ) && r.page.props == st.page.props && r.page.warnings == st.page.warnings
                && r.seen_page_tag == st.seen_page_tag)
        }),
{
    let o = seq!['<'] + t + attrs_text(a) + seq!['>'];
    let c = seq!['<', '/'] + t + seq!['>'];
    let blank = Seq::<char>::empty();
    lemma_step_blank(st, n);
    lemma_scan_from_one(st, n, blank);
    let s1 = step_spec(st, n, blank);
    lemma_step_open(s1, n + 1, t, a);
    lemma_scan_from_one(s1, n + 1, o);
    lemma_scan_from_concat(st, n, seq![blank], seq![o]);
    assert(seq![blank] + seq![o] =~= seq![blank, o]);
    let s2 = step_spec(s1, n + 1, o);
    assert(scan_from(st, n, seq![blank, o]) == s2);
    lemma_body_lines(s2, n + 2, lb, lb.len() as int);
    assert(lb.take(lb.len() as int) =~= lb);
    lemma_scan_from_concat(st, n, seq![blank, o], lb);
    let s3 = scan_from(s2, n + 2, lb);
    assert(s3.open->0.body =~= lb);
    lemma_step_close(s3, (n + 2 + lb.len()) as nat, t);
    lemma_scan_from_one(s3, (n + 2 + lb.len()) as nat, c);
    lemma_scan_from_concat(st, n, seq![blank, o] + lb, seq![c]);
    if st.open is None && st.stray is None {
        assert(s1 == st);
    }
}

/// A page file with no `</sv-page>` line, after a write appends a block:
/// the file's lines, a blank line, the block's lines.
proof fn lemma_append_lines_plain(cur: Seq<char>, block: Seq<char>, lbl: Seq<Seq<char>>, c: Seq<char>)
    requires
        cur.len() > 0,
        lines_acc(block) == (lbl, c),
        c.len() > 0,
        c.last() != '\r',
    ensures
        ({
            let out = if cur.last() == '\n' { cur } else { cur.push('\n') };
            lines(out + seq!['\n'] + block + seq!['\n']) == lines_acc(out).0 + seq![Seq::<char>::empty()] + lbl + seq![c]
        }),
{
    let out = if cur.last() == '\n' { cur } else { cur.push('\n') };
    assert(out.last() == '\n');
    assert(out.drop_last().push('\n') =~= out);
    assert(lines_acc(out).1.len() == 0);
    let tail = seq!['\n'] + block + seq!['\n'];
    assert(out + seq!['\n'] + block + seq!['\n'] =~= out + tail);
    lemma_lines_acc_append(out, tail);
    // the tail: a newline, the block, a newline
    lemma_lines_acc_newline();
    let bn = block + seq!['\n'];
    assert(tail =~= seq!['\n'] + bn);
    lemma_lines_acc_append(seq!['\n'], bn);
    assert(bn.drop_last() =~= block);
    assert(strip_cr(c) == c);
    assert(lines_acc(bn) == (lbl.push(c), Seq::<char>::empty()));
    assert(lines_acc(tail).0 =~= seq![Seq::<char>::empty()] + lbl.push(c));
    assert(lines_acc(out).0 + (seq![Seq::<char>::empty()] + lbl.push(c)) =~= lines_acc(out).0 + seq![
        Seq::<char>::empty(),
    ] + lbl + seq![c]);
}

/// The lines `<sv-page>` and `</sv-page>`.
pub open spec fn page_opener() -> Seq<char> {
    seq!['<'] + "sv-page"@ + seq!['>']
}

pub open spec fn page_closer() -> Seq<char> {
    seq!['<', '/'] + "sv-page"@ + seq!['>']
}

proof fn lemma_page_lines_are_tags()
    ensures
        marker_spec(page_opener()) == Some(MarkerV::Open { name: "sv-page"@, attrs: Seq::empty() }),
        marker_spec(page_closer()) == Some(MarkerV::Close { name: "sv-page"@ }),
        !page_opener().contains('\n'),
        !page_closer().contains('\n'),
        page_opener().last() == '>',
        page_closer().last() == '>',
{
    reveal_strlit("sv-page");
    let pg = "sv-page"@;
    assert(attrs_text(Seq::<(Seq<char>, Seq<char>)>::empty()) =~= Seq::<char>::empty());
    assert(seq!['<'] + pg + attrs_text(Seq::empty()) + seq!['>'] =~= page_opener());
    assert(valid_tag(pg)) by {
        assert(pg.subrange(0, 3) =~= crate::format::sv_dash());
        assert forall|i: int| 0 <= i < pg.subrange(3, pg.len() as int).len() implies is_lower_or_digit(#[trigger] pg.subrange(3, pg.len() as int)[i]) by {}
    }
    assert(attrs_ok(Seq::<(Seq<char>, Seq<char>)>::empty()));
    lemma_opener_line(pg, Seq::empty());
    lemma_closer_line(pg);
    assert(!page_opener().contains('\n')) by {
        if page_opener().contains('\n') {
            let j = choose|j: int| 0 <= j < page_opener().len() && page_opener()[j] == '\n';
        }
    }
    assert(!page_closer().contains('\n')) by {
        if page_closer().contains('\n') {
            let j = choose|j: int| 0 <= j < page_closer().len() && page_closer()[j] == '\n';
        }
    }
}

/// The lines of a fresh page file: the page tag, a blank line, the block's
/// lines, a blank line, the page's closer.
proof fn lemma_fresh_page_lines(block: Seq<char>, lbl: Seq<Seq<char>>, c: Seq<char>)
    requires
        lines_acc(block) == (lbl, c),
        c.len() > 0,
        c.last() != '\r',
    ensures
        lines("<sv-page>\n\n"@ + block + "\n\n</sv-page>\n"@) == seq![page_opener(), Seq::<char>::empty()] + lbl
            + seq![c, Seq::<char>::empty(), page_closer()],
{
    reveal_strlit("<sv-page>\n\n");
    reveal_strlit("\n\n</sv-page>\n");
    reveal_strlit("sv-page");
    lemma_page_lines_are_tags();
    let open_pg = page_opener();
    let close_pg = page_closer();
    let head = open_pg.push('\n');
    let mid = seq!['\n'] + block + seq!['\n'];
    let rest = seq!['\n'] + close_pg.push('\n');
    let text = "<sv-page>\n\n"@ + block + "\n\n</sv-page>\n"@;
    assert("<sv-page>\n\n"@ =~= head + seq!['\n']);
    assert("\n\n</sv-page>\n"@ =~= seq!['\n'] + rest);
    assert(text =~= (head + mid) + rest);
    lemma_lines_acc_no_nl(open_pg);
    lemma_lines_acc_no_nl(close_pg);
    assert(head.drop_last() =~= open_pg);
    assert(strip_cr(open_pg) == open_pg);
    assert(lines_acc(head) == (seq![open_pg], Seq::<char>::empty()));
    lemma_append_lines_plain(head, block, lbl, c);
    assert(head.last() == '\n');
    assert(head + seq!['\n'] + block + seq!['\n'] =~= head + mid);
    assert(lines_acc(head + mid).1 == Seq::<char>::empty()) by {
        assert((head + mid).last() == '\n');
        assert((head + mid).drop_last().push('\n') =~= head + mid);
    }
    assert(lines_acc(head + mid).0 == seq![open_pg] + seq![Seq::<char>::empty()] + lbl + seq![c]);
    lemma_lines_acc_append(head + mid, rest);
    assert(close_pg.push('\n').drop_last() =~= close_pg);
    assert(strip_cr(close_pg) == close_pg);
    assert(lines_acc(close_pg.push('\n')) == (seq![close_pg], Seq::<char>::empty()));
    lemma_lines_acc_newline();
    lemma_lines_acc_append(seq!['\n'], close_pg.push('\n'));
    assert(lines(text) =~= seq![page_opener(), Seq::<char>::empty()] + lbl + seq![c, Seq::<char>::empty(), page_closer()]);
}

/// Scanning a fresh page file: the page tag sets no props, the block is the
/// only block, and the closing lines change nothing.
proof fn lemma_fresh_page_scan(t: Seq<char>, a: Seq<(Seq<char>, Seq<char>)>, lb: Seq<Seq<char>>)
    requires
        valid_tag(t),
        t != "sv-page"@,
        attrs_ok(a),
        forall|i: int| 0 <= i < lb.len() ==> marker_spec(#[trigger] lb[i]) is None,
    ensures
        ({
            let o = seq!['<'] + t + attrs_text(a) + seq!['>'];
            let c = seq!['<', '/'] + t + seq!['>'];
            let ls = seq![page_opener(), Seq::<char>::empty(), o] + lb + seq![c, Seq::<char>::empty(), page_closer()];
            let r = scan_end(scan_fold(ls), ls.len()).page;
            &&& r.blocks == seq![written_block(t, a, lb, 2)]
            &&& r.props.len() == 0
            &&& r.warnings.len() == 0
        }),
{
    let o = seq!['<'] + t + attrs_text(a) + seq!['>'];
    let c = seq!['<', '/'] + t + seq!['>'];
    lemma_page_lines_are_tags();
    let tail = seq![Seq::<char>::empty(), o] + lb + seq![c];
    let two = seq![Seq::<char>::empty(), page_closer()];
    let ls = seq![page_opener()] + tail + two;
    assert(seq![page_opener(), Seq::<char>::empty(), o] + lb + seq![c, Seq::<char>::empty(), page_closer()] =~= ls);
    let s0 = scan_fold(seq![page_opener()]);
    assert(seq![page_opener()].drop_last() =~= Seq::<Seq<char>>::empty());
    assert(scan_fold(Seq::<Seq<char>>::empty()) == scan_init());
    assert(s0 == step_spec(scan_init(), 0, page_opener()));
    assert(s0.open is None && s0.stray is None);
    assert(s0.page.props.len() == 0 && s0.page.blocks.len() == 0 && s0.page.warnings.len() == 0);
    lemma_scan_concat(seq![page_opener()], tail + two);
    assert(ls =~= seq![page_opener()] + (tail + two));
    lemma_scan_from_concat(s0, 1, tail, two);
    lemma_blank_then_block(s0, 1, t, a, lb);
    let r = scan_from(s0, 1, tail);
    assert(r.page.blocks =~= seq![written_block(t, a, lb, 2)]);
    let base = (1 + tail.len()) as nat;
    lemma_step_blank(r, base);
    lemma_scan_from_one(r, base, Seq::<char>::empty());
    assert(step_spec(r, base, Seq::<char>::empty()) == r);
    lemma_scan_from_one(r, (base + 1) as nat, page_closer());
    lemma_scan_from_concat(r, base, seq![Seq::<char>::empty()], seq![page_closer()]);
    assert(seq![Seq::<char>::empty()] + seq![page_closer()] =~= two);
    assert(scan_from(r, base, two) == r);
    assert(scan_fold(ls) == r);
    assert(scan_end(r, ls.len()) == r);
}

/// Into an empty file a write puts an empty `<sv-page>`, the block, and the
/// page's closer: the block is the page's only one.
proof fn lemma_written_into_empty(t: Seq<char>, a: Seq<(Seq<char>, Seq<char>)>, body: Seq<char>)
    requires
        valid_tag(t),
        t != "sv-page"@,
        attrs_ok(a),
        !body.contains('\r'),
        forall|i: int| 0 <= i < lines(body).len() ==> marker_spec(#[trigger] lines(body)[i]) is None,
    ensures
        ({
            let p = parse_spec(append_block_spec(Seq::empty(), block_text_spec(t, a, body)));
            &&& p.blocks.len() == 1
            &&& p.props.len() == 0
            &&& p.warnings.len() == 0
            &&& p.blocks.last().tag_name == t
            &&& p.blocks.last().attrs == a
            &&& p.blocks.last().body == strip_nl(body)
            &&& p.blocks.last().warnings.len() == 0
        }),
{
    let block = block_text_spec(t, a, body);
    let o = seq!['<'] + t + attrs_text(a) + seq!['>'];
    let c = seq!['<', '/'] + t + seq!['>'];
    let lb = lemma_block_text_lines(t, a, body);
    assert(c.last() == '>');
    let text = "<sv-page>\n\n"@ + block + "\n\n</sv-page>\n"@;
    assert(append_block_spec(Seq::empty(), block) == text);
    lemma_fresh_page_lines(block, seq![o] + lb, c);
    assert(seq![page_opener(), Seq::<char>::empty()] + (seq![o] + lb) + seq![c, Seq::<char>::empty(), page_closer()]
        =~= seq![page_opener(), Seq::<char>::empty(), o] + lb + seq![c, Seq::<char>::empty(), page_closer()]);
    lemma_fresh_page_scan(t, a, lb);
    assert(join_lines(lb) == strip_nl(body));
}

/// After a file with no `</sv-page>` line, a write puts a blank line and
/// the block: the block is the page's newest.
proof fn lemma_written_after_plain(cur: Seq<char>, t: Seq<char>, a: Seq<(Seq<char>, Seq<char>)>, body: Seq<char>)
    requires
        valid_tag(t),
        t != "sv-page"@,
        attrs_ok(a),
        !body.contains('\r'),
        forall|i: int| 0 <= i < lines(body).len() ==> marker_spec(#[trigger] lines(body)[i]) is None,
        cur.len() > 0,
        last_closer(lines(cur)) < 0,
    ensures
        ({
            let p = parse_spec(append_block_spec(cur, block_text_spec(t, a, body)));
            &&& p.blocks.len() > 0
            &&& p.blocks.last().tag_name == t
            &&& p.blocks.last().attrs == a
            &&& p.blocks.last().body == strip_nl(body)
            &&& p.blocks.last().warnings.len() == 0
        }),
{
    let block = block_text_spec(t, a, body);
    let o = seq!['<'] + t + attrs_text(a) + seq!['>'];
    let c = seq!['<', '/'] + t + seq!['>'];
    let lb = lemma_block_text_lines(t, a, body);
    assert(c.last() == '>');
    let tail = seq![Seq::<char>::empty(), o] + lb + seq![c];
        let out = if cur.last() == '\n' { cur } else { cur.push('\n') };
        assert(append_block_spec(cur, block) == out + seq!['\n'] + block + seq!['\n']);
        lemma_append_lines_plain(cur, block, seq![o] + lb, c);
        let l1 = lines_acc(out).0;
        let ls = l1 + tail;
        assert(lines(out + seq!['\n'] + block + seq!['\n']) =~= ls);
        lemma_scan_concat(l1, tail);
        lemma_blank_then_block(scan_fold(l1), l1.len(), t, a, lb);
        let r = scan_fold(ls);
        assert(scan_end(r, ls.len()) == r);
        assert(join_lines(lb) == strip_nl(body));
}

/// A write's block reads back: when a page file holds no `</sv-page>` line
/// (a file with one is spliced before its last one, and what follows that
/// line is the writer's own), appending a serialized block leaves that block
/// as the parsed page's newest — its type, its attributes, its body — with
/// no warning on it. Into an empty file, the block is the page's only one,
/// under an empty `<sv-page>`, with no page warnings. The body must hold no
/// tag line and no carriage return, as for any serialized block.
pub proof fn lemma_appended_block_reads_back(
    cur: Seq<char>,
    t: Seq<char>,
    a: Seq<(Seq<char>, Seq<char>)>,
    body: Seq<char>,
)
    requires
        valid_tag(t),
        t != "sv-page"@,
        attrs_ok(a),
        !body.contains('\r'),
        forall|i: int| 0 <= i < lines(body).len() ==> marker_spec(#[trigger] lines(body)[i]) is None,
        cur.len() == 0 || last_closer(lines(cur)) < 0,
    ensures
        ({
            let p = parse_spec(append_block_spec(cur, block_text_spec(t, a, body)));
            &&& p.blocks.len() > 0
            &&& p.blocks.last().tag_name == t
            &&& p.blocks.last().attrs == a
            &&& p.blocks.last().body == strip_nl(body)
            &&& p.blocks.last().warnings.len() == 0
            &&& cur.len() == 0 ==> (p.blocks.len() == 1 && p.props.len() == 0 && p.warnings.len() == 0)
        }),
{
    if cur.len() == 0 {
        lemma_written_into_empty(t, a, body);
        assert(cur =~= Seq::<char>::empty());
    } else {
        lemma_written_after_plain(cur, t, a, body);
    }
}

/// The tags the authoring verbs write are tags the grammar can spell.
pub(crate) proof fn lemma_kind_tags_valid(k: crate::edit::Kind)
    ensures
        valid_tag(k.tag_spec()),
        k.tag_spec() != "sv-page"@,
{
    reveal_strlit("sv-prose");
    reveal_strlit("sv-markup");
    reveal_strlit("sv-html");
    reveal_strlit("sv-diff");
    reveal_strlit("sv-page");
    let t = k.tag_spec();
    assert(t.subrange(0, 3) =~= crate::format::sv_dash());
    assert forall|i: int| 0 <= i < t.subrange(3, t.len() as int).len() implies is_lower_or_digit(#[trigger] t.subrange(3, t.len() as int)[i]) by {}
    assert(t.len() != "sv-page"@.len() || t[3] != "sv-page"@[3]);
}

proof fn lemma_dec_plain(n: nat)
    ensures
        !dec(n).contains('"'),
        !dec(n).contains('\n'),
    decreases n,
{
    if n >= 10 {
        lemma_dec_plain(n / 10);
    }
    assert forall|j: int| 0 <= j < dec(n).len() implies dec(n)[j] != '"' && dec(n)[j] != '\n' by {
        if n >= 10 && j < dec(n / 10).len() {
            assert(dec(n)[j] == dec(n / 10)[j]);
        }
    }
}

/// What `sideview prose|markup|html|diff` writes reads back under the id it
/// printed: on a page file with no `</sv-page>` line (or none at all), the
/// new text's newest block is the written one — its type, its attributes
/// with the printed id first, its body. Extra attributes must have keys the
/// grammar can spell (the command line's are fixed names); their values the
/// command itself checks.
pub proof fn lemma_authored_block_reads_back(
    cur: Seq<char>,
    kind: crate::edit::Kind,
    extra: Seq<(Seq<char>, Seq<char>)>,
    body: Seq<char>,
)
    requires
        forall|i: int| 0 <= i < extra.len() ==> (#[trigger] extra[i]).0.len() > 0 && crate::format::all_key_chars(extra[i].0),
        !body.contains('\r'),
        forall|i: int| 0 <= i < lines(body).len() ==> marker_spec(#[trigger] lines(body)[i]) is None,
        cur.len() == 0 || last_closer(lines(cur)) < 0,
        author_spec(cur, kind.tag_spec(), extra, body) is Ok,
    ensures
        ({
            let (id, text) = author_spec(cur, kind.tag_spec(), extra, body)->Ok_0;
            let p = parse_spec(text);
            &&& p.blocks.len() > 0
            &&& p.blocks.last().tag_name == kind.tag_spec()
            &&& p.blocks.last().attrs == seq![("id"@, id)] + extra
            &&& crate::format::attr_lookup(p.blocks.last().attrs, "id"@) == Some(id)
            &&& p.blocks.last().body == strip_nl(body)
            &&& p.blocks.last().warnings.len() == 0
        }),
{
    let t = kind.tag_spec();
    lemma_kind_tags_valid(kind);
    let id = seq!['b'] + dec(crate::edit::max_id(parse_spec(cur).blocks) + 1);
    assert(!exists|k: int| first_bad(extra, k));
    assert forall|j: int| 0 <= j < extra.len() implies !crate::edit::bad_value(#[trigger] extra[j].1) by {
        if crate::edit::bad_value(extra[j].1) {
            lemma_first_bad_exists(extra, j);
        }
    }
    lemma_dec_plain(crate::edit::max_id(parse_spec(cur).blocks) + 1);
    reveal_strlit("id");
    let a = seq![("id"@, id)] + extra;
    assert(!id.contains('"') && !id.contains('\n')) by {
        let d = dec(crate::edit::max_id(parse_spec(cur).blocks) + 1);
        assert forall|j: int| 0 <= j < id.len() implies id[j] != '"' && id[j] != '\n' by {
            if j > 0 {
                assert(id[j] == d[j - 1]);
            }
        }
    }
    assert(attrs_ok(a)) by {
        assert forall|i: int| 0 <= i < a.len() implies attr_ok(#[trigger] a[i]) by {
            if i == 0 {
                assert(a[0] == ("id"@, id));
                assert(crate::format::all_key_chars("id"@));
            } else {
                assert(a[i] == extra[i - 1]);
                assert(!crate::edit::bad_value(extra[i - 1].1));
            }
        }
    }
    lemma_appended_block_reads_back(cur, t, a, body);
}

proof fn lemma_first_bad_exists(extra: Seq<(Seq<char>, Seq<char>)>, j: int)
    requires
        0 <= j < extra.len(),
        crate::edit::bad_value(extra[j].1),
    ensures
        exists|k: int| first_bad(extra, k),
    decreases j,
{
    if exists|i: int| 0 <= i < j && crate::edit::bad_value(#[trigger] extra[i].1) {
        let i = choose|i: int| 0 <= i < j && crate::edit::bad_value(#[trigger] extra[i].1);
        lemma_first_bad_exists(extra, i);
    } else {
        assert(first_bad(extra, j));
    }
}

} // verus!
