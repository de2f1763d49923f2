//! What the rewriting verbs promise over the format: on a page file that
//! parses cleanly, `update` changes the one block it names and `rm` takes
//! out the one block it names, and every other block reads back as it was.

use vstd::prelude::*;

use crate::format::{
    finish_spec, flush_spec, marker_spec, push_body, scan_end, scan_fold, step_spec, warn_open,
    warn_page, BlockV, MarkerV, OpenV, PageV, ScanV,
};
use crate::edit::{
    bad_value, session_set_spec, find_block, first_block, outline_ok, page_tag, rm_spec, session_props, set_prop, splice_spec,
    update_spec, without_key, Kind,
};
use crate::edit_laws::{
    lemma_body_lines, lemma_kind_tags_valid, lemma_scan_concat, lemma_scan_from_concat, lemma_scan_from_one, lemma_step_close, lemma_step_open,
    scan_from, written_block,
};
use crate::format::{attrs_text, block_text_spec, parse_spec, strip_nl};
use crate::format::{all_key_chars, is_key_char};
use crate::format_laws::{attr_ok, attrs_ok, lemma_block_text_lines, valid_tag};
use crate::text::{
    is_lower_or_digit, is_ws, lemma_lines_acc_chars, lemma_rejoin_lines, lemma_trim_end_prefix, lemma_trim_start_suffix, lines,
    lines_acc, starts_with, trim, trim_end,
};
use crate::text::join_lines;

verus! {

/// A page with no warning on it or on any of its blocks.
pub open spec fn clean_page(p: PageV) -> bool {
    &&& p.warnings.len() == 0
    &&& forall|j: int| 0 <= j < p.blocks.len() ==> (#[trigger] p.blocks[j]).warnings.len() == 0
}

/// A scan state that can still end in a clean page: nothing stray, and the
/// open block (if any) carries no warning yet.
pub open spec fn clean_state(st: ScanV) -> bool {
    &&& clean_page(st.page)
    &&& st.stray is None
    &&& (st.open matches Some(o) ==> o.warnings.len() == 0)
}

/// A step only ever adds blocks and warnings.
proof fn lemma_step_keeps(st: ScanV, i: nat, raw: Seq<char>)
    ensures
        step_spec(st, i, raw).page.blocks.len() >= st.page.blocks.len(),
        forall|j: int|
            0 <= j < st.page.blocks.len() ==> #[trigger] step_spec(st, i, raw).page.blocks[j]
                == st.page.blocks[j],
        step_spec(st, i, raw).page.warnings.len() >= st.page.warnings.len(),
{
}

/// Once a scan is dirty it stays dirty.
#[verifier::spinoff_prover]
proof fn lemma_dirt_stays(st: ScanV, i: nat, raw: Seq<char>)
    requires
        !clean_state(st),
    ensures
        !clean_state(step_spec(st, i, raw)),
{
    let r = step_spec(st, i, raw);
    lemma_step_keeps(st, i, raw);
    if !clean_page(st.page) {
        if st.page.warnings.len() > 0 {
        } else {
            let j = choose|j: int| 0 <= j < st.page.blocks.len() && (#[trigger] st.page.blocks[j]).warnings.len() != 0;
            assert(r.page.blocks[j] == st.page.blocks[j]);
        }
    } else {
        let n = st.page.blocks.len();
        match marker_spec(raw) {
            Some(MarkerV::Open { name, attrs }) => {
                let st1 = match st.open {
                    Some(o) => finish_spec(warn_open(st, crate::format::never_closed_at(o.start, i, name)), i),
                    None => st,
                };
                if st.open is Some {
                    assert(st1.page.blocks[n as int].warnings.len() > 0);
                    let st2 = flush_spec(st1, i);
                    assert(st2.page.blocks[n as int] == st1.page.blocks[n as int]);
                    assert(r.page.blocks.len() > n);
                    assert(r.page.blocks[n as int] == st2.page.blocks[n as int]);
                } else {
                    assert(st.stray is Some);
                    let st2 = flush_spec(st1, i);
                    assert(st2.page.blocks[n as int].warnings.len() > 0);
                    assert(r.page.blocks[n as int] == st2.page.blocks[n as int]);
                }
            },
            Some(MarkerV::Close { name }) => {
                match st.open {
                    Some(o) => {
                        if o.name == name {
                            if o.warnings.len() > 0 {
                                assert(r.page.blocks[n as int].warnings.len() > 0);
                            } else {
                                assert(r.stray is Some);
                            }
                        }
                    },
                    None => {},
                }
            },
            None => {
                match st.open {
                    Some(o) => {},
                    None => {
                        if crate::format::is_quiet(raw) {
                            assert(r.page.blocks[n as int].warnings.len() > 0);
                        }
                    },
                }
            },
        }
    }
}

/// A page that ends clean was scanned from a clean state with nothing left
/// open, and the end of the scan changed nothing.
proof fn lemma_end_clean(st: ScanV, n: nat)
    requires
        clean_page(scan_end(st, n).page),
    ensures
        clean_state(st),
        st.open is None,
        scan_end(st, n) == st,
{
    let st1 = match st.open {
        Some(o) => warn_open(st, crate::format::never_closed_eof(o.start)),
        None => st,
    };
    let st2 = finish_spec(st1, n);
    let r = flush_spec(st2, n);
    let m = st.page.blocks.len();
    assert(forall|j: int| 0 <= j < m ==> #[trigger] r.page.blocks[j] == st.page.blocks[j]);
    if st.open is Some {
        assert(r.page.blocks[m as int] == st2.page.blocks[m as int]);
        assert(r.page.blocks[m as int].warnings.len() > 0);
    }
    if st.stray is Some {
        assert(r.page.blocks[st2.page.blocks.len() as int].warnings.len() > 0);
    }
    if !clean_page(st.page) {
        if st.page.warnings.len() == 0 {
            let j = choose|j: int| 0 <= j < st.page.blocks.len() && (#[trigger] st.page.blocks[j]).warnings.len() != 0;
            assert(r.page.blocks[j] == st.page.blocks[j]);
        }
    }
}

/// The scan after the first `i` lines.
pub open spec fn scan_at(ls: Seq<Seq<char>>, i: int) -> ScanV {
    scan_fold(ls.take(i))
}

proof fn lemma_scan_at_step(ls: Seq<Seq<char>>, i: int)
    requires
        0 <= i < ls.len(),
    ensures
        scan_at(ls, i + 1) == step_spec(scan_at(ls, i), i as nat, ls[i]),
{
    assert(ls.take(i + 1).drop_last() =~= ls.take(i));
    assert(ls.take(i + 1).last() == ls[i]);
}

proof fn lemma_dirt_onward(ls: Seq<Seq<char>>, i: int, j: int)
    requires
        0 <= i <= j <= ls.len(),
        !clean_state(scan_at(ls, i)),
    ensures
        !clean_state(scan_at(ls, j)),
    decreases j - i,
{
    if j > i {
        lemma_dirt_onward(ls, i, j - 1);
        lemma_scan_at_step(ls, j - 1);
        lemma_dirt_stays(scan_at(ls, j - 1), (j - 1) as nat, ls[j - 1]);
    }
}

/// A clean page was clean at every line of its scan, and nothing was left
/// open at its end.
proof fn lemma_clean_throughout(ls: Seq<Seq<char>>)
    requires
        clean_page(scan_end(scan_fold(ls), ls.len()).page),
    ensures
        forall|i: int| 0 <= i <= ls.len() ==> clean_state(#[trigger] scan_at(ls, i)),
        scan_fold(ls).open is None,
        scan_end(scan_fold(ls), ls.len()) == scan_fold(ls),
{
    lemma_end_clean(scan_fold(ls), ls.len());
    assert(ls.take(ls.len() as int) =~= ls);
    assert forall|i: int| 0 <= i <= ls.len() implies clean_state(#[trigger] scan_at(ls, i)) by {
        if !clean_state(scan_at(ls, i)) {
            lemma_dirt_onward(ls, i, ls.len() as int);
        }
    }
}

/// The block an open block becomes when its closer is read.
pub open spec fn finished(o: OpenV, end: nat) -> BlockV {
    BlockV { tag_name: o.name, attrs: o.attrs, body: join_lines(o.body), warnings: o.warnings, lines: (o.start, end) }
}

/// One clean step: a block opens on an opener line and leaves the page as
/// it was; an open block keeps its type, attributes and first line; a block
/// joins the page only at its own closer; with nothing open, no block joins.
#[verifier::spinoff_prover]
proof fn lemma_clean_step(st: ScanV, i: nat, raw: Seq<char>)
    requires
        clean_state(st),
        clean_state(step_spec(st, i, raw)),
    ensures
        ({
            let r = step_spec(st, i, raw);
            &&& (st.open is None && r.open is Some) ==> (r.open->0.start == i && r.page == st.page
                && r.seen_page_tag == st.seen_page_tag && marker_spec(raw) == Some(
                MarkerV::Open { name: r.open->0.name, attrs: r.open->0.attrs },
            ))
            &&& (st.open is Some && r.open is Some) ==> (r.open->0.start == st.open->0.start
                && r.open->0.name == st.open->0.name && r.open->0.attrs == st.open->0.attrs
                && r.page == st.page && r.seen_page_tag == st.seen_page_tag)
            &&& (st.open is Some && r.open is None) ==> r == finish_spec(st, i + 1)
            &&& (st.open is None && r.open is None) ==> r.page.blocks == st.page.blocks
        }),
{
    let r = step_spec(st, i, raw);
    lemma_step_keeps(st, i, raw);
    let n = st.page.blocks.len();
    match marker_spec(raw) {
        Some(MarkerV::Open { name, attrs }) => {
            if st.open is Some {
                let st1 = finish_spec(warn_open(st, crate::format::never_closed_at(st.open->0.start, i, name)), i);
                assert(st1.page.blocks[n as int].warnings.len() > 0);
                assert(r.page.blocks[n as int] == st1.page.blocks[n as int]);
            }
        },
        Some(MarkerV::Close { name }) => {
            if st.open is None && name != "sv-page"@ {
                assert(r.page.warnings.len() > 0);
            }
        },
        None => {},
    }
}

/// Along a clean scan, an open block began on an opener line with nothing
/// open before it, and the page has not moved since.
pub open spec fn open_began(ls: Seq<Seq<char>>, i: int) -> bool {
    scan_at(ls, i).open matches Some(o) ==> {
        &&& o.start < i
        &&& scan_at(ls, o.start as int).open is None
        &&& scan_at(ls, i).page == scan_at(ls, o.start as int).page
        &&& scan_at(ls, i).seen_page_tag == scan_at(ls, o.start as int).seen_page_tag
        &&& marker_spec(ls[o.start as int]) == Some(MarkerV::Open { name: o.name, attrs: o.attrs })
    }
}

proof fn lemma_open_began(ls: Seq<Seq<char>>, i: int)
    requires
        0 <= i <= ls.len(),
        forall|j: int| 0 <= j <= ls.len() ==> clean_state(#[trigger] scan_at(ls, j)),
    ensures
        open_began(ls, i),
    decreases i,
{
    if i == 0 {
        assert(ls.take(0) =~= Seq::<Seq<char>>::empty());
    } else {
        lemma_open_began(ls, i - 1);
        lemma_scan_at_step(ls, i - 1);
        assert(clean_state(scan_at(ls, i - 1)));
        assert(clean_state(scan_at(ls, i)));
        lemma_clean_step(scan_at(ls, i - 1), (i - 1) as nat, ls[i - 1]);
    }
}

proof fn lemma_blocks_prefix(ls: Seq<Seq<char>>, i: int, m: int)
    requires
        0 <= i <= m <= ls.len(),
    ensures
        scan_at(ls, m).page.blocks.len() >= scan_at(ls, i).page.blocks.len(),
        forall|j: int|
            0 <= j < scan_at(ls, i).page.blocks.len() ==> #[trigger] scan_at(ls, m).page.blocks[j]
                == scan_at(ls, i).page.blocks[j],
    decreases m - i,
{
    if m > i {
        lemma_blocks_prefix(ls, i, m - 1);
        lemma_scan_at_step(ls, m - 1);
        lemma_step_keeps(scan_at(ls, m - 1), (m - 1) as nat, ls[m - 1]);
    }
}

proof fn lemma_find_push(ls: Seq<Seq<char>>, k: int, i: int) -> (m: int)
    requires
        0 <= i <= ls.len(),
        scan_at(ls, i).page.blocks.len() <= k < scan_at(ls, ls.len() as int).page.blocks.len(),
    ensures
        i <= m < ls.len(),
        scan_at(ls, m).page.blocks.len() <= k < scan_at(ls, m + 1).page.blocks.len(),
    decreases ls.len() - i,
{
    if i == ls.len() {
        i
    } else if k < scan_at(ls, i + 1).page.blocks.len() {
        i
    } else {
        lemma_find_push(ls, k, i + 1)
    }
}

/// Where a block of a clean page came from: its first line is an opener
/// read with nothing open, its last is its closer, and in between nothing
/// but that block moved. The scan after it is the scan before it with the
/// block added.
#[verifier::spinoff_prover]
proof fn lemma_block_origin(ls: Seq<Seq<char>>, k: int)
    requires
        clean_page(scan_end(scan_fold(ls), ls.len()).page),
        0 <= k < scan_fold(ls).page.blocks.len(),
    ensures
        ({
            let p = scan_fold(ls).page;
            let b = p.blocks[k];
            let s = b.lines.0 as int;
            let e = b.lines.1 as int;
            let before = scan_at(ls, s);
            &&& 0 <= s < e <= ls.len()
            &&& before.open is None
            &&& before.stray is None
            &&& before.page.blocks == p.blocks.take(k)
            &&& scan_at(ls, e) == (ScanV {
                page: PageV { props: before.page.props, blocks: before.page.blocks.push(b), warnings: before.page.warnings },
                seen_page_tag: before.seen_page_tag,
                open: None,
                stray: None,
            })
            &&& marker_spec(ls[s]) == Some(MarkerV::Open { name: b.tag_name, attrs: b.attrs })
        }),
{
    let n = ls.len() as int;
    lemma_clean_throughout(ls);
    assert(ls.take(n) =~= ls);
    assert(ls.take(0) =~= Seq::<Seq<char>>::empty());
    let m = lemma_find_push(ls, k, 0);
    lemma_scan_at_step(ls, m);
    let st = scan_at(ls, m);
    let r = scan_at(ls, m + 1);
    assert(clean_state(st));
    assert(clean_state(r));
    lemma_clean_step(st, m as nat, ls[m]);
    let o = st.open->0;
    assert(r == finish_spec(st, (m + 1) as nat));
    lemma_open_began(ls, m);
    lemma_blocks_prefix(ls, m + 1, n);
    let p = scan_fold(ls).page;
    assert(p.blocks[k] == finished(o, (m + 1) as nat));
    let s = o.start as int;
    let before = scan_at(ls, s);
    assert(before.page.blocks =~= p.blocks.take(k)) by {
        assert forall|j: int| 0 <= j < k implies before.page.blocks[j] == p.blocks[j] by {
            assert(r.page.blocks[j] == st.page.blocks[j]);
        }
    }
}

/// What a block is apart from where it stands: its type, its attributes,
/// its body, and how many warnings it carries.
pub open spec fn same_block(x: BlockV, y: BlockV) -> bool {
    &&& x.tag_name == y.tag_name
    &&& x.attrs == y.attrs
    &&& x.body == y.body
    &&& x.warnings.len() == y.warnings.len()
}

/// Two scans that agree but for line numbers: after the first `pa` blocks
/// of one and the first `pb` of the other, block for block.
pub open spec fn agree(a: ScanV, b: ScanV, pa: int, pb: int) -> bool {
    &&& a.page.props == b.page.props
    &&& a.page.warnings.len() == b.page.warnings.len()
    &&& a.seen_page_tag == b.seen_page_tag
    &&& 0 <= pa <= a.page.blocks.len()
    &&& 0 <= pb <= b.page.blocks.len()
    &&& a.page.blocks.len() - pa == b.page.blocks.len() - pb
    &&& forall|x: int|
        pa <= x < a.page.blocks.len() ==> same_block(#[trigger] a.page.blocks[x], b.page.blocks[x - pa + pb])
    &&& match (a.open, b.open) {
        (None, None) => true,
        (Some(x), Some(y)) => x.name == y.name && x.attrs == y.attrs && x.body == y.body
            && x.warnings.len() == y.warnings.len(),
        _ => false,
    }
    &&& match (a.stray, b.stray) {
        (None, None) => true,
        (Some((x, _)), Some((y, _))) => x == y,
        _ => false,
    }
}

proof fn lemma_agree_finish(a: ScanV, b: ScanV, pa: int, pb: int, i: nat, j: nat)
    requires
        agree(a, b, pa, pb),
    ensures
        agree(finish_spec(a, i), finish_spec(b, j), pa, pb),
{
    let ra = finish_spec(a, i);
    let rb = finish_spec(b, j);
    assert forall|x: int| pa <= x < ra.page.blocks.len() implies same_block(#[trigger] ra.page.blocks[x], rb.page.blocks[x - pa + pb]) by {
        if x < a.page.blocks.len() {
            assert(same_block(a.page.blocks[x], b.page.blocks[x - pa + pb]));
        }
    }
}

proof fn lemma_agree_flush(a: ScanV, b: ScanV, pa: int, pb: int, i: nat, j: nat)
    requires
        agree(a, b, pa, pb),
    ensures
        agree(flush_spec(a, i), flush_spec(b, j), pa, pb),
{
    let ra = flush_spec(a, i);
    let rb = flush_spec(b, j);
    assert forall|x: int| pa <= x < ra.page.blocks.len() implies same_block(#[trigger] ra.page.blocks[x], rb.page.blocks[x - pa + pb]) by {
        if x < a.page.blocks.len() {
            assert(same_block(a.page.blocks[x], b.page.blocks[x - pa + pb]));
        }
    }
}

#[verifier::spinoff_prover]
proof fn lemma_agree_step(a: ScanV, b: ScanV, pa: int, pb: int, i: nat, j: nat, raw: Seq<char>)
    requires
        agree(a, b, pa, pb),
    ensures
        agree(step_spec(a, i, raw), step_spec(b, j, raw), pa, pb),
{
    match marker_spec(raw) {
        Some(MarkerV::Open { name, attrs }) => {
            let a1 = match a.open {
                Some(o) => finish_spec(warn_open(a, crate::format::never_closed_at(o.start, i, name)), i),
                None => a,
            };
            let b1 = match b.open {
                Some(o) => finish_spec(warn_open(b, crate::format::never_closed_at(o.start, j, name)), j),
                None => b,
            };
            if a.open is Some {
                let wa = warn_open(a, crate::format::never_closed_at(a.open->0.start, i, name));
                let wb = warn_open(b, crate::format::never_closed_at(b.open->0.start, j, name));
                assert(agree(wa, wb, pa, pb));
                lemma_agree_finish(wa, wb, pa, pb, i, j);
            }
            assert(agree(a1, b1, pa, pb));
            lemma_agree_flush(a1, b1, pa, pb, i, j);
        },
        Some(MarkerV::Close { name }) => {
            if a.open is Some && a.open->0.name == name {
                lemma_agree_finish(a, b, pa, pb, i + 1, j + 1);
            }
        },
        None => {
            if a.open is None && crate::format::is_quiet(raw) {
                lemma_agree_flush(a, b, pa, pb, i, j);
            }
        },
    }
}

proof fn lemma_agree_from(a: ScanV, b: ScanV, pa: int, pb: int, ba: nat, bb: nat, ls: Seq<Seq<char>>)
    requires
        agree(a, b, pa, pb),
    ensures
        agree(scan_from(a, ba, ls), scan_from(b, bb, ls), pa, pb),
    decreases ls.len(),
{
    if ls.len() > 0 {
        lemma_agree_from(a, b, pa, pb, ba, bb, ls.drop_last());
        lemma_agree_step(
            scan_from(a, ba, ls.drop_last()),
            scan_from(b, bb, ls.drop_last()),
            pa,
            pb,
            (ba + ls.len() - 1) as nat,
            (bb + ls.len() - 1) as nat,
            ls.last(),
        );
    }
}

proof fn lemma_from_keeps(st: ScanV, base: nat, ls: Seq<Seq<char>>)
    ensures
        scan_from(st, base, ls).page.blocks.len() >= st.page.blocks.len(),
        forall|j: int|
            0 <= j < st.page.blocks.len() ==> #[trigger] scan_from(st, base, ls).page.blocks[j]
                == st.page.blocks[j],
    decreases ls.len(),
{
    if ls.len() > 0 {
        lemma_from_keeps(st, base, ls.drop_last());
        lemma_step_keeps(scan_from(st, base, ls.drop_last()), (base + ls.len() - 1) as nat, ls.last());
    }
}

proof fn lemma_agree_end(a: ScanV, b: ScanV, pa: int, pb: int, na: nat, nb: nat)
    requires
        agree(a, b, pa, pb),
    ensures
        agree(scan_end(a, na), scan_end(b, nb), pa, pb),
        scan_end(a, na).page.blocks.len() >= a.page.blocks.len(),
        forall|j: int|
            0 <= j < a.page.blocks.len() ==> #[trigger] scan_end(a, na).page.blocks[j]
                == a.page.blocks[j],
{
    let a1 = match a.open {
        Some(o) => warn_open(a, crate::format::never_closed_eof(o.start)),
        None => a,
    };
    let b1 = match b.open {
        Some(o) => warn_open(b, crate::format::never_closed_eof(o.start)),
        None => b,
    };
    assert(agree(a1, b1, pa, pb));
    lemma_agree_finish(a1, b1, pa, pb, na, nb);
    lemma_agree_flush(finish_spec(a1, na), finish_spec(b1, nb), pa, pb, na, nb);
}

/// From a state with nothing open or stray, a serialized block's lines add
/// that block and change nothing else.
proof fn lemma_block_from(st: ScanV, n: nat, t: Seq<char>, a: Seq<(Seq<char>, Seq<char>)>, lb: Seq<Seq<char>>)
    requires
        valid_tag(t),
        t != "sv-page"@,
        attrs_ok(a),
        forall|i: int| 0 <= i < lb.len() ==> marker_spec(#[trigger] lb[i]) is None,
        st.open is None,
        st.stray is None,
    ensures
        scan_from(st, n, seq![seq!['<'] + t + attrs_text(a) + seq!['>']] + lb + seq![seq!['<', '/'] + t + seq!['>']])
            == (ScanV {
            page: PageV { props: st.page.props, blocks: st.page.blocks.push(written_block(t, a, lb, n)), warnings: st.page.warnings },
            seen_page_tag: st.seen_page_tag,
            open: None,
            stray: None,
        }),
{
    let o = seq!['<'] + t + attrs_text(a) + seq!['>'];
    let c = seq!['<', '/'] + t + seq!['>'];
    lemma_step_open(st, n, t, a);
    lemma_scan_from_one(st, n, o);
    let s1 = step_spec(st, n, o);
    lemma_body_lines(s1, n + 1, lb, lb.len() as int);
    assert(lb.take(lb.len() as int) =~= lb);
    lemma_scan_from_concat(st, n, seq![o], lb);
    let s2 = scan_from(s1, n + 1, lb);
    assert(s2.open->0.body =~= lb);
    lemma_step_close(s2, (n + 1 + lb.len()) as nat, t);
    lemma_scan_from_one(s2, (n + 1 + lb.len()) as nat, c);
    lemma_scan_from_concat(st, n, seq![o] + lb, seq![c]);
}

/// No line of the text ends in a carriage return that splitting kept (a
/// line that ended `\r\r\n`).
pub open spec fn no_kept_cr(ls: Seq<Seq<char>>) -> bool {
    forall|i: int| 0 <= i < ls.len() ==> (#[trigger] ls[i]).len() == 0 || ls[i].last() != '\r'
}

proof fn lemma_lines_lack_nl(s: Seq<char>)
    ensures
        forall|i: int| 0 <= i < lines(s).len() ==> !(#[trigger] lines(s)[i]).contains('\n'),
{
    lemma_lines_acc_chars(s, '\n');
    let (d, c) = lines_acc(s);
    assert forall|i: int| 0 <= i < lines(s).len() implies !(#[trigger] lines(s)[i]).contains('\n') by {
        if i < d.len() {
            assert(lines(s)[i] == d[i]);
        }
    }
}

/// The lines of an updated text: the lines before the block, the
/// serialized block's lines, the lines after it.
#[verifier::spinoff_prover]
proof fn lemma_update_lines(cur: Seq<char>, s: nat, e: nat, t: Seq<char>, a: Seq<(Seq<char>, Seq<char>)>, body: Seq<char>) -> (lb: Seq<Seq<char>>)
    requires
        s <= e <= lines(cur).len(),
        valid_tag(t),
        attrs_ok(a),
        !body.contains('\r'),
        no_kept_cr(lines(cur)),
    ensures
        lines(splice_spec(cur, s, e, Some(block_text_spec(t, a, body)))) == lines(cur).take(s as int)
            + (seq![seq!['<'] + t + attrs_text(a) + seq!['>']] + lb + seq![seq!['<', '/'] + t + seq!['>']])
            + lines(cur).skip(e as int),
        join_lines(lb) == strip_nl(body),
        (forall|i: int| 0 <= i < lines(body).len() ==> marker_spec(#[trigger] lines(body)[i]) is None)
            ==> (forall|i: int| 0 <= i < lb.len() ==> marker_spec(#[trigger] lb[i]) is None),
{
    let ls = lines(cur);
    let r = block_text_spec(t, a, body);
    let o = seq!['<'] + t + attrs_text(a) + seq!['>'];
    let c = seq!['<', '/'] + t + seq!['>'];
    let lb = lemma_block_text_lines(t, a, body);
    let bl = seq![o] + lb + seq![c];
    assert(lines(r) =~= bl);
    let x = ls.take(s as int) + bl + ls.skip(e as int);
    assert(splice_spec(cur, s, e, Some(r)) == join_lines(x) + seq!['\n']) by {
        assert(ls.take(s as int) + lines(r) + ls.skip(e as int) =~= x);
    }
    lemma_lines_lack_nl(cur);
    crate::format_laws::lemma_opener_no_nl(t, a);
    assert(!c.contains('\n')) by {
        if c.contains('\n') {
            let j = choose|j: int| 0 <= j < c.len() && c[j] == '\n';
            assert(c[j] == t[j - 2]);
            crate::format_laws::lemma_tag_no_nl(t);
        }
    }
    assert forall|i: int| 0 <= i < x.len() implies !(#[trigger] x[i]).contains('\n') && (x[i].len() == 0 || x[i].last() != '\r') by {
        let h = s as int;
        if i < h {
            assert(x[i] == ls[i]);
        } else if i < h + bl.len() {
            assert(x[i] == bl[i - h]);
            if i == h {
                assert(bl[0] == o);
            } else if i < h + 1 + lb.len() {
                assert(bl[i - h] == lb[i - h - 1]);
                if lb[i - h - 1].len() > 0 {
                    let l = lb[i - h - 1];
                    assert(l[l.len() - 1] == l.last());
                }
            } else {
                assert(bl[i - h] == c);
            }
        } else {
            assert(x[i] == ls[i - h - bl.len() + e]);
        }
    }
    lemma_rejoin_lines(x);
    lb
}

/// Lines `s..e` replaced by other lines: where the scan of the new lines
/// up to the end of the replacement agrees with the old scan at `e`, the
/// two pages agree to the end, and the new page keeps what that scan had.
#[verifier::spinoff_prover]
proof fn lemma_swap_middle(ls: Seq<Seq<char>>, mid: Seq<Seq<char>>, s: nat, e: nat, pa: int, pb: int)
    requires
        s <= e <= ls.len(),
        agree(scan_from(scan_at(ls, s as int), s, mid), scan_at(ls, e as int), pa, pb),
    ensures
        ({
            let ln = ls.take(s as int) + mid + ls.skip(e as int);
            let a0 = scan_from(scan_at(ls, s as int), s, mid);
            let q = scan_end(scan_fold(ln), ln.len());
            &&& agree(q, scan_end(scan_fold(ls), ls.len()), pa, pb)
            &&& q.page.blocks.len() >= a0.page.blocks.len()
            &&& forall|j: int| 0 <= j < a0.page.blocks.len() ==> #[trigger] q.page.blocks[j] == a0.page.blocks[j]
        }),
{
    let h = ls.take(s as int);
    let tl = ls.skip(e as int);
    let ln = h + mid + tl;
    let before = scan_at(ls, s as int);
    assert(ln =~= h + (mid + tl));
    lemma_scan_concat(h, mid + tl);
    lemma_scan_from_concat(before, s, mid, tl);
    let a0 = scan_from(before, s, mid);
    let b0 = scan_at(ls, e as int);
    assert(ls =~= ls.take(e as int) + tl);
    lemma_scan_concat(ls.take(e as int), tl);
    let ba = (s + mid.len()) as nat;
    lemma_agree_from(a0, b0, pa, pb, ba, e, tl);
    let a1 = scan_from(a0, ba, tl);
    let b1 = scan_from(b0, e, tl);
    lemma_from_keeps(a0, ba, tl);
    lemma_agree_end(a1, b1, pa, pb, ln.len(), ls.len());
}

/// Updating a block of a clean page file changes that block and no other.
/// When the page parses with no warning, on the page or on any of its
/// blocks, and `id` names one of its blocks, the new text parses to a page
/// with the same properties, no warning, and as many blocks in the same
/// order: the named block has the new type and body, keeps its attributes
/// and carries no warning; every other block has the type, attributes, body
/// and warnings it had. The new body must hold no tag line and no carriage
/// return, as for any serialized block, and no line of the file may end in
/// a carriage return that splitting kept.
#[verifier::spinoff_prover]
pub proof fn lemma_update_changes_only_its_block(cur: Seq<char>, id: Seq<char>, kind: Kind, body: Seq<char>)
    requires
        clean_page(parse_spec(cur)),
        find_block(parse_spec(cur).blocks, id) >= 0,
        no_kept_cr(lines(cur)),
        !body.contains('\r'),
        forall|i: int| 0 <= i < lines(body).len() ==> marker_spec(#[trigger] lines(body)[i]) is None,
    ensures
        update_spec(cur, id, kind.tag_spec(), body) matches Ok(new) && ({
            let p = parse_spec(cur);
            let q = parse_spec(new);
            let k = find_block(p.blocks, id);
            &&& q.props == p.props
            &&& q.warnings.len() == 0
            &&& q.blocks.len() == p.blocks.len()
            &&& q.blocks[k].tag_name == kind.tag_spec()
            &&& q.blocks[k].attrs == p.blocks[k].attrs
            &&& q.blocks[k].body == strip_nl(body)
            &&& q.blocks[k].warnings.len() == 0
            &&& forall|j: int|
                0 <= j < p.blocks.len() && j != k ==> same_block(#[trigger] q.blocks[j], p.blocks[j])
        }),
{
    let ls = lines(cur);
    lemma_clean_throughout(ls);
    let p = parse_spec(cur);
    let k = find_block(p.blocks, id);
    assert(first_block(p.blocks, k, id));
    lemma_block_origin(ls, k);
    let b = p.blocks[k];
    let s = b.lines.0;
    let e = b.lines.1;
    let before = scan_at(ls, s as int);
    lemma_lines_lack_nl(cur);
    crate::format_laws::lemma_opener_attrs_ok(ls[s as int]);
    let t = kind.tag_spec();
    lemma_kind_tags_valid(kind);
    let lb = lemma_update_lines(cur, s, e, t, b.attrs, body);
    let new = splice_spec(cur, s, e, Some(block_text_spec(t, b.attrs, body)));
    assert(update_spec(cur, id, t, body) == Ok::<Seq<char>, Seq<char>>(new));
    let bl = seq![seq!['<'] + t + attrs_text(b.attrs) + seq!['>']] + lb + seq![seq!['<', '/'] + t + seq!['>']];
    lemma_block_from(before, s, t, b.attrs, lb);
    let a0 = scan_from(before, s, bl);
    assert(agree(a0, scan_at(ls, e as int), k + 1, k + 1));
    lemma_swap_middle(ls, bl, s, e, k + 1, k + 1);
    let q = parse_spec(new);
    assert(q.blocks[k] == written_block(t, b.attrs, lb, s));
    assert forall|j: int| 0 <= j < p.blocks.len() && j != k implies same_block(#[trigger] q.blocks[j], p.blocks[j]) by {
        if j < k {
            assert(q.blocks[j] == a0.page.blocks[j]);
            assert(a0.page.blocks[j] == before.page.blocks[j]);
        } else {
            assert(same_block(q.blocks[j], p.blocks[j - (k + 1) + (k + 1)]));
        }
    }
}

/// A line that trims to nothing is no tag, and quiet.
proof fn lemma_blank_line(l: Seq<char>)
    requires
        trim(l).len() == 0,
    ensures
        marker_spec(l) is None,
        crate::format::is_quiet(l),
{
    let te = trim_end(l);
    lemma_trim_end_prefix(l);
    lemma_trim_start_suffix(te);
    if te.len() > 0 {
        assert(is_ws(te[te.len() - 1]));
        assert(te[te.len() - 1] == te.last());
    }
    assert(!starts_with(te, crate::format::close_prefix()));
    assert(!starts_with(te, crate::format::open_prefix()));
}

/// Lines joined back into a text parse as the lines themselves, where no
/// line holds a newline or ends in a carriage return (no lines at all make
/// one blank line, which parses as nothing).
proof fn lemma_rejoined_parse(x: Seq<Seq<char>>)
    requires
        forall|i: int| 0 <= i < x.len() ==> !(#[trigger] x[i]).contains('\n'),
        no_kept_cr(x),
    ensures
        parse_spec(crate::text::join_lines(x) + seq!['\n']) == scan_end(scan_fold(x), x.len()).page,
{
    let text = crate::text::join_lines(x) + seq!['\n'];
    if x.len() > 0 {
        lemma_rejoin_lines(x);
    } else {
        assert(text =~= seq!['\n']);
        crate::edit_laws::lemma_lines_acc_newline();
        let one = seq![Seq::<char>::empty()];
        assert(lines(text) == one);
        assert(trim(Seq::<char>::empty()) =~= Seq::<char>::empty());
        lemma_blank_line(Seq::<char>::empty());
        assert(one.drop_last() =~= Seq::<Seq<char>>::empty());
        assert(x =~= Seq::<Seq<char>>::empty());
        assert(scan_fold(Seq::<Seq<char>>::empty()) == crate::format::scan_init());
        crate::edit_laws::lemma_step_blank(crate::format::scan_init(), 0);
        assert(scan_fold(one) == step_spec(crate::format::scan_init(), 0, Seq::<char>::empty()));
        assert(scan_fold(one) == scan_fold(x));
    }
}

/// Where a removal leaves off: the block's lines go, and with them the
/// blank line before it when a blank line (or the end) follows it. The
/// scan up to that point is the scan up to the block.
proof fn lemma_rm_cut(ls: Seq<Seq<char>>, cur: Seq<char>, s: nat, e: nat) -> (s0: nat)
    requires
        ls == lines(cur),
        0 <= s < e <= ls.len(),
        scan_at(ls, s as int).open is None,
        forall|i: int| 0 <= i <= ls.len() ==> clean_state(#[trigger] scan_at(ls, i)),
    ensures
        s0 <= s,
        scan_at(ls, s0 as int) == scan_at(ls, s as int),
        splice_spec(cur, s, e, None) == join_lines(ls.take(s0 as int) + ls.skip(e as int)) + seq!['\n'],
{
    let head = ls.take(s as int);
    let drop = head.len() > 0 && trim(head.last()).len() == 0 && (e >= ls.len() || trim(ls[e as int]).len() == 0);
    let s0: nat = if drop { (s - 1) as nat } else { s };
    if drop {
        assert(head.last() == ls[s - 1]);
        lemma_blank_line(ls[s - 1]);
        lemma_scan_at_step(ls, s - 1);
        assert(clean_state(scan_at(ls, s - 1)));
        assert(ls.take(s0 as int) =~= head.drop_last());
    }
    let out = if drop { head.drop_last() } else { head };
    assert(out + ls.skip(e as int) =~= ls.take(s0 as int) + ls.skip(e as int));
    s0
}

/// Removing a block from a clean page file takes out that block and no
/// other. When the page parses with no warning, on the page or on any of
/// its blocks, and `id` names one of its blocks, the new text parses to a
/// page with the same properties, no warning, and one block fewer: the
/// blocks before the removed one and the blocks after it, in order, each
/// with the type, attributes, body and warnings it had. No line of the
/// file may end in a carriage return that splitting kept.
#[verifier::spinoff_prover]
pub proof fn lemma_rm_takes_out_only_its_block(cur: Seq<char>, id: Seq<char>)
    requires
        clean_page(parse_spec(cur)),
        find_block(parse_spec(cur).blocks, id) >= 0,
        no_kept_cr(lines(cur)),
    ensures
        rm_spec(cur, id) matches Ok(new) && ({
            let p = parse_spec(cur);
            let q = parse_spec(new);
            let k = find_block(p.blocks, id);
            &&& q.props == p.props
            &&& q.warnings.len() == 0
            &&& q.blocks.len() + 1 == p.blocks.len()
            &&& forall|j: int| 0 <= j < k ==> same_block(#[trigger] q.blocks[j], p.blocks[j])
            &&& forall|j: int| k <= j < q.blocks.len() ==> same_block(#[trigger] q.blocks[j], p.blocks[j + 1])
        }),
{
    let ls = lines(cur);
    lemma_clean_throughout(ls);
    let p = parse_spec(cur);
    let k = find_block(p.blocks, id);
    assert(first_block(p.blocks, k, id));
    lemma_block_origin(ls, k);
    let b = p.blocks[k];
    let s = b.lines.0;
    let e = b.lines.1;
    let new = splice_spec(cur, s, e, None);
    assert(rm_spec(cur, id) == Ok::<Seq<char>, Seq<char>>(new));
    let s0 = lemma_rm_cut(ls, cur, s, e);
    let empty = Seq::<Seq<char>>::empty();
    let a0 = scan_at(ls, s0 as int);
    assert(scan_from(a0, s0, empty) == a0);
    assert(agree(a0, scan_at(ls, e as int), k, k + 1));
    lemma_swap_middle(ls, empty, s0, e, k, k + 1);
    let x = ls.take(s0 as int) + empty + ls.skip(e as int);
    assert(x =~= ls.take(s0 as int) + ls.skip(e as int));
    lemma_lines_lack_nl(cur);
    assert forall|i: int| 0 <= i < x.len() implies !(#[trigger] x[i]).contains('\n') && (x[i].len() == 0 || x[i].last() != '\r') by {
        if i < s0 {
            assert(x[i] == ls[i]);
        } else {
            assert(x[i] == ls[i - s0 + e]);
        }
    }
    lemma_rejoined_parse(x);
    let q = parse_spec(new);
    assert forall|j: int| 0 <= j < k implies same_block(#[trigger] q.blocks[j], p.blocks[j]) by {
        assert(q.blocks[j] == a0.page.blocks[j]);
    }
    assert forall|j: int| k <= j < q.blocks.len() implies same_block(#[trigger] q.blocks[j], p.blocks[j + 1]) by {
        assert(same_block(q.blocks[j], p.blocks[j - k + (k + 1)]));
    }
}

/// A line that opens the page: the `<sv-page>` tag as the grammar reads it.
pub open spec fn opens_page(l: Seq<char>) -> bool {
    marker_spec(l) matches Some(MarkerV::Open { name, .. }) && name == "sv-page"@
}

/// A scan state with other page properties and page-tag flag.
pub open spec fn rebase(st: ScanV, props: Seq<(Seq<char>, Seq<char>)>, seen: bool) -> ScanV {
    ScanV {
        page: PageV { props, blocks: st.page.blocks, warnings: st.page.warnings },
        seen_page_tag: seen,
        open: st.open,
        stray: st.stray,
    }
}

/// Away from a page tag, a step neither reads nor writes the page's
/// properties or its page-tag flag.
proof fn lemma_step_rebase(st: ScanV, props: Seq<(Seq<char>, Seq<char>)>, seen: bool, i: nat, raw: Seq<char>)
    requires
        !opens_page(raw),
    ensures
        step_spec(rebase(st, props, seen), i, raw) == rebase(step_spec(st, i, raw), props, seen),
        step_spec(st, i, raw).page.props == st.page.props,
        step_spec(st, i, raw).seen_page_tag == st.seen_page_tag,
{
}

proof fn lemma_from_rebase(st: ScanV, props: Seq<(Seq<char>, Seq<char>)>, seen: bool, base: nat, ls: Seq<Seq<char>>)
    requires
        forall|i: int| 0 <= i < ls.len() ==> !opens_page(#[trigger] ls[i]),
    ensures
        scan_from(rebase(st, props, seen), base, ls) == rebase(scan_from(st, base, ls), props, seen),
        scan_from(st, base, ls).page.props == st.page.props,
        scan_from(st, base, ls).seen_page_tag == st.seen_page_tag,
    decreases ls.len(),
{
    if ls.len() > 0 {
        let init = ls.drop_last();
        assert forall|i: int| 0 <= i < init.len() implies !opens_page(#[trigger] init[i]) by {
            assert(init[i] == ls[i]);
        }
        lemma_from_rebase(st, props, seen, base, init);
        assert(!opens_page(ls[ls.len() - 1]));
        lemma_step_rebase(scan_from(st, base, init), props, seen, (base + ls.len() - 1) as nat, ls.last());
    }
}

proof fn lemma_end_rebase(st: ScanV, props: Seq<(Seq<char>, Seq<char>)>, seen: bool, n: nat)
    ensures
        scan_end(rebase(st, props, seen), n) == rebase(scan_end(st, n), props, seen),
        scan_end(st, n).page.props == st.page.props,
{
}

proof fn lemma_without_key_ok(ps: Seq<(Seq<char>, Seq<char>)>, key: Seq<char>)
    requires
        attrs_ok(ps),
    ensures
        attrs_ok(without_key(ps, key)),
    decreases ps.len(),
{
    if ps.len() > 0 {
        let init = ps.drop_last();
        assert(attrs_ok(init)) by {
            assert forall|i: int| 0 <= i < init.len() implies attr_ok(#[trigger] init[i]) by {
                assert(init[i] == ps[i]);
            }
        }
        lemma_without_key_ok(init, key);
        assert(attr_ok(ps[ps.len() - 1]));
        let r = without_key(init, key);
        assert(attrs_ok(r.push(ps.last()))) by {
            assert forall|i: int| 0 <= i < r.push(ps.last()).len() implies attr_ok(#[trigger] r.push(ps.last())[i]) by {
                if i < r.len() {
                    assert(r.push(ps.last())[i] == r[i]);
                }
            }
        }
    }
}

proof fn lemma_set_prop_ok(ps: Seq<(Seq<char>, Seq<char>)>, key: Seq<char>, value: Option<Seq<char>>)
    requires
        attrs_ok(ps),
        value matches Some(v) ==> attr_ok((key, v)),
    ensures
        attrs_ok(set_prop(ps, key, value)),
{
    lemma_without_key_ok(ps, key);
    if value is Some {
        let r = without_key(ps, key);
        let x = (key, value->0);
        assert forall|i: int| 0 <= i < r.push(x).len() implies attr_ok(#[trigger] r.push(x)[i]) by {
            if i < r.len() {
                assert(r.push(x)[i] == r[i]);
            }
        }
    }
}

/// The properties `session set` writes are properties the grammar can hold.
proof fn lemma_session_props_ok(ps: Seq<(Seq<char>, Seq<char>)>, label: Option<Seq<char>>, outline: Option<Seq<char>>)
    requires
        attrs_ok(ps),
        label matches Some(l) ==> !bad_value(l),
        outline matches Some(o) ==> outline_ok(o),
    ensures
        attrs_ok(session_props(ps, label, outline)),
{
    reveal_strlit("label");
    reveal_strlit("outline");
    reveal_strlit("tabs");
    reveal_strlit("off");
    reveal_strlit("auto");
    reveal_strlit("scrollspy");
    let p1 = match label {
        Some(l) => set_prop(ps, "label"@, if l.len() == 0 { None } else { Some(l) }),
        None => ps,
    };
    assert(all_key_chars("label"@)) by {
        assert forall|i: int| 0 <= i < "label"@.len() implies is_key_char(#[trigger] "label"@[i]) by {}
    }
    assert(all_key_chars("outline"@)) by {
        assert forall|i: int| 0 <= i < "outline"@.len() implies is_key_char(#[trigger] "outline"@[i]) by {}
    }
    if label is Some {
        lemma_set_prop_ok(ps, "label"@, if label->0.len() == 0 { None } else { Some(label->0) });
    }
    if outline is Some {
        let o = outline->0;
        assert(!o.contains('"') && !o.contains('\n')) by {
            if o.contains('"') || o.contains('\n') {
                let j = choose|j: int| 0 <= j < o.len() && (o[j] == '"' || o[j] == '\n');
            }
        }
        lemma_set_prop_ok(p1, "outline"@, if o == "auto"@ || o == "scrollspy"@ { None } else { Some(o) });
    }
}

/// The page tag `session set` writes is read back as that page tag.
proof fn lemma_page_tag_line(ps: Seq<(Seq<char>, Seq<char>)>)
    requires
        attrs_ok(ps),
    ensures
        marker_spec(page_tag(ps)) == Some(MarkerV::Open { name: "sv-page"@, attrs: ps }),
        !page_tag(ps).contains('\n'),
        page_tag(ps).last() == '>',
{
    reveal_strlit("sv-page");
    reveal_strlit("<sv-page");
    let pg = "sv-page"@;
    assert(valid_tag(pg)) by {
        assert(pg.subrange(0, 3) =~= crate::format::sv_dash());
        assert forall|i: int| 0 <= i < pg.subrange(3, pg.len() as int).len() implies is_lower_or_digit(#[trigger] pg.subrange(3, pg.len() as int)[i]) by {}
    }
    assert(page_tag(ps) =~= seq!['<'] + pg + attrs_text(ps) + seq!['>']);
    crate::format_laws::lemma_opener_line(pg, ps);
    crate::format_laws::lemma_opener_no_nl(pg, ps);
}

proof fn lemma_props_step(st: ScanV, i: nat, raw: Seq<char>)
    requires
        attrs_ok(st.page.props),
        !raw.contains('\n'),
    ensures
        attrs_ok(step_spec(st, i, raw).page.props),
        st.seen_page_tag ==> step_spec(st, i, raw).seen_page_tag,
{
    if marker_spec(raw) is Some && marker_spec(raw)->0 is Open {
        crate::format_laws::lemma_opener_attrs_ok(raw);
    }
}

proof fn lemma_props_fold(ls: Seq<Seq<char>>, i: int)
    requires
        0 <= i <= ls.len(),
        forall|j: int| 0 <= j < ls.len() ==> !(#[trigger] ls[j]).contains('\n'),
    ensures
        attrs_ok(scan_at(ls, i).page.props),
    decreases i,
{
    if i == 0 {
        assert(ls.take(0) =~= Seq::<Seq<char>>::empty());
        assert(scan_at(ls, 0) == crate::format::scan_init());
    } else {
        lemma_props_fold(ls, i - 1);
        lemma_scan_at_step(ls, i - 1);
        lemma_props_step(scan_at(ls, i - 1), (i - 1) as nat, ls[i - 1]);
    }
}

/// A parsed page's properties are properties the grammar can hold.
proof fn lemma_parsed_props_ok(cur: Seq<char>)
    ensures
        attrs_ok(parse_spec(cur).props),
{
    let ls = lines(cur);
    lemma_lines_lack_nl(cur);
    lemma_props_fold(ls, ls.len() as int);
    assert(ls.take(ls.len() as int) =~= ls);
}

proof fn lemma_seen_onward(ls: Seq<Seq<char>>, i: int, j: int)
    requires
        0 <= i <= j <= ls.len(),
        scan_at(ls, i).seen_page_tag,
    ensures
        scan_at(ls, j).seen_page_tag,
    decreases j - i,
{
    if j > i {
        lemma_seen_onward(ls, i, j - 1);
        lemma_scan_at_step(ls, j - 1);
    }
}

/// In a clean scan, a second page tag is impossible: it would warn.
proof fn lemma_no_second_page_tag(st: ScanV, i: nat, raw: Seq<char>)
    requires
        clean_state(st),
        st.seen_page_tag,
        opens_page(raw),
    ensures
        !clean_state(step_spec(st, i, raw)),
{
    let r = step_spec(st, i, raw);
    let n = st.page.blocks.len();
    if st.open is Some {
        let name = marker_spec(raw)->0->Open_name;
        let st1 = finish_spec(warn_open(st, crate::format::never_closed_at(st.open->0.start, i, name)), i);
        assert(st1.page.blocks[n as int].warnings.len() > 0);
        assert(r.page.blocks[n as int] == st1.page.blocks[n as int]);
    } else {
        assert(r.page.warnings.len() > 0);
    }
}

/// The scan of a page whose first page-looking line is its page tag: that
/// tag is read with nothing open and no tag seen before, and no page tag
/// comes after it.
#[verifier::spinoff_prover]
proof fn lemma_page_tag_scan(ls: Seq<Seq<char>>, i0: int)
    requires
        clean_page(scan_end(scan_fold(ls), ls.len()).page),
        crate::edit::first_page_line(ls, i0),
        opens_page(ls[i0]),
    ensures
        scan_at(ls, i0).open is None,
        scan_at(ls, i0).stray is None,
        !scan_at(ls, i0).seen_page_tag,
        scan_at(ls, i0 + 1) == rebase(scan_at(ls, i0), marker_spec(ls[i0])->0->attrs, true),
        forall|t: int| 0 <= t < ls.skip(i0 + 1).len() ==> !opens_page(#[trigger] ls.skip(i0 + 1)[t]),
{
    lemma_clean_throughout(ls);
    let h = ls.take(i0);
    assert forall|j: int| 0 <= j < h.len() implies !opens_page(#[trigger] h[j]) by {
        assert(h[j] == ls[j]);
        crate::format_laws::lemma_page_line_marker(ls[j]);
    }
    let init = crate::format::scan_init();
    lemma_scan_concat(Seq::<Seq<char>>::empty(), h);
    assert(Seq::<Seq<char>>::empty() + h =~= h);
    assert(scan_fold(Seq::<Seq<char>>::empty()) == init);
    lemma_from_rebase(init, init.page.props, false, 0, h);
    let st = scan_at(ls, i0);
    lemma_scan_at_step(ls, i0);
    assert(clean_state(st));
    assert(clean_state(scan_at(ls, i0 + 1)));
    if st.open is Some {
        let n = st.page.blocks.len();
        let name = marker_spec(ls[i0])->0->Open_name;
        let st1 = finish_spec(warn_open(st, crate::format::never_closed_at(st.open->0.start, i0 as nat, name)), i0 as nat);
        assert(st1.page.blocks[n as int].warnings.len() > 0);
        assert(scan_at(ls, i0 + 1).page.blocks[n as int] == st1.page.blocks[n as int]);
    }
    let tl = ls.skip(i0 + 1);
    assert forall|t: int| 0 <= t < tl.len() implies !opens_page(#[trigger] tl[t]) by {
        let j = i0 + 1 + t;
        assert(tl[t] == ls[j]);
        lemma_seen_onward(ls, i0 + 1, j);
        lemma_scan_at_step(ls, j);
        if opens_page(ls[j]) {
            lemma_no_second_page_tag(scan_at(ls, j), j as nat, ls[j]);
        }
    }
}

/// Replacing the page tag of a clean page changes its properties and
/// nothing else.
#[verifier::spinoff_prover]
proof fn lemma_page_tag_rewritten(cur: Seq<char>, i0: int, newp: Seq<(Seq<char>, Seq<char>)>)
    requires
        clean_page(parse_spec(cur)),
        no_kept_cr(lines(cur)),
        crate::edit::first_page_line(lines(cur), i0),
        opens_page(lines(cur)[i0]),
        attrs_ok(newp),
    ensures
        parse_spec(
            join_lines(lines(cur).take(i0).push(page_tag(newp)) + lines(cur).skip(i0 + 1)) + seq!['\n'],
        ) == (PageV { props: newp, blocks: parse_spec(cur).blocks, warnings: parse_spec(cur).warnings }),
{
    let ls = lines(cur);
    lemma_clean_throughout(ls);
    lemma_page_tag_scan(ls, i0);
    let tag = page_tag(newp);
    lemma_page_tag_line(newp);
    let h = ls.take(i0);
    let tl = ls.skip(i0 + 1);
    let ln = h.push(tag) + tl;
    lemma_lines_lack_nl(cur);
    assert forall|i: int| 0 <= i < ln.len() implies !(#[trigger] ln[i]).contains('\n') && (ln[i].len() == 0 || ln[i].last() != '\r') by {
        if i < i0 {
            assert(ln[i] == ls[i]);
        } else if i == i0 {
            assert(ln[i] == tag);
            assert(tag[tag.len() - 1] == tag.last());
        } else {
            assert(ln[i] == ls[i]);
        }
    }
    lemma_rejoined_parse(ln);
    let st = scan_at(ls, i0);
    let b0 = scan_at(ls, i0 + 1);
    assert(ls =~= ls.take(i0 + 1) + tl);
    lemma_scan_concat(ls.take(i0 + 1), tl);
    lemma_scan_concat(h.push(tag), tl);
    assert(h.push(tag).drop_last() =~= h);
    assert(h.push(tag).last() == tag);
    let a0 = step_spec(st, i0 as nat, tag);
    assert(scan_fold(h.push(tag)) == a0);
    assert(a0 == rebase(b0, newp, true));
    lemma_from_rebase(b0, newp, true, (i0 + 1) as nat, tl);
    lemma_end_rebase(scan_fold(ls), newp, true, ln.len());
    assert(ln.len() == ls.len());
}

/// Putting a page tag in front of a clean page with none sets its
/// properties and changes nothing else.
#[verifier::spinoff_prover]
proof fn lemma_page_tag_added(cur: Seq<char>, newp: Seq<(Seq<char>, Seq<char>)>)
    requires
        clean_page(parse_spec(cur)),
        no_kept_cr(lines(cur)),
        forall|i: int| 0 <= i < lines(cur).len() ==> !crate::edit::is_page_line(#[trigger] lines(cur)[i]),
        attrs_ok(newp),
    ensures
        ({
            let p = parse_spec(cur);
            let q = parse_spec(join_lines(seq![page_tag(newp), Seq::<char>::empty()] + lines(cur)) + seq!['\n']);
            &&& q.props == newp
            &&& q.warnings.len() == p.warnings.len()
            &&& q.blocks.len() == p.blocks.len()
            &&& forall|j: int| 0 <= j < p.blocks.len() ==> same_block(#[trigger] q.blocks[j], p.blocks[j])
        }),
{
    let ls = lines(cur);
    let n = ls.len();
    lemma_clean_throughout(ls);
    assert forall|j: int| 0 <= j < ls.len() implies !opens_page(#[trigger] ls[j]) by {
        crate::format_laws::lemma_page_line_marker(ls[j]);
    }
    let tag = page_tag(newp);
    lemma_page_tag_line(newp);
    let two = seq![tag, Seq::<char>::empty()];
    let ln = two + ls;
    lemma_lines_lack_nl(cur);
    assert forall|i: int| 0 <= i < ln.len() implies !(#[trigger] ln[i]).contains('\n') && (ln[i].len() == 0 || ln[i].last() != '\r') by {
        if i == 0 {
            assert(ln[i] == tag);
            assert(tag[tag.len() - 1] == tag.last());
        } else if i == 1 {
            assert(ln[i] == Seq::<char>::empty());
        } else {
            assert(ln[i] == ls[i - 2]);
        }
    }
    lemma_rejoined_parse(ln);
    let init = crate::format::scan_init();
    lemma_scan_concat(two, ls);
    assert(two.drop_last() =~= seq![tag]);
    assert(seq![tag].drop_last() =~= Seq::<Seq<char>>::empty());
    assert(scan_fold(Seq::<Seq<char>>::empty()) == init);
    let a0 = rebase(init, newp, true);
    assert(scan_fold(seq![tag]) == a0);
    crate::edit_laws::lemma_step_blank(a0, 1);
    assert(scan_fold(two) == a0);
    lemma_from_rebase(init, newp, true, 2, ls);
    lemma_scan_concat(Seq::<Seq<char>>::empty(), ls);
    assert(Seq::<Seq<char>>::empty() + ls =~= ls);
    let x = scan_from(init, 2, ls);
    let y = scan_from(init, 0, ls);
    assert(y == scan_fold(ls));
    assert(agree(init, init, 0, 0));
    lemma_agree_from(init, init, 0, 0, 2, 0, ls);
    lemma_agree_end(x, y, 0, 0, ln.len(), n);
    lemma_end_rebase(x, newp, true, ln.len());
    let q = parse_spec(join_lines(ln) + seq!['\n']);
    let p = parse_spec(cur);
    assert forall|j: int| 0 <= j < p.blocks.len() implies same_block(#[trigger] q.blocks[j], p.blocks[j]) by {
        assert(same_block(scan_end(x, ln.len()).page.blocks[j], scan_end(y, n).page.blocks[j - 0 + 0]));
    }
}

proof fn lemma_first_page_line_from(ls: Seq<Seq<char>>, i: int)
    requires
        0 <= i < ls.len(),
        crate::edit::is_page_line(ls[i]),
    ensures
        exists|k: int| crate::edit::first_page_line(ls, k),
    decreases i,
{
    if exists|j: int| 0 <= j < i && crate::edit::is_page_line(#[trigger] ls[j]) {
        let j = choose|j: int| 0 <= j < i && crate::edit::is_page_line(#[trigger] ls[j]);
        lemma_first_page_line_from(ls, j);
    } else {
        assert(crate::edit::first_page_line(ls, i));
    }
}

/// Setting a page's properties reads back. On a page file that parses with
/// no warning, and whose first line that looks like a page tag (if any) is
/// one the grammar reads, a successful `session set` leaves a text that
/// parses to the old properties with `label` and `outline` set as the
/// command sets them, no warning, and the same blocks in the same order,
/// each with the type, attributes, body and warnings it had. No line of the
/// file may end in a carriage return that splitting kept.
#[verifier::spinoff_prover]
pub proof fn lemma_session_set_reads_back(cur: Seq<char>, label: Option<Seq<char>>, outline: Option<Seq<char>>)
    requires
        clean_page(parse_spec(cur)),
        no_kept_cr(lines(cur)),
        forall|i: int| #[trigger] crate::edit::first_page_line(lines(cur), i) ==> marker_spec(lines(cur)[i]) is Some,
        session_set_spec(cur, label, outline) is Ok,
    ensures
        ({
            let p = parse_spec(cur);
            let q = parse_spec(session_set_spec(cur, label, outline)->Ok_0);
            &&& q.props == session_props(p.props, label, outline)
            &&& q.warnings.len() == 0
            &&& q.blocks.len() == p.blocks.len()
            &&& forall|j: int| 0 <= j < p.blocks.len() ==> same_block(#[trigger] q.blocks[j], p.blocks[j])
        }),
{
    let ls = lines(cur);
    let p = parse_spec(cur);
    lemma_parsed_props_ok(cur);
    let newp = session_props(p.props, label, outline);
    lemma_session_props_ok(p.props, label, outline);
    let tag = page_tag(newp);
    if exists|i: int| crate::edit::first_page_line(ls, i) {
        let i0 = choose|i: int| crate::edit::first_page_line(ls, i);
        crate::format_laws::lemma_page_line_marker(ls[i0]);
        lemma_page_tag_rewritten(cur, i0, newp);
        assert(session_set_spec(cur, label, outline) == Ok::<Seq<char>, Seq<char>>(
            join_lines(ls.take(i0).push(tag) + ls.skip(i0 + 1)) + seq!['\n'],
        ));
    } else {
        assert forall|i: int| 0 <= i < ls.len() implies !crate::edit::is_page_line(#[trigger] ls[i]) by {
            if crate::edit::is_page_line(ls[i]) {
                lemma_first_page_line_from(ls, i);
            }
        }
        lemma_page_tag_added(cur, newp);
        assert(session_set_spec(cur, label, outline) == Ok::<Seq<char>, Seq<char>>(
            join_lines(seq![tag, Seq::<char>::empty()] + ls) + seq!['\n'],
        ));
    }
}

/// A splice touches only its range: the new text's lines are the lines
/// before the range, the replacement's lines, and the lines after the
/// range, byte for byte. Neither text may have a line that ends in a
/// carriage return that splitting kept, and the result must have a line.
pub proof fn lemma_splice_keeps_other_lines(cur: Seq<char>, s: nat, e: nat, r: Seq<char>)
    requires
        s <= e <= lines(cur).len(),
        no_kept_cr(lines(cur)),
        no_kept_cr(lines(r)),
        lines(cur).take(s as int).len() + lines(r).len() + lines(cur).skip(e as int).len() > 0,
    ensures
        lines(splice_spec(cur, s, e, Some(r))) == lines(cur).take(s as int) + lines(r) + lines(cur).skip(e as int),
{
    let ls = lines(cur);
    let x = ls.take(s as int) + lines(r) + ls.skip(e as int);
    lemma_lines_lack_nl(cur);
    lemma_lines_lack_nl(r);
    let h = s as int;
    let m = lines(r).len() as int;
    assert forall|i: int| 0 <= i < x.len() implies !(#[trigger] x[i]).contains('\n') && (x[i].len() == 0 || x[i].last() != '\r') by {
        if i < h {
            assert(x[i] == ls[i]);
        } else if i < h + m {
            assert(x[i] == lines(r)[i - h]);
        } else {
            assert(x[i] == ls[i - h - m + e]);
        }
    }
    lemma_rejoin_lines(x);
}

/// Once a page tag has been read, no line changes the page's properties.
proof fn lemma_seen_keeps_props(st: ScanV, base: nat, ls: Seq<Seq<char>>)
    requires
        st.seen_page_tag,
    ensures
        scan_from(st, base, ls).page.props == st.page.props,
        scan_from(st, base, ls).seen_page_tag,
    decreases ls.len(),
{
    if ls.len() > 0 {
        lemma_seen_keeps_props(st, base, ls.drop_last());
    }
}

/// Setting a page's properties reads back on any page: whatever else the
/// file holds, a successful `session set` leaves a text whose parsed
/// properties are the old ones with `label` and `outline` set as the
/// command sets them. (That the blocks stay as they were needs more of the
/// page; see `lemma_session_set_reads_back`.) No line of the file may end
/// in a carriage return that splitting kept.
#[verifier::spinoff_prover]
pub proof fn lemma_session_set_props_read_back(cur: Seq<char>, label: Option<Seq<char>>, outline: Option<Seq<char>>)
    requires
        no_kept_cr(lines(cur)),
        session_set_spec(cur, label, outline) is Ok,
    ensures
        parse_spec(session_set_spec(cur, label, outline)->Ok_0).props == session_props(parse_spec(cur).props, label, outline),
{
    let ls = lines(cur);
    let p = parse_spec(cur);
    lemma_parsed_props_ok(cur);
    let newp = session_props(p.props, label, outline);
    lemma_session_props_ok(p.props, label, outline);
    let tag = page_tag(newp);
    lemma_page_tag_line(newp);
    lemma_lines_lack_nl(cur);
    let init = crate::format::scan_init();
    if exists|i: int| crate::edit::first_page_line(ls, i) {
        let i0 = choose|i: int| crate::edit::first_page_line(ls, i);
        let h = ls.take(i0);
        let tl = ls.skip(i0 + 1);
        let ln = h.push(tag) + tl;
        assert(session_set_spec(cur, label, outline) == Ok::<Seq<char>, Seq<char>>(join_lines(ln) + seq!['\n']));
        assert forall|i: int| 0 <= i < ln.len() implies !(#[trigger] ln[i]).contains('\n') && (ln[i].len() == 0 || ln[i].last() != '\r') by {
            if i < i0 {
                assert(ln[i] == ls[i]);
            } else if i == i0 {
                assert(ln[i] == tag);
                assert(tag[tag.len() - 1] == tag.last());
            } else {
                assert(ln[i] == ls[i]);
            }
        }
        lemma_rejoined_parse(ln);
        assert forall|j: int| 0 <= j < h.len() implies !opens_page(#[trigger] h[j]) by {
            assert(h[j] == ls[j]);
            crate::format_laws::lemma_page_line_marker(ls[j]);
        }
        lemma_scan_concat(Seq::<Seq<char>>::empty(), h);
        assert(Seq::<Seq<char>>::empty() + h =~= h);
        assert(scan_fold(Seq::<Seq<char>>::empty()) == init);
        lemma_from_rebase(init, init.page.props, false, 0, h);
        let st = scan_fold(h);
        assert(h.push(tag).drop_last() =~= h);
        assert(h.push(tag).last() == tag);
        let a0 = step_spec(st, i0 as nat, tag);
        assert(scan_fold(h.push(tag)) == a0);
        assert(a0.page.props == newp && a0.seen_page_tag);
        lemma_scan_concat(h.push(tag), tl);
        lemma_seen_keeps_props(a0, (i0 + 1) as nat, tl);
        lemma_end_rebase(scan_fold(ln), newp, true, ln.len());
    } else {
        let two = seq![tag, Seq::<char>::empty()];
        let ln = two + ls;
        assert(session_set_spec(cur, label, outline) == Ok::<Seq<char>, Seq<char>>(join_lines(ln) + seq!['\n']));
        assert forall|i: int| 0 <= i < ln.len() implies !(#[trigger] ln[i]).contains('\n') && (ln[i].len() == 0 || ln[i].last() != '\r') by {
            if i == 0 {
                assert(ln[i] == tag);
                assert(tag[tag.len() - 1] == tag.last());
            } else if i == 1 {
                assert(ln[i] == Seq::<char>::empty());
            } else {
                assert(ln[i] == ls[i - 2]);
            }
        }
        lemma_rejoined_parse(ln);
        lemma_scan_concat(two, ls);
        assert(two.drop_last() =~= seq![tag]);
        assert(seq![tag].drop_last() =~= Seq::<Seq<char>>::empty());
        assert(scan_fold(Seq::<Seq<char>>::empty()) == init);
        let a0 = rebase(init, newp, true);
        assert(scan_fold(seq![tag]) == a0);
        crate::edit_laws::lemma_step_blank(a0, 1);
        assert(scan_fold(two) == a0);
        lemma_seen_keeps_props(a0, 2, ls);
        lemma_end_rebase(scan_fold(ln), newp, true, ln.len());
    }
}

} // verus!
