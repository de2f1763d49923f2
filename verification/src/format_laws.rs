//! What the `.sv` format promises as a whole, proved over `parse_spec` and
//! `block_text_spec` (the specifications `parse` and `block_text` meet).

use vstd::prelude::*;

use crate::format::{MarkerV, OpenV, ScanV, all_key_chars, all_name_chars, attr_item, attrs_text, block_text, block_text_spec, close_prefix, find_char, find_pair, finish_spec, first_char, first_pair, flush_spec, is_key_char, marker_spec, name_len, never_closed_eof, open_prefix, pair_at, parse, parse_attrs_spec, parse_spec, scan_fold, scan_init, step_spec, strip_nl, sv_dash, warn_open};
use crate::text::{lemma_trim_end_prefix, lemma_trim_start_suffix, is_lower_or_digit, is_ws, join_lines, lemma_join_lines_acc, lemma_lines_acc_append, lemma_lines_acc_no_nl, lines, lines_acc, starts_with, strip_cr, trim, trim_end, trim_start};

verus! {

/// A block type the grammar can spell: `sv-` then `[a-z0-9]+`.
pub open spec fn valid_tag(t: Seq<char>) -> bool {
    t.len() > 3 && t.subrange(0, 3) == sv_dash() && all_name_chars(t.subrange(3, t.len() as int))
}

/// An attribute the grammar can hold: a `[a-z0-9-]+` key and a value with
/// no double quote and no newline.
pub open spec fn attr_ok(kv: (Seq<char>, Seq<char>)) -> bool {
    kv.0.len() > 0 && all_key_chars(kv.0) && !kv.1.contains('"') && !kv.1.contains('\n')
}

pub open spec fn attrs_ok(a: Seq<(Seq<char>, Seq<char>)>) -> bool {
    forall|i: int| 0 <= i < a.len() ==> attr_ok(#[trigger] a[i])
}

proof fn lemma_find_char_is(s: Seq<char>, k: int, c: char)
    requires
        first_char(s, k, c),
    ensures
        find_char(s, c) == k,
{
    let w = choose|w: int| #[trigger] first_char(s, w, c);
    assert(first_char(s, w, c));
    if w < k {
        assert(s[w] != c);
    } else if w > k {
        assert(s[k] != c);
    }
}

proof fn lemma_find_pair_is(s: Seq<char>, k: int, a: char, b: char)
    requires
        first_pair(s, k, a, b),
    ensures
        find_pair(s, a, b) == k,
{
    let w = choose|w: int| #[trigger] first_pair(s, w, a, b);
    assert(first_pair(s, w, a, b));
    if w < k {
        assert(!pair_at(s, w, a, b));
    } else if w > k {
        assert(!pair_at(s, k, a, b));
    }
}

proof fn lemma_key_no_ws(k: Seq<char>)
    requires
        all_key_chars(k),
    ensures
        trim(k) == k,
{
    if k.len() > 0 {
        assert(is_key_char(k[k.len() - 1]));
        assert(is_key_char(k[0]));
    }
}

/// The shape of the serialized attribute list: empty, or a leading space and
/// a closing quote.
proof fn lemma_attrs_text_shape(a: Seq<(Seq<char>, Seq<char>)>)
    ensures
        a.len() == 0 ==> attrs_text(a).len() == 0,
        a.len() > 0 ==> attrs_text(a).len() > 0 && attrs_text(a)[0] == ' ' && attrs_text(a).last()
            == '"',
    decreases a.len(),
{
    if a.len() > 0 {
        lemma_attrs_text_shape(a.drop_first());
        let it = attr_item(a[0]);
        let r = attrs_text(a.drop_first());
        assert(attrs_text(a) == it + r);
        assert((it + r)[0] == it[0]);
        if r.len() > 0 {
            assert((it + r).last() == r.last());
        } else {
            assert(it + r =~= it);
        }
    }
}

/// A serialized attribute list parses back to itself.
proof fn lemma_attrs_round_trip(a: Seq<(Seq<char>, Seq<char>)>)
    requires
        attrs_ok(a),
    ensures
        parse_attrs_spec(trim(attrs_text(a))) == Some(a),
    decreases a.len(),
{
    lemma_attrs_text_shape(a);
    if a.len() == 0 {
        assert(trim(attrs_text(a)) =~= Seq::<char>::empty());
        assert(a =~= Seq::<(Seq<char>, Seq<char>)>::empty());
    } else {
        let (k, v) = a[0];
        assert(attr_ok(a[0]));
        let tail = a.drop_first();
        assert(attrs_ok(tail)) by {
            assert forall|i: int| 0 <= i < tail.len() implies attr_ok(#[trigger] tail[i]) by {
                assert(tail[i] == a[i + 1]);
            }
        }
        lemma_attrs_round_trip(tail);
        lemma_attrs_text_shape(tail);
        let r = attrs_text(tail);
        let full = attrs_text(a);
        assert(full == attr_item(a[0]) + r);
        // trimming drops the leading space only
        assert(trim_end(full) == full) by {
            assert(!is_ws(full.last()));
        }
        let s = k + seq!['=', '"'] + v + seq!['"'] + r;
        assert(full.drop_first() =~= s);
        assert(is_key_char(k[0]));
        assert(s[0] == k[0]);
        assert(trim_start(full) == trim_start(full.drop_first()));
        assert(trim_start(s) == s);
        assert(trim(full) == s);
        // the first `="` ends the key
        assert forall|j: int| 0 <= j < k.len() implies !#[trigger] pair_at(s, j, '=', '"') by {
            assert(s[j] == k[j]);
            assert(is_key_char(k[j]));
        }
        assert(pair_at(s, k.len() as int, '=', '"'));
        assert(first_pair(s, k.len() as int, '=', '"'));
        lemma_find_pair_is(s, k.len() as int, '=', '"');
        assert(s.subrange(0, k.len() as int) =~= k);
        lemma_key_no_ws(k);
        let rest = s.subrange(k.len() as int + 2, s.len() as int);
        assert(rest =~= v + seq!['"'] + r);
        assert forall|j: int| 0 <= j < v.len() implies rest[j] != '"' by {
            assert(rest[j] == v[j]);
            if v[j] == '"' {
                assert(v.contains('"'));
            }
        }
        assert(first_char(rest, v.len() as int, '"'));
        lemma_find_char_is(rest, v.len() as int, '"');
        assert(rest.subrange(0, v.len() as int) =~= v);
        assert(rest.subrange(v.len() as int + 1, rest.len() as int) =~= r);
        assert(trim(r) == trim_start(r)) by {
            if r.len() > 0 {
                assert(!is_ws(r.last()));
            }
        }
        assert(seq![(k, v)] + tail =~= a);
    }
}

proof fn lemma_name_len_concat(x: Seq<char>, y: Seq<char>)
    requires
        all_name_chars(x),
    ensures
        name_len(x + y) == x.len() + name_len(y),
    decreases x.len(),
{
    if x.len() > 0 {
        assert((x + y)[0] == x[0]);
        assert(is_lower_or_digit(x[0]));
        assert((x + y).drop_first() =~= x.drop_first() + y);
        assert(all_name_chars(x.drop_first())) by {
            assert forall|i: int| 0 <= i < x.drop_first().len() implies is_lower_or_digit(
                #[trigger] x.drop_first()[i],
            ) by {
                assert(x.drop_first()[i] == x[i + 1]);
            }
        }
        lemma_name_len_concat(x.drop_first(), y);
    } else {
        assert(x + y =~= y);
    }
}

/// The opener line of a serialized block is recognized as that opener.
pub proof fn lemma_opener_line(t: Seq<char>, a: Seq<(Seq<char>, Seq<char>)>)
    requires
        valid_tag(t),
        attrs_ok(a),
    ensures
        marker_spec(seq!['<'] + t + attrs_text(a) + seq!['>']) == Some(
            MarkerV::Open { name: t, attrs: a },
        ),
{
    let o = seq!['<'] + t + attrs_text(a) + seq!['>'];
    assert(trim_end(o) == o) by {
        assert(o.last() == '>');
    }
    assert(o[1] == t[0]);
    assert(t[0] == 's') by {
        assert(t.subrange(0, 3)[0] == t[0]);
    }
    assert(!starts_with(o, close_prefix())) by {
        assert(close_prefix()[1] == '/');
        if starts_with(o, close_prefix()) {
            assert(o.subrange(0, 5)[1] == o[1]);
        }
    }
    assert(o.subrange(0, 4) =~= open_prefix()) by {
        assert(t.subrange(0, 3) == sv_dash());
        assert(o[2] == t[1]);
        assert(o[3] == t[2]);
        assert(t.subrange(0, 3)[1] == t[1]);
        assert(t.subrange(0, 3)[2] == t[2]);
    }
    let n = t.subrange(3, t.len() as int);
    let at = attrs_text(a);
    let rest = o.subrange(4, o.len() - 1);
    assert(rest =~= n + at);
    lemma_name_len_concat(n, at);
    lemma_attrs_text_shape(a);
    assert(name_len(at) == 0) by {
        if at.len() > 0 {
            assert(at[0] == ' ');
        }
    }
    assert(rest.subrange(n.len() as int, rest.len() as int) =~= at);
    assert(rest.subrange(0, n.len() as int) =~= n);
    lemma_attrs_round_trip(a);
    assert(sv_dash() + n =~= t);
    if n.len() < rest.len() {
        assert(rest[n.len() as int] == at[0]);
    }
}

/// The closer line of a serialized block is recognized as its closer.
pub proof fn lemma_closer_line(t: Seq<char>)
    requires
        valid_tag(t),
    ensures
        marker_spec(seq!['<', '/'] + t + seq!['>']) == Some(MarkerV::Close { name: t }),
{
    let c = seq!['<', '/'] + t + seq!['>'];
    assert(trim_end(c) == c) by {
        assert(c.last() == '>');
    }
    assert(c.subrange(0, 5) =~= close_prefix()) by {
        assert(t.subrange(0, 3) == sv_dash());
        assert(t.subrange(0, 3)[0] == t[0]);
        assert(t.subrange(0, 3)[1] == t[1]);
        assert(t.subrange(0, 3)[2] == t[2]);
    }
    let n = t.subrange(3, t.len() as int);
    let rest = c.subrange(5, c.len() as int);
    assert(rest =~= n.push('>'));
    assert(rest.drop_last() =~= n);
    assert(sv_dash() + n =~= t);
}

/// A line that is no tag at all.
proof fn lemma_empty_line_no_marker()
    ensures
        marker_spec(Seq::<char>::empty()) is None,
{
    assert(trim_end(Seq::<char>::empty()) =~= Seq::<char>::empty());
}

/// A line a block of type `t` keeps as body text: no tag at all, or the
/// closer of some other type.
pub open spec fn body_line_ok(l: Seq<char>, t: Seq<char>) -> bool {
    marker_spec(l) is None || (marker_spec(l) matches Some(MarkerV::Close { name }) && name != t)
}

/// While the body lines of a block are read, the block stays open and
/// collects them verbatim.
proof fn lemma_scan_body(
    t: Seq<char>,
    a: Seq<(Seq<char>, Seq<char>)>,
    o: Seq<char>,
    lb: Seq<Seq<char>>,
    k: int,
)
    requires
        valid_tag(t),
        marker_spec(o) == Some(MarkerV::Open { name: t, attrs: a }),
        t != "sv-page"@,
        0 <= k <= lb.len(),
        forall|i: int| 0 <= i < lb.len() ==> body_line_ok(#[trigger] lb[i], t),
    ensures
        scan_fold(seq![o] + lb.take(k)) == (ScanV {
            page: scan_init().page,
            seen_page_tag: false,
            open: Some(
                OpenV { name: t, attrs: a, body: lb.take(k), warnings: Seq::empty(), start: 0 },
            ),
            stray: None,
        }),
    decreases k,
{
    if k == 0 {
        assert(seq![o] + lb.take(0) =~= seq![o]);
        assert(seq![o].drop_last() =~= Seq::<Seq<char>>::empty());
        assert(lb.take(0) =~= Seq::<Seq<char>>::empty());
        assert(scan_fold(Seq::<Seq<char>>::empty()) == scan_init());
        assert(seq![o].last() == o);
        assert(scan_fold(seq![o]) == step_spec(scan_init(), 0, o));
    } else {
        lemma_scan_body(t, a, o, lb, k - 1);
        let ls = seq![o] + lb.take(k);
        assert(ls.drop_last() =~= seq![o] + lb.take(k - 1));
        assert(ls.last() == lb[k - 1]);
        assert(lb.take(k - 1).push(lb[k - 1]) =~= lb.take(k));
        assert(body_line_ok(lb[k - 1], t));
        assert(scan_fold(ls) == step_spec(scan_fold(ls.drop_last()), (ls.len() - 1) as nat, ls.last()));
    }
}

/// The lines of a serialized block, as `str::lines` reads them: its opener,
/// then its body's lines (which join back to the body, less the one
/// trailing newline the serializer drops), then its closer, which no newline
/// ends.
pub proof fn lemma_block_text_lines(
    t: Seq<char>,
    a: Seq<(Seq<char>, Seq<char>)>,
    body: Seq<char>,
) -> (lb: Seq<Seq<char>>)
    requires
        valid_tag(t),
        attrs_ok(a),
        !body.contains('\r'),
    ensures
        lines_acc(block_text_spec(t, a, body)) == (
            seq![seq!['<'] + t + attrs_text(a) + seq!['>']] + lb,
            seq!['<', '/'] + t + seq!['>'],
        ),
        join_lines(lb) == strip_nl(body),
        (forall|i: int| 0 <= i < lines(body).len() ==> marker_spec(#[trigger] lines(body)[i]) is None)
            ==> (forall|i: int| 0 <= i < lb.len() ==> marker_spec(#[trigger] lb[i]) is None),
        forall|i: int| 0 <= i < lb.len() ==> !(#[trigger] lb[i]).contains('\n') && !lb[i].contains('\r'),
        (forall|i: int| 0 <= i < lines(body).len() ==> body_line_ok(#[trigger] lines(body)[i], t))
            ==> (forall|i: int| 0 <= i < lb.len() ==> body_line_ok(#[trigger] lb[i], t)),
{
    let o = seq!['<'] + t + attrs_text(a) + seq!['>'];
    let bp = strip_nl(body);
    let m = bp.push('\n');
    let c = seq!['<', '/'] + t + seq!['>'];
    let text = block_text_spec(t, a, body);
    assert(text =~= o.push('\n') + m + c);
    assert(!bp.contains('\r')) by {
        if bp.contains('\r') {
            let j = choose|j: int| 0 <= j < bp.len() && bp[j] == '\r';
            assert(body[j] == '\r');
        }
    }
    lemma_tag_no_nl(t);
    lemma_attrs_text_no_nl(a);
    assert(!o.contains('\n')) by {
        if o.contains('\n') {
            let j = choose|j: int| 0 <= j < o.len() && o[j] == '\n';
            if j == 0 || j == o.len() - 1 {
            } else if j <= t.len() {
                assert(o[j] == t[j - 1]);
            } else {
                assert(o[j] == attrs_text(a)[j - 1 - t.len()]);
            }
        }
    }
    assert(!c.contains('\n')) by {
        if c.contains('\n') {
            let j = choose|j: int| 0 <= j < c.len() && c[j] == '\n';
            if j >= 2 && j < c.len() - 1 {
                assert(c[j] == t[j - 2]);
            }
        }
    }
    lemma_lines_acc_no_nl(o);
    assert(o.push('\n').drop_last() =~= o);
    assert(strip_cr(o) == o);
    assert(lines_acc(o.push('\n')) == (seq![o], Seq::<char>::empty()));
    lemma_join_lines_acc(bp);
    let (bd, bc) = lines_acc(bp);
    assert(m.drop_last() =~= bp);
    assert(strip_cr(bc) == bc) by {
        if bc.len() > 0 {
            assert(bc[bc.len() - 1] == bc.last());
        }
    }
    let lb = bd.push(bc);
    crate::text::lemma_lines_acc_chars(bp, '\n');
    crate::text::lemma_lines_acc_chars(bp, '\r');
    assert forall|i: int| 0 <= i < lb.len() implies !(#[trigger] lb[i]).contains('\n') && !lb[i].contains('\r') by {
        if i < bd.len() {
            assert(lb[i] == bd[i]);
        }
    }
    assert(lines_acc(m) == (lb, Seq::<char>::empty()));
    lemma_lines_acc_append(o.push('\n'), m);
    lemma_lines_acc_no_nl(c);
    lemma_lines_acc_append(o.push('\n') + m, c);
    assert(lines_acc(text) == (seq![o] + lb + Seq::<Seq<char>>::empty(), c));
    assert(seq![o] + lb + Seq::<Seq<char>>::empty() =~= seq![o] + lb);
    assert(join_lines(lb) == bp);
    if forall|i: int| 0 <= i < lines(body).len() ==> marker_spec(#[trigger] lines(body)[i]) is None {
        assert forall|i: int| 0 <= i < lb.len() implies marker_spec(#[trigger] lb[i]) is None by {
            if body.len() > 0 && body.last() == '\n' {
                assert(body == m);
                assert(lines_acc(body) == (lb, Seq::<char>::empty()));
                assert(lines(body) == lb);
            } else {
                assert(body == bp);
                if i < bd.len() {
                    assert(lines(body)[i] == bd[i]);
                } else if bc.len() > 0 {
                    assert(lines(body) == lb);
                } else {
                    assert(lb[i] =~= Seq::<char>::empty());
                    lemma_empty_line_no_marker();
                }
            }
        }
    }
    if forall|i: int| 0 <= i < lines(body).len() ==> body_line_ok(#[trigger] lines(body)[i], t) {
        assert forall|i: int| 0 <= i < lb.len() implies body_line_ok(#[trigger] lb[i], t) by {
            if body.len() > 0 && body.last() == '\n' {
                assert(body == m);
                assert(lines_acc(body) == (lb, Seq::<char>::empty()));
                assert(lines(body) == lb);
            } else {
                assert(body == bp);
                if i < bd.len() {
                    assert(lines(body)[i] == bd[i]);
                } else if bc.len() > 0 {
                    assert(lines(body) == lb);
                } else {
                    assert(lb[i] =~= Seq::<char>::empty());
                    lemma_empty_line_no_marker();
                }
            }
        }
    }
    lb
}

/// Serializing a block and parsing the result gives the block back: its
/// type, its attributes, its body (less the one trailing newline the
/// serializer drops), no warnings, and nothing else in the page. No body
/// line may be an opener or the block's own closer (indent such a line by a
/// space); closers of other types are body text like any other. The body
/// holds no carriage return, the type is an `sv-` name other than
/// `sv-page`, and every attribute is one the grammar can hold.
pub proof fn lemma_block_text_round_trips(
    t: Seq<char>,
    a: Seq<(Seq<char>, Seq<char>)>,
    body: Seq<char>,
)
    requires
        valid_tag(t),
        t != "sv-page"@,
        attrs_ok(a),
        !body.contains('\r'),
        forall|i: int| 0 <= i < lines(body).len() ==> body_line_ok(#[trigger] lines(body)[i], t),
    ensures
        parse_spec(block_text_spec(t, a, body)).props.len() == 0,
        parse_spec(block_text_spec(t, a, body)).warnings.len() == 0,
        parse_spec(block_text_spec(t, a, body)).blocks.len() == 1,
        parse_spec(block_text_spec(t, a, body)).blocks[0].tag_name == t,
        parse_spec(block_text_spec(t, a, body)).blocks[0].attrs == a,
        parse_spec(block_text_spec(t, a, body)).blocks[0].body == strip_nl(body),
        parse_spec(block_text_spec(t, a, body)).blocks[0].warnings.len() == 0,
        parse_spec(block_text_spec(t, a, body)).blocks[0].lines.0 == 0,
{
    let o = seq!['<'] + t + attrs_text(a) + seq!['>'];
    let c = seq!['<', '/'] + t + seq!['>'];
    let text = block_text_spec(t, a, body);
    let lb = lemma_block_text_lines(t, a, body);
    let ls = (seq![o] + lb).push(c);
    assert(lines(text) == ls);
    lemma_opener_line(t, a);
    lemma_closer_line(t);
    lemma_scan_body(t, a, o, lb, lb.len() as int);
    assert(lb.take(lb.len() as int) =~= lb);
    assert(ls.drop_last() =~= seq![o] + lb);
    assert(ls.len() == lb.len() + 2);
}

pub(crate) proof fn lemma_tag_no_nl(t: Seq<char>)
    requires
        valid_tag(t),
    ensures
        !t.contains('\n'),
{
    if t.contains('\n') {
        let j = choose|j: int| 0 <= j < t.len() && t[j] == '\n';
        if j < 3 {
            assert(t.subrange(0, 3)[j] == t[j]);
        } else {
            assert(t.subrange(3, t.len() as int)[j - 3] == t[j]);
        }
    }
}

proof fn lemma_attrs_text_no_nl(a: Seq<(Seq<char>, Seq<char>)>)
    requires
        attrs_ok(a),
    ensures
        !attrs_text(a).contains('\n'),
    decreases a.len(),
{
    if a.len() > 0 {
        let tail = a.drop_first();
        assert(attrs_ok(tail)) by {
            assert forall|i: int| 0 <= i < tail.len() implies attr_ok(#[trigger] tail[i]) by {
                assert(tail[i] == a[i + 1]);
            }
        }
        lemma_attrs_text_no_nl(tail);
        assert(attr_ok(a[0]));
        let (k, v) = a[0];
        let it = attr_item(a[0]);
        let full = it + attrs_text(tail);
        if full.contains('\n') {
            let j = choose|j: int| 0 <= j < full.len() && full[j] == '\n';
            if j >= it.len() {
                assert(full[j] == attrs_text(tail)[j - it.len()]);
            } else if j >= 1 && j < 1 + k.len() {
                assert(it[j] == k[j - 1]);
                assert(is_key_char(k[j - 1]));
            } else if j >= 3 + k.len() && j < 3 + k.len() + v.len() {
                assert(it[j] == v[j - 3 - k.len()]);
            }
        }
    }
}


/// Every block's range lies within the lines scanned so far; open and stray
/// regions began on an earlier line.
pub open spec fn ranges_within(st: ScanV, n: nat) -> bool {
    &&& forall|j: int|
        0 <= j < st.page.blocks.len() ==> (#[trigger] st.page.blocks[j]).lines.0
            <= st.page.blocks[j].lines.1 <= n
    &&& (match st.open {
        Some(o) => o.start < n,
        None => true,
    })
    &&& (match st.stray {
        Some((_, s)) => s < n,
        None => true,
    })
}

proof fn lemma_step_ranges(st: ScanV, i: nat, raw: Seq<char>)
    requires
        ranges_within(st, i),
    ensures
        ranges_within(step_spec(st, i, raw), i + 1),
{
    let r = step_spec(st, i, raw);
    assert forall|j: int| 0 <= j < r.page.blocks.len() implies (#[trigger] r.page.blocks[j]).lines.0
        <= r.page.blocks[j].lines.1 <= i + 1 by {
        if j < st.page.blocks.len() {
        }
    }
}

proof fn lemma_fold_ranges(ls: Seq<Seq<char>>)
    ensures
        ranges_within(scan_fold(ls), ls.len()),
    decreases ls.len(),
{
    if ls.len() > 0 {
        lemma_fold_ranges(ls.drop_last());
        lemma_step_ranges(scan_fold(ls.drop_last()), (ls.len() - 1) as nat, ls.last());
    }
}

/// Line ranges support splicing: every parsed block's `lines` is a
/// half-open range `(start, end)` with `start <= end <=` the number of lines
/// in the source.
pub proof fn lemma_parse_ranges(source: Seq<char>)
    ensures
        forall|j: int|
            0 <= j < parse_spec(source).blocks.len() ==> (#[trigger] parse_spec(
                source,
            ).blocks[j]).lines.0 <= parse_spec(source).blocks[j].lines.1 <= lines(source).len(),
{
    let ls = lines(source);
    lemma_fold_ranges(ls);
    let st = scan_fold(ls);
    let n = ls.len();
    let st1 = match st.open {
        Some(o) => warn_open(st, never_closed_eof(o.start)),
        None => st,
    };
    let st2 = finish_spec(st1, n);
    let st3 = flush_spec(st2, n);
    assert(ranges_within(st1, n));
    assert(ranges_within(st2, n)) by {
        assert forall|j: int| 0 <= j < st2.page.blocks.len() implies (#[trigger] st2.page.blocks[j]).lines.0
            <= st2.page.blocks[j].lines.1 <= n by {
            if j < st1.page.blocks.len() {
            }
        }
    }
    assert forall|j: int| 0 <= j < st3.page.blocks.len() implies (#[trigger] st3.page.blocks[j]).lines.0
        <= st3.page.blocks[j].lines.1 <= n by {
        if j < st2.page.blocks.len() {
        }
    }
}

proof fn lemma_sub_lacks(s: Seq<char>, i: int, j: int, ch: char)
    requires
        0 <= i <= j <= s.len(),
        !s.contains(ch),
    ensures
        !s.subrange(i, j).contains(ch),
{
    if s.subrange(i, j).contains(ch) {
        let w = choose|w: int| 0 <= w < s.subrange(i, j).len() && s.subrange(i, j)[w] == ch;
        assert(s[i + w] == ch);
    }
}

proof fn lemma_trim_lacks(s: Seq<char>, ch: char)
    requires
        !s.contains(ch),
    ensures
        !trim_end(s).contains(ch),
        !trim_start(s).contains(ch),
        !trim(s).contains(ch),
{
    lemma_trim_end_prefix(s);
    lemma_sub_lacks(s, 0, trim_end(s).len() as int, ch);
    lemma_trim_start_suffix(s);
    lemma_sub_lacks(s, s.len() - trim_start(s).len(), s.len() as int, ch);
    let e = trim_end(s);
    lemma_trim_start_suffix(e);
    lemma_sub_lacks(e, e.len() - trim_start(e).len(), e.len() as int, ch);
}

/// Parsed attributes are attributes the grammar can hold, where the text
/// they came from has no newline.
proof fn lemma_parsed_attrs_ok(s: Seq<char>)
    requires
        !s.contains('\n'),
        parse_attrs_spec(s) is Some,
    ensures
        attrs_ok(parse_attrs_spec(s)->0),
    decreases s.len(),
{
    if s.len() > 0 {
        let eq = find_pair(s, '=', '"');
        let key = trim(s.subrange(0, eq));
        let rest = s.subrange(eq + 2, s.len() as int);
        let close = find_char(rest, '"');
        let tailtext = rest.subrange(close + 1, rest.len() as int);
        let next = trim_start(tailtext);
        lemma_trim_start_suffix(tailtext);
        lemma_sub_lacks(s, eq + 2, s.len() as int, '\n');
        lemma_sub_lacks(rest, close + 1, rest.len() as int, '\n');
        lemma_trim_lacks(tailtext, '\n');
        lemma_parsed_attrs_ok(next);
        let v = rest.subrange(0, close);
        assert(first_char(rest, close, '"'));
        lemma_sub_lacks(rest, 0, close, '\n');
        assert(!v.contains('"')) by {
            if v.contains('"') {
                let w = choose|w: int| 0 <= w < v.len() && v[w] == '"';
                assert(rest[w] == '"');
            }
        }
        let tail = parse_attrs_spec(next)->0;
        let a = seq![(key, v)] + tail;
        assert(a[0] == (key, v));
        assert forall|i: int| 0 <= i < a.len() implies attr_ok(#[trigger] a[i]) by {
            if i > 0 {
                assert(a[i] == tail[i - 1]);
            }
        }
    }
}

proof fn lemma_name_len_within(s: Seq<char>)
    ensures
        name_len(s) <= s.len(),
    decreases s.len(),
{
    if s.len() > 0 && is_lower_or_digit(s[0]) {
        lemma_name_len_within(s.drop_first());
    }
}

/// An opener line's attributes are attributes the grammar can hold.
pub proof fn lemma_opener_attrs_ok(line: Seq<char>)
    requires
        !line.contains('\n'),
        marker_spec(line) matches Some(MarkerV::Open { .. }),
    ensures
        attrs_ok(marker_spec(line)->0->attrs),
{
    let t = trim_end(line);
    lemma_trim_lacks(line, '\n');
    let rest = t.subrange(4, t.len() - 1);
    lemma_sub_lacks(t, 4, t.len() - 1, '\n');
    let k = name_len(rest);
    lemma_name_len_within(rest);
    let inner = rest.subrange(k as int, rest.len() as int);
    lemma_sub_lacks(rest, k as int, rest.len() as int, '\n');
    lemma_trim_lacks(inner, '\n');
    lemma_parsed_attrs_ok(trim(inner));
}

/// An opener line of a serialized block holds no newline.
pub(crate) proof fn lemma_opener_no_nl(t: Seq<char>, a: Seq<(Seq<char>, Seq<char>)>)
    requires
        valid_tag(t),
        attrs_ok(a),
    ensures
        !(seq!['<'] + t + attrs_text(a) + seq!['>']).contains('\n'),
{
    let o = seq!['<'] + t + attrs_text(a) + seq!['>'];
    lemma_tag_no_nl(t);
    lemma_attrs_text_no_nl(a);
    if o.contains('\n') {
        let j = choose|j: int| 0 <= j < o.len() && o[j] == '\n';
        if j == 0 || j == o.len() - 1 {
        } else if j <= t.len() {
            assert(o[j] == t[j - 1]);
        } else {
            assert(o[j] == attrs_text(a)[j - 1 - t.len()]);
        }
    }
}

/// A page tag the grammar reads is a line that looks like a page tag; and a
/// line that looks like one is one, when it is a tag at all.
pub proof fn lemma_page_line_marker(l: Seq<char>)
    ensures
        (marker_spec(l) matches Some(MarkerV::Open { name, .. }) && name == "sv-page"@)
            ==> crate::edit::is_page_line(l),
        crate::edit::is_page_line(l) && marker_spec(l) is Some ==> (marker_spec(l) matches Some(
            MarkerV::Open { name, .. },
        ) && name == "sv-page"@),
{
    reveal_strlit("sv-page");
    reveal_strlit("<sv-page>");
    reveal_strlit("<sv-page ");
    let t = trim_end(l);
    let pg = seq!['p', 'a', 'g', 'e'];
    assert(sv_dash() + pg =~= "sv-page"@);
    if t.len() >= 5 && starts_with(t, open_prefix()) && t.last() == '>' && !starts_with(t, close_prefix()) {
        let rest = t.subrange(4, t.len() - 1);
        let k = name_len(rest);
        lemma_name_len_within(rest);
        if marker_spec(l) matches Some(MarkerV::Open { name, .. }) && name == "sv-page"@ {
            assert(sv_dash() + rest.subrange(0, k as int) == "sv-page"@);
            assert(rest.subrange(0, k as int) =~= pg) by {
                assert((sv_dash() + rest.subrange(0, k as int)).subrange(3, 7) =~= rest.subrange(0, k as int));
            }
            if k == rest.len() {
                assert(t =~= "<sv-page>"@) by {
                    assert(t.subrange(0, 4) == open_prefix());
                    assert forall|j: int| 0 <= j < t.len() implies t[j] == "<sv-page>"@[j] by {
                        if j < 4 {
                            assert(t[j] == t.subrange(0, 4)[j]);
                        } else if j < t.len() - 1 {
                            assert(t[j] == rest[j - 4]);
                            assert(rest[j - 4] == rest.subrange(0, k as int)[j - 4]);
                        }
                    }
                }
            } else {
                assert(rest[k as int] == ' ');
                assert(t.subrange(0, 9) =~= "<sv-page "@) by {
                    assert(t.subrange(0, 4) == open_prefix());
                    assert forall|j: int| 0 <= j < 9 implies t[j] == "<sv-page "@[j] by {
                        if j < 4 {
                            assert(t[j] == t.subrange(0, 4)[j]);
                        } else {
                            assert(t[j] == rest[j - 4]);
                            if j < 8 {
                                assert(rest[j - 4] == rest.subrange(0, k as int)[j - 4]);
                            }
                        }
                    }
                }
            }
        }
        if crate::edit::is_page_line(l) {
            assert(rest.subrange(0, 4) =~= pg) by {
                assert forall|j: int| 0 <= j < 4 implies rest[j] == pg[j] by {
                    assert(rest[j] == t[j + 4]);
                    if t == "<sv-page>"@ {
                    } else {
                        assert(t[j + 4] == t.subrange(0, 9)[j + 4]);
                    }
                }
            }
            let r2 = rest.subrange(4, rest.len() as int);
            assert(rest =~= pg + r2);
            assert(all_name_chars(pg));
            lemma_name_len_concat(pg, r2);
            assert(name_len(r2) == 0) by {
                if r2.len() > 0 {
                    assert(t != "<sv-page>"@);
                    assert(r2[0] == t[8]);
                    assert(t[8] == t.subrange(0, 9)[8]);
                }
            }
            assert(rest.subrange(0, 4) =~= pg);
        }
    } else {
        if crate::edit::is_page_line(l) {
            assert(t.len() >= 5) by {
                if t != "<sv-page>"@ {
                    assert(t.subrange(0, 9) == "<sv-page "@);
                }
            }
            assert(starts_with(t, open_prefix())) by {
                if t == "<sv-page>"@ {
                    assert(t.subrange(0, 4) =~= open_prefix());
                } else {
                    assert(t.subrange(0, 4) =~= t.subrange(0, 9).subrange(0, 4));
                    assert(t.subrange(0, 4) =~= open_prefix());
                }
            }
            assert(!starts_with(t, close_prefix())) by {
                assert(t[1] == 's') by {
                    if t != "<sv-page>"@ {
                        assert(t[1] == t.subrange(0, 9)[1]);
                    }
                }
                if starts_with(t, close_prefix()) {
                    assert(t[1] == t.subrange(0, 5)[1]);
                }
            }
        }
    }
}

/// Where the last block ends (0 before any block).
pub open spec fn last_end(st: ScanV) -> nat {
    if st.page.blocks.len() == 0 { 0 } else { st.page.blocks.last().lines.1 }
}

/// Every block's range is nonempty and lies within the lines scanned so
/// far, blocks come in source order without overlapping, and what is open
/// or stray began after the last block.
#[verifier::opaque]
pub open spec fn ranges_ordered(st: ScanV, n: nat) -> bool {
    &&& forall|j: int|
        0 <= j < st.page.blocks.len() ==> (#[trigger] st.page.blocks[j]).lines.0
            < st.page.blocks[j].lines.1 <= n
    &&& forall|j: int|
        0 <= j < st.page.blocks.len() - 1 ==> (#[trigger] st.page.blocks[j]).lines.1
            <= st.page.blocks[j + 1].lines.0
    &&& last_end(st) <= n
    &&& (st.open matches Some(o) ==> last_end(st) <= o.start < n)
    &&& (st.stray matches Some((_, s)) ==> last_end(st) <= s < n)
    &&& !(st.open is Some && st.stray is Some)
}

proof fn lemma_ro_facts(st: ScanV, n: nat)
    requires
        ranges_ordered(st, n),
    ensures
        last_end(st) <= n,
        st.open matches Some(o) ==> last_end(st) <= o.start < n,
        st.stray matches Some((_, s)) ==> last_end(st) <= s < n,
        !(st.open is Some && st.stray is Some),
{
    reveal(ranges_ordered);
}

/// Same blocks, and what is open or stray began after the last of them.
proof fn lemma_ro_transfer(a: ScanV, b: ScanV, n: nat)
    requires
        ranges_ordered(a, n),
        b.page.blocks == a.page.blocks,
        b.open matches Some(o) ==> last_end(a) <= o.start < n,
        b.stray matches Some((_, s)) ==> last_end(a) <= s < n,
        !(b.open is Some && b.stray is Some),
    ensures
        ranges_ordered(b, n),
{
    reveal(ranges_ordered);
}

proof fn lemma_widen(st: ScanV, n: nat)
    requires
        ranges_ordered(st, n),
    ensures
        ranges_ordered(st, n + 1),
{
    reveal(ranges_ordered);
}

proof fn lemma_push_ordered(st: ScanV, n: nat, b: crate::format::BlockV, r: ScanV)
    requires
        ranges_ordered(st, n),
        last_end(st) <= b.lines.0 < b.lines.1 <= n,
        r.page.blocks == st.page.blocks.push(b),
        r.open is None,
        r.stray is None,
    ensures
        ranges_ordered(r, n),
        last_end(r) == b.lines.1,
{
    reveal(ranges_ordered);
    let bs = st.page.blocks.push(b);
    assert forall|j: int| 0 <= j < bs.len() - 1 implies (#[trigger] bs[j]).lines.1 <= bs[j + 1].lines.0 by {
        if j < bs.len() - 2 {
            assert(bs[j] == st.page.blocks[j]);
            assert(bs[j + 1] == st.page.blocks[j + 1]);
        } else {
            assert(bs[j] == st.page.blocks.last());
        }
    }
    assert forall|j: int| 0 <= j < bs.len() implies (#[trigger] bs[j]).lines.0 < bs[j].lines.1 <= n by {
        if j < st.page.blocks.len() {
            assert(bs[j] == st.page.blocks[j]);
        }
    }
}

proof fn lemma_finish_ordered(st: ScanV, n: nat, end: nat)
    requires
        ranges_ordered(st, n),
        st.open matches Some(o) ==> o.start < end <= n,
    ensures
        ranges_ordered(finish_spec(st, end), n),
        st.open is Some ==> last_end(finish_spec(st, end)) == end,
        st.open is None ==> finish_spec(st, end) == st,
        finish_spec(st, end).open is None,
        finish_spec(st, end).stray == st.stray,
{
    lemma_ro_facts(st, n);
    if st.open is Some {
        let o = st.open->0;
        let b = crate::format::BlockV {
            tag_name: o.name,
            attrs: o.attrs,
            body: join_lines(o.body),
            warnings: o.warnings,
            lines: (o.start, end),
        };
        lemma_push_ordered(st, n, b, finish_spec(st, end));
    }
}

proof fn lemma_flush_ordered(st: ScanV, n: nat, end: nat)
    requires
        ranges_ordered(st, n),
        st.stray matches Some((_, s)) ==> s < end <= n,
    ensures
        ranges_ordered(flush_spec(st, end), n),
        st.stray is Some ==> last_end(flush_spec(st, end)) == end,
        st.stray is None ==> flush_spec(st, end) == st,
        flush_spec(st, end).stray is None,
        flush_spec(st, end).open == st.open,
{
    lemma_ro_facts(st, n);
    if st.stray is Some {
        let (ls, s) = st.stray->0;
        let b = crate::format::BlockV {
            tag_name: "sv-stray"@,
            attrs: Seq::empty(),
            body: join_lines(ls),
            warnings: seq![crate::format::stray_content(s, end)],
            lines: (s, end),
        };
        lemma_push_ordered(st, n, b, flush_spec(st, end));
    }
}

proof fn lemma_open_ordered(st: ScanV, i: nat, name: Seq<char>)
    requires
        ranges_ordered(st, i),
    ensures
        ({
            let st1 = match st.open {
                Some(o) => finish_spec(warn_open(st, crate::format::never_closed_at(o.start, i, name)), i),
                None => st,
            };
            let st2 = flush_spec(st1, i);
            &&& ranges_ordered(st2, i + 1)
            &&& last_end(st2) <= i
            &&& st2.open is None
            &&& st2.stray is None
        }),
{
    let m = i + 1;
    lemma_widen(st, i);
    lemma_ro_facts(st, i);
    let st1 = match st.open {
        Some(o) => finish_spec(warn_open(st, crate::format::never_closed_at(o.start, i, name)), i),
        None => st,
    };
    if st.open is Some {
        let w = warn_open(st, crate::format::never_closed_at(st.open->0.start, i, name));
        lemma_ro_transfer(st, w, m);
        lemma_finish_ordered(w, m, i);
    }
    lemma_ro_facts(st1, m);
    assert(last_end(st1) <= i);
    lemma_flush_ordered(st1, m, i);
}

proof fn lemma_step_ordered_open(st: ScanV, i: nat, raw: Seq<char>)
    requires
        ranges_ordered(st, i),
        marker_spec(raw) matches Some(MarkerV::Open { .. }),
    ensures
        ranges_ordered(step_spec(st, i, raw), i + 1),
{
    let name = marker_spec(raw)->0->Open_name;
    lemma_open_ordered(st, i, name);
    let st1 = match st.open {
        Some(o) => finish_spec(warn_open(st, crate::format::never_closed_at(o.start, i, name)), i),
        None => st,
    };
    let st2 = flush_spec(st1, i);
    lemma_ro_transfer(st2, step_spec(st, i, raw), i + 1);
}

proof fn lemma_step_ordered_close(st: ScanV, i: nat, raw: Seq<char>)
    requires
        ranges_ordered(st, i),
        marker_spec(raw) matches Some(MarkerV::Close { .. }),
    ensures
        ranges_ordered(step_spec(st, i, raw), i + 1),
{
    let m = i + 1;
    lemma_widen(st, i);
    lemma_ro_facts(st, m);
    let name = marker_spec(raw)->0->Close_name;
    if st.open is Some && st.open->0.name == name {
        lemma_finish_ordered(st, m, m);
    } else {
        lemma_ro_transfer(st, step_spec(st, i, raw), m);
    }
}

proof fn lemma_step_ordered_plain(st: ScanV, i: nat, raw: Seq<char>)
    requires
        ranges_ordered(st, i),
        marker_spec(raw) is None,
    ensures
        ranges_ordered(step_spec(st, i, raw), i + 1),
{
    let m = i + 1;
    lemma_widen(st, i);
    lemma_ro_facts(st, i);
    if st.open is None && crate::format::is_quiet(raw) {
        lemma_flush_ordered(st, m, i);
    } else {
        lemma_ro_transfer(st, step_spec(st, i, raw), m);
    }
}

proof fn lemma_step_ordered(st: ScanV, i: nat, raw: Seq<char>)
    requires
        ranges_ordered(st, i),
    ensures
        ranges_ordered(step_spec(st, i, raw), i + 1),
{
    match marker_spec(raw) {
        Some(MarkerV::Open { .. }) => lemma_step_ordered_open(st, i, raw),
        Some(MarkerV::Close { .. }) => lemma_step_ordered_close(st, i, raw),
        None => lemma_step_ordered_plain(st, i, raw),
    }
}

proof fn lemma_fold_ordered(ls: Seq<Seq<char>>)
    ensures
        ranges_ordered(scan_fold(ls), ls.len()),
    decreases ls.len(),
{
    if ls.len() > 0 {
        lemma_fold_ordered(ls.drop_last());
        lemma_step_ordered(scan_fold(ls.drop_last()), (ls.len() - 1) as nat, ls.last());
    } else {
        reveal(ranges_ordered);
    }
}

/// Parsed block ranges are nonempty, lie inside the source, and come in
/// source order without overlapping: for every block `k`, `start < end <=`
/// the number of lines, and each block ends no later than the next begins.
pub proof fn lemma_parse_ranges_ordered(source: Seq<char>)
    ensures
        ({
            let p = parse_spec(source);
            &&& forall|k: int|
                0 <= k < p.blocks.len() ==> (#[trigger] p.blocks[k]).lines.0 < p.blocks[k].lines.1
                    <= lines(source).len()
            &&& forall|k: int|
                0 <= k < p.blocks.len() - 1 ==> (#[trigger] p.blocks[k]).lines.1 <= p.blocks[k + 1].lines.0
        }),
{
    let ls = lines(source);
    let n = ls.len();
    lemma_fold_ordered(ls);
    let st = scan_fold(ls);
    lemma_ro_facts(st, n);
    let st1 = match st.open {
        Some(o) => warn_open(st, never_closed_eof(o.start)),
        None => st,
    };
    lemma_ro_transfer(st, st1, n);
    lemma_finish_ordered(st1, n, n);
    let st2 = finish_spec(st1, n);
    lemma_flush_ordered(st2, n, n);
    reveal(ranges_ordered);
}

} // verus!
