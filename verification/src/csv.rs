//! The sv-csv block: the table's default tier. No SQL, no engine — agents
//! always have a tool that emits CSV, so this is only the view: server
//! rendered like every other block. Review-scale by requirement: 2,000 rows
//! is the cap, because past that a human cannot review it anyway.
//!
//! Diffs arrive pre-computed (the agent compares; sideview colors): a
//! `_sv_row` directive column with add/del/mod tints rows, `_sv_mark_<col>`
//! (or sqlnow's `_sqlnow_format_<col>`) tints one cell, and `_sv_*` and
//! `_sqlnow_*` columns are stripped from display.

use vstd::prelude::*;

use crate::format::{attr_lookup, strs_view, Block, BlockV};
use crate::render::{height_style, is_css_length, is_css_length_spec, push_warnings, warnings_html};
use crate::session::opt_str;
use crate::text::{
    chars_of, concat, dec, esc_text, is_digit, parse_unsigned, push_char, push_str,
    push_dec, push_text_escaped, push_usize, starts_with, str_eq, trim, trim_end_pos, trim_start_pos,
};

verus! {

/// The requirement, not a limitation.
pub const MAX_ROWS: usize = 2000;

/// Frozen columns are capped where the stylesheet's rules end.
pub const MAX_FREEZE: usize = 4;

// ---- what the csv crate hands over -------------------------------------------------

pub open spec fn rows_view(v: Seq<Vec<String>>) -> Seq<Seq<Seq<char>>> {
    v.map_values(|r: Vec<String>| strs_view(r@))
}

/// Names what the `csv` crate reads from a text with a flexible reader (ragged
/// rows allowed): the header record and every record after it, each as its
/// fields — or the message of the first error.
pub uninterp spec fn csv_of(text: Seq<char>) -> Result<(Seq<Seq<char>>, Seq<Seq<Seq<char>>>), Seq<char>>;

/// `csv::ReaderBuilder::new().flexible(true).from_reader(..)`: headers, then
/// records, converted field for field, stopping at the first error.
#[verifier::external_body]
fn csv_read(text: &str) -> (r: Result<(Vec<String>, Vec<Vec<String>>), String>)
    ensures
        match (r, csv_of(text@)) {
            (Ok((h, rows)), Ok((h2, rows2))) => strs_view(h@) == h2 && rows_view(rows@) == rows2,
            (Err(e), Err(e2)) => e@ == e2,
            _ => false,
        },
{
    let mut reader = csv::ReaderBuilder::new().flexible(true).from_reader(text.as_bytes());
    let headers = match reader.headers() {
        Ok(h) => h.iter().map(str::to_string).collect(),
        Err(e) => return Err(e.to_string()),
    };
    let mut rows = Vec::new();
    for record in reader.records() {
        match record {
            Ok(r) => rows.push(r.iter().map(str::to_string).collect()),
            Err(e) => return Err(e.to_string()),
        }
    }
    Ok((headers, rows))
}

// ---- numbers: std's f64 grammar ----------------------------------------------------

pub open spec fn ascii_lower(c: char) -> char {
    if 'A' <= c && c <= 'Z' {
        ((c as int) + 32) as char
    } else {
        c
    }
}

/// How many leading ASCII digits `s` has.
pub open spec fn leading_digits(s: Seq<char>) -> nat
    decreases s.len(),
{
    if s.len() > 0 && is_digit(s[0]) {
        1 + leading_digits(s.drop_first())
    } else {
        0
    }
}

/// `e`, an optional sign, and one or more digits (already lowercased).
pub open spec fn is_exponent(y: Seq<char>) -> bool {
    y.len() >= 2 && y[0] == 'e' && {
        let z = if y[1] == '+' || y[1] == '-' {
            y.skip(2)
        } else {
            y.skip(1)
        };
        z.len() > 0 && leading_digits(z) == z.len()
    }
}

/// `Digit+ | Digit+ '.' Digit* | Digit* '.' Digit+`, then an optional
/// exponent.
pub open spec fn is_number(u: Seq<char>) -> bool {
    let d1 = leading_digits(u);
    let after = u.skip(d1 as int);
    let (len, any) = if after.len() > 0 && after[0] == '.' {
        let d2 = leading_digits(after.skip(1));
        (d1 + 1 + d2, d1 + d2 > 0)
    } else {
        (d1, d1 > 0)
    };
    any && (len == u.len() || is_exponent(u.skip(len as int)))
}

/// What `str::parse::<f64>` accepts, per std's documented grammar (the text
/// lowercased): an optional sign, then `inf`, `infinity`, `nan`, or a
/// decimal number with an optional exponent.
pub open spec fn parses_as_f64(s: Seq<char>) -> bool {
    let t = s.map_values(|c: char| ascii_lower(c));
    let u = if t.len() > 0 && (t[0] == '+' || t[0] == '-') {
        t.drop_first()
    } else {
        t
    };
    u == seq!['i', 'n', 'f'] || u == seq!['i', 'n', 'f', 'i', 'n', 'i', 't', 'y'] || u == seq![
        'n',
        'a',
        'n',
    ] || is_number(u)
}

pub fn lower_char(c: char) -> (r: char)
    ensures
        r == ascii_lower(c),
{
    if 'A' <= c && c <= 'Z' {
        ((c as u8) + 32) as char
    } else {
        c
    }
}

fn digits_from(v: &Vec<char>, lo: usize) -> (k: usize)
    requires
        lo <= v.len(),
    ensures
        lo <= k <= v.len(),
        k - lo == leading_digits(v@.skip(lo as int)),
{
    let mut k: usize = lo;
    while k < v.len() && v[k] >= '0' && v[k] <= '9'
        invariant
            lo <= k <= v.len(),
            leading_digits(v@.skip(lo as int)) == (k - lo) + leading_digits(v@.skip(k as int)),
        decreases v.len() - k,
    {
        assert(v@.skip(k as int).drop_first() =~= v@.skip(k + 1));
        k = k + 1;
    }
    k
}

fn lowercased(s: &Vec<char>) -> (t: Vec<char>)
    ensures
        t@ == s@.map_values(|c: char| ascii_lower(c)),
{
    let mut t: Vec<char> = Vec::new();
    let mut i: usize = 0;
    while i < s.len()
        invariant
            i <= s.len(),
            t@ == s@.take(i as int).map_values(|c: char| ascii_lower(c)),
        decreases s.len() - i,
    {
        t.push(lower_char(s[i]));
        i = i + 1;
        assert(t@ =~= s@.take(i as int).map_values(|c: char| ascii_lower(c)));
    }
    assert(s@.take(s.len() as int) =~= s@);
    t
}

fn exponent_at(t: &Vec<char>, end: usize) -> (r: bool)
    requires
        end <= t.len(),
    ensures
        r == is_exponent(t@.skip(end as int)),
{
    let ghost y = t@.skip(end as int);
    if t.len() - end < 2 || t[end] != 'e' {
        return false;
    }
    assert(y[0] == t@[end as int] && y[1] == t@[end + 1]);
    let zs: usize = if t[end + 1] == '+' || t[end + 1] == '-' { end + 2 } else { end + 1 };
    assert(y.skip((zs - end) as int) =~= t@.skip(zs as int));
    if zs == t.len() {
        return false;
    }
    let zd = digits_from(t, zs);
    zd == t.len()
}

fn number_at(t: &Vec<char>, start: usize) -> (r: bool)
    requires
        start <= t.len(),
    ensures
        r == is_number(t@.skip(start as int)),
{
    let ghost u = t@.skip(start as int);
    let d1_end = digits_from(t, start);
    assert(u.skip((d1_end - start) as int) =~= t@.skip(d1_end as int));
    let mut end = d1_end;
    let mut any = d1_end > start;
    if d1_end < t.len() && t[d1_end] == '.' {
        assert(t@.skip(d1_end as int)[0] == t@[d1_end as int]);
        let d2_end = digits_from(t, d1_end + 1);
        assert(t@.skip(d1_end as int).skip(1) =~= t@.skip(d1_end + 1));
        any = d1_end > start || d2_end > d1_end + 1;
        end = d2_end;
    } else {
        proof {
            if t@.skip(d1_end as int).len() > 0 {
                assert(t@.skip(d1_end as int)[0] == t@[d1_end as int]);
            }
        }
    }
    if !any {
        return false;
    }
    if end == t.len() {
        return true;
    }
    assert(u.skip((end - start) as int) =~= t@.skip(end as int));
    exponent_at(t, end)
}

fn word_at(t: &Vec<char>, start: usize, w: &Vec<char>) -> (r: bool)
    requires
        start <= t.len(),
    ensures
        r == (t@.skip(start as int) == w@),
{
    if t.len() - start != w.len() {
        return false;
    }
    let r = crate::text::range_eq(t, start, t.len(), w);
    assert(t@.skip(start as int) =~= t@.subrange(start as int, t.len() as int));
    r
}

/// `str::parse::<f64>().is_ok()` on a character sequence.
fn f64_ok(s: &Vec<char>) -> (r: bool)
    ensures
        r == parses_as_f64(s@),
{
    let t = lowercased(s);
    let ghost tv = t@;
    let start: usize = if t.len() > 0 && (t[0] == '+' || t[0] == '-') { 1 } else { 0 };
    assert(t@.skip(start as int) =~= (if tv.len() > 0 && (tv[0] == '+' || tv[0] == '-') {
        tv.drop_first()
    } else {
        tv
    }));
    let inf: Vec<char> = vec!['i', 'n', 'f'];
    let infinity: Vec<char> = vec!['i', 'n', 'f', 'i', 'n', 'i', 't', 'y'];
    let nan: Vec<char> = vec!['n', 'a', 'n'];
    assert(inf@ =~= seq!['i', 'n', 'f']);
    assert(infinity@ =~= seq!['i', 'n', 'f', 'i', 'n', 'i', 't', 'y']);
    assert(nan@ =~= seq!['n', 'a', 'n']);
    word_at(&t, start, &inf) || word_at(&t, start, &infinity) || word_at(&t, start, &nan) || number_at(
        &t,
        start,
    )
}

// ---- columns -----------------------------------------------------------------------

/// A directive column configures the paint and never displays: `_sv_*`, and
/// sqlnow's `_sqlnow_*` the same way.
pub open spec fn is_directive(h: Seq<char>) -> bool {
    starts_with(h, "_sv_"@) || starts_with(h, "_sqlnow_"@)
}

/// Whether field `i` of a record is a directive (fields past the header
/// row are not).
pub open spec fn directive_at(hs: Seq<Seq<char>>, i: int) -> bool {
    i < hs.len() && is_directive(hs[i])
}

/// The headers that display, in order.
pub open spec fn shown_of(hs: Seq<Seq<char>>) -> Seq<Seq<char>>
    decreases hs.len(),
{
    if hs.len() == 0 {
        hs
    } else if is_directive(hs.last()) {
        shown_of(hs.drop_last())
    } else {
        shown_of(hs.drop_last()).push(hs.last())
    }
}

/// The first index of `x` in `s`, or -1.
pub open spec fn index_of(s: Seq<Seq<char>>, x: Seq<char>) -> int
    decreases s.len(),
{
    if s.len() == 0 {
        -1
    } else if s[0] == x {
        0
    } else {
        let r = index_of(s.drop_first(), x);
        if r < 0 {
            -1
        } else {
            r + 1
        }
    }
}

/// The column a cell directive names: `_sv_mark_<col>`, or
/// `_sqlnow_format_<col>`.
pub open spec fn mark_target(h: Seq<char>) -> Option<Seq<char>> {
    if starts_with(h, "_sv_mark_"@) {
        Some(h.skip(9))
    } else if starts_with(h, "_sqlnow_format_"@) {
        Some(h.skip(15))
    } else {
        None
    }
}

/// The cell directives, as (field index, shown column index), in header
/// order; a directive naming no shown column is ignored.
pub open spec fn cell_dirs_of(hs: Seq<Seq<char>>, shown: Seq<Seq<char>>) -> Seq<(int, int)>
    decreases hs.len(),
{
    if hs.len() == 0 {
        Seq::empty()
    } else {
        let rest = cell_dirs_of(hs.drop_last(), shown);
        let i = hs.len() - 1;
        match mark_target(hs.last()) {
            Some(col) => if index_of(shown, col) >= 0 {
                rest.push((i, index_of(shown, col)))
            } else {
                rest
            },
            None => rest,
        }
    }
}

fn prefix_test(h: &str, p: &str) -> (r: bool)
    ensures
        r == starts_with(h@, p@),
{
    let hv = chars_of(h);
    let pv = chars_of(p);
    crate::text::has_prefix(&hv, &pv)
}

fn directive_flags(hs: &Vec<String>) -> (r: Vec<bool>)
    ensures
        r.len() == hs.len(),
        forall|i: int| 0 <= i < hs.len() ==> r@[i] == is_directive(#[trigger] strs_view(hs@)[i]),
{
    let mut r: Vec<bool> = Vec::new();
    let mut i: usize = 0;
    while i < hs.len()
        invariant
            i <= hs.len(),
            r.len() == i,
            forall|k: int| 0 <= k < i ==> r@[k] == is_directive(#[trigger] strs_view(hs@)[k]),
        decreases hs.len() - i,
    {
        let h = hs[i].as_str();
        r.push(prefix_test(h, "_sv_") || prefix_test(h, "_sqlnow_"));
        i = i + 1;
    }
    r
}

fn shown_headers(hs: &Vec<String>, flags: &Vec<bool>) -> (r: Vec<String>)
    requires
        flags.len() == hs.len(),
        forall|i: int| 0 <= i < hs.len() ==> flags@[i] == is_directive(#[trigger] strs_view(hs@)[i]),
    ensures
        strs_view(r@) == shown_of(strs_view(hs@)),
{
    let ghost hv = strs_view(hs@);
    let mut r: Vec<String> = Vec::new();
    let mut i: usize = 0;
    assert(hv.take(0) =~= Seq::<Seq<char>>::empty());
    while i < hs.len()
        invariant
            i <= hs.len(),
            hv == strs_view(hs@),
            flags.len() == hs.len(),
            forall|i: int| 0 <= i < hs.len() ==> flags@[i] == is_directive(#[trigger] strs_view(hs@)[i]),
            strs_view(r@) == shown_of(hv.take(i as int)),
        decreases hs.len() - i,
    {
        assert(hv.take(i + 1).drop_last() =~= hv.take(i as int));
        assert(hv.take(i + 1).last() == hv[i as int]);
        if !flags[i] {
            let ghost prev = r@;
            r.push(hs[i].clone());
            assert(strs_view(r@) =~= strs_view(prev).push(hv[i as int]));
        }
        i = i + 1;
    }
    assert(hv.take(hs.len() as int) =~= hv);
    r
}

fn index_in(s: &Vec<String>, x: &str) -> (r: Option<usize>)
    ensures
        r matches Some(k) ==> k < s.len() && index_of(strs_view(s@), x@) == k as int,
        r is None ==> index_of(strs_view(s@), x@) < 0,
{
    let ghost sv = strs_view(s@);
    let mut i: usize = s.len();
    let mut found: Option<usize> = None;
    // scan from the back so the loop state is the answer for the suffix
    assert(sv.skip(i as int) =~= Seq::<Seq<char>>::empty());
    while i > 0
        invariant
            i <= s.len(),
            sv == strs_view(s@),
            found matches Some(k) ==> i <= k < s.len() && index_of(sv.skip(i as int), x@) == k - i,
            found is None ==> index_of(sv.skip(i as int), x@) < 0,
        decreases i,
    {
        i = i - 1;
        assert(sv.skip(i as int).drop_first() =~= sv.skip(i + 1));
        assert(sv.skip(i as int)[0] == sv[i as int]);
        assert(sv.skip(i as int).len() > 0);
        assert(sv[i as int] == s@[i as int]@);
        if str_eq(s[i].as_str(), x) {
            found = Some(i);
        }
    }
    assert(sv.skip(0) =~= sv);
    found
}

fn cell_dirs(hs: &Vec<String>, shown: &Vec<String>) -> (r: Vec<(usize, usize)>)
    ensures
        r@.map_values(|p: (usize, usize)| (p.0 as int, p.1 as int)) == cell_dirs_of(strs_view(hs@), strs_view(shown@)),
        forall|k: int| 0 <= k < r.len() ==> (#[trigger] r@[k]).1 < shown.len(),
{
    let ghost hv = strs_view(hs@);
    let ghost sv = strs_view(shown@);
    let mut r: Vec<(usize, usize)> = Vec::new();
    let mut i: usize = 0;
    assert(hv.take(0) =~= Seq::<Seq<char>>::empty());
    while i < hs.len()
        invariant
            i <= hs.len(),
            hv == strs_view(hs@),
            sv == strs_view(shown@),
            r@.map_values(|p: (usize, usize)| (p.0 as int, p.1 as int)) == cell_dirs_of(hv.take(i as int), sv),
            forall|k: int| 0 <= k < r.len() ==> (#[trigger] r@[k]).1 < shown.len(),
        decreases hs.len() - i,
    {
        assert(hv.take(i + 1).drop_last() =~= hv.take(i as int));
        assert(hv.take(i + 1).last() == hv[i as int]);
        let hc = chars_of(hs[i].as_str());
        let target: Option<String> = if prefix_test(hs[i].as_str(), "_sv_mark_") {
            proof { reveal_strlit("_sv_mark_"); }
            assert(hc@.len() >= 9);
            assert(hc@.skip(9) =~= hc@.subrange(9, hc@.len() as int));
            Some(crate::text::string_of_range(&hc, 9, hc.len()))
        } else if prefix_test(hs[i].as_str(), "_sqlnow_format_") {
            proof { reveal_strlit("_sqlnow_format_"); }
            assert(hc@.len() >= 15);
            assert(hc@.skip(15) =~= hc@.subrange(15, hc@.len() as int));
            Some(crate::text::string_of_range(&hc, 15, hc.len()))
        } else {
            None
        };
        match target {
            Some(col) => {
                match index_in(shown, col.as_str()) {
                    Some(v) => {
                        let ghost prev = r@;
                        r.push((i, v));
                        assert(r@.map_values(|p: (usize, usize)| (p.0 as int, p.1 as int)) =~= prev.map_values(
                            |p: (usize, usize)| (p.0 as int, p.1 as int),
                        ).push((i as int, v as int)));
                    },
                    None => {},
                }
            },
            None => {},
        }
        i = i + 1;
    }
    assert(hv.take(hs.len() as int) =~= hv);
    r
}

// ---- rows --------------------------------------------------------------------------

/// A field, if the record has one there.
pub open spec fn field(r: Seq<Seq<char>>, i: int) -> Option<Seq<char>> {
    if 0 <= i < r.len() {
        Some(r[i])
    } else {
        None
    }
}

/// A row's tint from the `_sv_row` column: `add`, `del` or `mod`, trimmed.
pub open spec fn row_class(hs: Seq<Seq<char>>, r: Seq<Seq<char>>) -> Option<Seq<char>> {
    let c = index_of(hs, "_sv_row"@);
    if c >= 0 {
        match field(r, c) {
            Some(v) => {
                let t = trim(v);
                if t == "add"@ || t == "del"@ || t == "mod"@ {
                    Some(t)
                } else {
                    None
                }
            },
            None => None,
        }
    } else {
        None
    }
}

/// A cell mark, in either vocabulary: the sideview diff verbs and sqlnow's
/// named styles that mean the same thing.
pub open spec fn mark_class(v: Option<Seq<char>>) -> Option<Seq<char>> {
    match v {
        Some(x) => {
            let t = trim(x);
            if t == "add"@ || t == "added"@ {
                Some("sv-csv-add"@)
            } else if t == "del"@ || t == "removed"@ {
                Some("sv-csv-del"@)
            } else if t == "mod"@ || t == "changed"@ {
                Some("sv-csv-mod"@)
            } else {
                None
            }
        },
        None => None,
    }
}

/// The cell marks of a row: each directive in order, a later one over an
/// earlier for the same column, a non-mark word leaving the cell as it was.
pub open spec fn cell_marks(dirs: Seq<(int, int)>, r: Seq<Seq<char>>, n: nat) -> Seq<Option<Seq<char>>>
    decreases dirs.len(),
{
    if dirs.len() == 0 {
        Seq::new(n, |i: int| None)
    } else {
        let prev = cell_marks(dirs.drop_last(), r, n);
        let (fi, vis) = dirs.last();
        match mark_class(field(r, fi)) {
            Some(c) => prev.update(vis, Some(c)),
            None => prev,
        }
    }
}

/// The fields that display: directive fields dropped.
pub open spec fn visible_cells(hs: Seq<Seq<char>>, r: Seq<Seq<char>>) -> Seq<Seq<char>>
    decreases r.len(),
{
    if r.len() == 0 {
        r
    } else if directive_at(hs, r.len() - 1) {
        visible_cells(hs, r.drop_last())
    } else {
        visible_cells(hs, r.drop_last()).push(r.last())
    }
}

/// A cell that leaves its column numeric: absent, blank, or a float.
pub open spec fn cell_ok(hs: Seq<Seq<char>>, r: Seq<Seq<char>>, j: int) -> bool {
    let cs = visible_cells(hs, r);
    j < cs.len() && trim(cs[j]).len() > 0 ==> parses_as_f64(trim(cs[j]))
}

/// Numeric columns right-align, decided from the rows actually shown: a
/// column is numeric when every non-blank cell of it parses as a float.
pub open spec fn numeric_col(hs: Seq<Seq<char>>, rows: Seq<Seq<Seq<char>>>, j: int) -> bool {
    forall|k: int| 0 <= k < rows.len() ==> #[trigger] cell_ok(hs, rows[k], j)
}

proof fn lemma_numeric_step(hs: Seq<Seq<char>>, rows: Seq<Seq<Seq<char>>>, k: int, j: int)
    requires
        0 <= k < rows.len(),
    ensures
        numeric_col(hs, rows.take(k + 1), j) == (numeric_col(hs, rows.take(k), j) && cell_ok(
            hs,
            rows[k],
            j,
        )),
{
    let a = rows.take(k + 1);
    let b = rows.take(k);
    if numeric_col(hs, a, j) {
        assert(a[k] == rows[k]);
        assert(cell_ok(hs, a[k], j));
        assert forall|m: int| 0 <= m < b.len() implies #[trigger] cell_ok(hs, b[m], j) by {
            assert(b[m] == a[m]);
            assert(cell_ok(hs, a[m], j));
        }
    }
    if numeric_col(hs, b, j) && cell_ok(hs, rows[k], j) {
        assert forall|m: int| 0 <= m < a.len() implies #[trigger] cell_ok(hs, a[m], j) by {
            if m < k {
                assert(a[m] == b[m]);
                assert(cell_ok(hs, b[m], j));
            } else {
                assert(a[m] == rows[k]);
            }
        }
    }
}

fn trimmed(s: &str) -> (r: Vec<char>)
    ensures
        r@ == trim(s@),
{
    let v = chars_of(s);
    let te = trim_end_pos(&v, 0, v.len());
    let ts = trim_start_pos(&v, 0, te);
    assert(v@.subrange(0, v@.len() as int) =~= v@);
    crate::text::slice_of(&v, ts, te)
}

fn is_word(t: &Vec<char>, w: &str) -> (r: bool)
    ensures
        r == (t@ == w@),
{
    let wv = chars_of(w);
    crate::text::eq_chars(t, &wv)
}

fn row_class_of(col: Option<usize>, hs: &Vec<String>, r: &Vec<String>) -> (c: Option<&'static str>)
    requires
        col matches Some(k) ==> index_of(strs_view(hs@), "_sv_row"@) == k as int,
        col is None ==> index_of(strs_view(hs@), "_sv_row"@) < 0,
    ensures
        opt_str(c) == row_class(strs_view(hs@), strs_view(r@)),
{
    let ghost rv = strs_view(r@);
    match col {
        Some(i) => {
            if i < r.len() {
                assert(field(rv, i as int) == Some(r@[i as int]@));
                let t = trimmed(r[i].as_str());
                if is_word(&t, "add") {
                    Some("add")
                } else if is_word(&t, "del") {
                    Some("del")
                } else if is_word(&t, "mod") {
                    Some("mod")
                } else {
                    None
                }
            } else {
                assert(field(rv, i as int) is None);
                None
            }
        },
        None => None,
    }
}

fn mark_of(r: &Vec<String>, i: usize) -> (c: Option<&'static str>)
    ensures
        match (c, mark_class(field(strs_view(r@), i as int))) {
            (Some(x), Some(y)) => x@ == y,
            (None, None) => true,
            _ => false,
        },
{
    if i >= r.len() {
        return None;
    }
    let t = trimmed(r[i].as_str());
    if is_word(&t, "add") || is_word(&t, "added") {
        Some("sv-csv-add")
    } else if is_word(&t, "del") || is_word(&t, "removed") {
        Some("sv-csv-del")
    } else if is_word(&t, "mod") || is_word(&t, "changed") {
        Some("sv-csv-mod")
    } else {
        None
    }
}

pub open spec fn marks_view(v: Seq<Option<&'static str>>) -> Seq<Option<Seq<char>>> {
    v.map_values(|o: Option<&'static str>| opt_str(o))
}

fn cell_marks_of(dirs: &Vec<(usize, usize)>, r: &Vec<String>, n: usize) -> (m: Vec<Option<&'static str>>)
    requires
        forall|k: int| 0 <= k < dirs.len() ==> (#[trigger] dirs@[k]).1 < n,
    ensures
        m.len() == n,
        marks_view(m@) == cell_marks(dirs@.map_values(|p: (usize, usize)| (p.0 as int, p.1 as int)), strs_view(r@), n as nat),
{
    let ghost dv = dirs@.map_values(|p: (usize, usize)| (p.0 as int, p.1 as int));
    let mut m: Vec<Option<&'static str>> = Vec::new();
    let mut i: usize = 0;
    while i < n
        invariant
            i <= n,
            m.len() == i,
            forall|k: int| 0 <= k < i ==> m@[k] is None,
        decreases n - i,
    {
        m.push(None);
        i = i + 1;
    }
    assert(marks_view(m@) =~= cell_marks(dv.take(0), strs_view(r@), n as nat));
    let mut k: usize = 0;
    while k < dirs.len()
        invariant
            k <= dirs.len(),
            m.len() == n,
            dv == dirs@.map_values(|p: (usize, usize)| (p.0 as int, p.1 as int)),
            forall|k: int| 0 <= k < dirs.len() ==> (#[trigger] dirs@[k]).1 < n,
            marks_view(m@) == cell_marks(dv.take(k as int), strs_view(r@), n as nat),
        decreases dirs.len() - k,
    {
        assert(dv.take(k + 1).drop_last() =~= dv.take(k as int));
        assert(dv.take(k + 1).last() == dv[k as int]);
        let (fi, vis) = dirs[k];
        match mark_of(r, fi) {
            Some(c) => {
                let ghost prev = m@;
                m.set(vis, Some(c));
                assert(marks_view(m@) =~= marks_view(prev).update(vis as int, Some(c@)));
            },
            None => {},
        }
        k = k + 1;
    }
    assert(dv.take(dirs.len() as int) =~= dv);
    m
}

fn visible_of(r: &Vec<String>, hs: &Vec<String>, flags: &Vec<bool>) -> (c: Vec<String>)
    requires
        flags.len() == hs.len(),
        forall|i: int| 0 <= i < hs.len() ==> flags@[i] == is_directive(#[trigger] strs_view(hs@)[i]),
    ensures
        strs_view(c@) == visible_cells(strs_view(hs@), strs_view(r@)),
{
    let ghost rv = strs_view(r@);
    let ghost hv = strs_view(hs@);
    let mut c: Vec<String> = Vec::new();
    let mut i: usize = 0;
    assert(rv.take(0) =~= Seq::<Seq<char>>::empty());
    while i < r.len()
        invariant
            i <= r.len(),
            rv == strs_view(r@),
            hv == strs_view(hs@),
            flags.len() == hs.len(),
            forall|i: int| 0 <= i < hs.len() ==> flags@[i] == is_directive(#[trigger] strs_view(hs@)[i]),
            strs_view(c@) == visible_cells(hv, rv.take(i as int)),
        decreases r.len() - i,
    {
        assert(rv.take(i + 1).drop_last() =~= rv.take(i as int));
        assert(rv.take(i + 1).last() == rv[i as int]);
        let d = i < flags.len() && flags[i];
        if !d {
            let ghost prev = c@;
            c.push(r[i].clone());
            assert(strs_view(c@) =~= strs_view(prev).push(rv[i as int]));
        }
        i = i + 1;
    }
    assert(rv.take(r.len() as int) =~= rv);
    c
}


// ---- the table ---------------------------------------------------------------------

/// The rows shown: the first `MAX_ROWS`.
pub open spec fn shown_rows(rows: Seq<Seq<Seq<char>>>) -> Seq<Seq<Seq<char>>> {
    if rows.len() > MAX_ROWS {
        rows.take(MAX_ROWS as int)
    } else {
        rows
    }
}

/// A cell's class attribute: `sv-num` for a numeric column, then its mark.
pub open spec fn td_attr(numeric: bool, mark: Option<Seq<char>>) -> Seq<char> {
    match mark {
        Some(m) => if numeric {
            " class=\"sv-num "@ + m + "\""@
        } else {
            " class=\""@ + m + "\""@
        },
        None => if numeric {
            " class=\"sv-num\""@
        } else {
            Seq::empty()
        },
    }
}

pub open spec fn cell_html(numeric: bool, mark: Option<Seq<char>>, cell: Seq<char>) -> Seq<char> {
    "<td"@ + td_attr(numeric, mark) + ">"@ + esc_text(cell) + "</td>"@
}

pub open spec fn tr_class(c: Option<Seq<char>>) -> Seq<char> {
    match c {
        Some(x) => if x == "add"@ {
            " class=\"sv-csv-add\""@
        } else if x == "del"@ {
            " class=\"sv-csv-del\""@
        } else {
            " class=\"sv-csv-mod\""@
        },
        None => Seq::empty(),
    }
}

/// One row: its tint, its visible cells, and empty cells padding a ragged
/// short row so frozen-column offsets stay aligned.
pub open spec fn row_html(
    hs: Seq<Seq<char>>,
    dirs: Seq<(int, int)>,
    nums: Seq<bool>,
    r: Seq<Seq<char>>,
) -> Seq<char> {
    let n = nums.len();
    let cells = visible_cells(hs, r);
    let marks = cell_marks(dirs, r, n);
    let pad: nat = if cells.len() < n { (n - cells.len()) as nat } else { 0 };
    "<tr"@ + tr_class(row_class(hs, r)) + ">"@ + concat(
        Seq::new(
            cells.len(),
            |j: int|
                cell_html(
                    j < n && nums[j],
                    if j < marks.len() {
                        marks[j]
                    } else {
                        None
                    },
                    cells[j],
                ),
        ),
    ) + concat(Seq::new(pad, |j: int| "<td></td>"@)) + "</tr>"@
}

pub open spec fn th_html(numeric: bool, h: Seq<char>) -> Seq<char> {
    "<th"@ + (if numeric {
        " class=\"sv-num\""@
    } else {
        Seq::empty()
    }) + ">"@ + esc_text(h) + "</th>"@
}

pub open spec fn freeze_attr(b: BlockV) -> Seq<char> {
    match attr_lookup(b.attrs, "freeze"@) {
        Some(f) => match parse_unsigned(f, usize::MAX as nat) {
            Some(n) => if 1 <= n <= MAX_FREEZE {
                " data-sv-freeze=\""@ + dec(n) + "\""@
            } else {
                Seq::empty()
            },
            None => Seq::empty(),
        },
        None => Seq::empty(),
    }
}

pub open spec fn scroll_style(b: BlockV) -> Seq<char> {
    match attr_lookup(b.attrs, "height"@) {
        Some(h) => if is_css_length_spec(h) {
            " style=\"max-height:"@ + h + "\" data-sv-scroll=\"1\""@
        } else {
            Seq::empty()
        },
        None => Seq::empty(),
    }
}

pub open spec fn src_of(b: BlockV) -> Seq<char> {
    match attr_lookup(b.attrs, "src"@) {
        Some(s) => s,
        None => Seq::empty(),
    }
}

/// The honest remainder line past the cap, the plain count below it.
pub open spec fn caption(b: BlockV, shown: nat, total: nat) -> Seq<char> {
    if total > shown {
        "<figcaption>showing "@ + dec(shown) + " of "@ + dec(total)
            + " rows — review-scale by design; query a subset for the rest · "@ + esc_text(src_of(b))
            + "</figcaption>"@
    } else {
        "<figcaption>"@ + dec(total) + " rows · "@ + esc_text(src_of(b)) + "</figcaption>"@
    }
}

/// The whole table for the parsed file.
pub open spec fn table_html(b: BlockV, hs: Seq<Seq<char>>, rows: Seq<Seq<Seq<char>>>) -> Seq<char> {
    let shown = shown_of(hs);
    let dirs = cell_dirs_of(hs, shown);
    let sr = shown_rows(rows);
    let nums = Seq::new(shown.len(), |j: int| numeric_col(hs, sr, j));
    "<figure class=\"sv-csv\""@ + freeze_attr(b) + "><div class=\"sv-csv-scroll\""@ + scroll_style(b)
        + "><table><thead><tr>"@ + concat(Seq::new(shown.len(), |i: int| th_html(nums[i], shown[i])))
        + "</tr></thead><tbody>"@ + concat(Seq::new(sr.len(), |k: int| row_html(hs, dirs, nums, sr[k])))
        + "</tbody></table></div>"@ + caption(b, sr.len(), rows.len()) + "</figure>"@
}

fn push_cell(out: &mut String, numeric: bool, mark: Option<&'static str>, cell: &str)
    ensures
        final(out)@ == old(out)@ + cell_html(numeric, opt_str(mark), cell@),
{
    push_str(out, "<td");
    match mark {
        Some(m) => {
            if numeric {
                push_str(out, " class=\"sv-num ");
            } else {
                push_str(out, " class=\"");
            }
            push_str(out, m);
            push_str(out, "\"");
        },
        None => {
            if numeric {
                push_str(out, " class=\"sv-num\"");
            }
        },
    }
    push_str(out, ">");
    push_text_escaped(out, cell);
    push_str(out, "</td>");
}

#[verifier::rlimit(30)]
fn push_row(
    out: &mut String,
    r: &Vec<String>,
    hs: &Vec<String>,
    flags: &Vec<bool>,
    row_col: Option<usize>,
    dirs: &Vec<(usize, usize)>,
    nums: &Vec<bool>,
)
    requires
        flags.len() == hs.len(),
        forall|i: int| 0 <= i < hs.len() ==> flags@[i] == is_directive(#[trigger] strs_view(hs@)[i]),
        forall|k: int| 0 <= k < dirs.len() ==> (#[trigger] dirs@[k]).1 < nums.len(),
        row_col matches Some(c) ==> c < hs.len() && index_of(strs_view(hs@), "_sv_row"@) == c as int,
        row_col is None ==> index_of(strs_view(hs@), "_sv_row"@) < 0,
    ensures
        final(out)@ == old(out)@ + row_html(
            strs_view(hs@),
            dirs@.map_values(|p: (usize, usize)| (p.0 as int, p.1 as int)),
            nums@,
            strs_view(r@),
        ),
{
    let ghost hv = strs_view(hs@);
    let ghost rv = strs_view(r@);
    let ghost dv = dirs@.map_values(|p: (usize, usize)| (p.0 as int, p.1 as int));
    let n = nums.len();
    let cells = visible_of(r, hs, flags);
    let marks = cell_marks_of(dirs, r, n);
    push_str(out, "<tr");
    let class = row_class_of(row_col, hs, r);
    proof {
        reveal_strlit("add");
        reveal_strlit("del");
        reveal_strlit("mod");
    }
    match class {
        Some(c) => {
            if str_eq(c, "add") {
                push_str(out, " class=\"sv-csv-add\"");
            } else if str_eq(c, "del") {
                push_str(out, " class=\"sv-csv-del\"");
            } else {
                push_str(out, " class=\"sv-csv-mod\"");
            }
        },
        None => {},
    }
    push_str(out, ">");
    let ghost cv = strs_view(cells@);
    let ghost mv = marks_view(marks@);
    let ghost tds = Seq::new(
        cv.len(),
        |j: int|
            cell_html(
                j < n && nums@[j],
                if j < mv.len() {
                    mv[j]
                } else {
                    None
                },
                cv[j],
            ),
    );
    let ghost start = out@;
    let mut j: usize = 0;
    assert(tds.take(0) =~= Seq::<Seq<char>>::empty());
    while j < cells.len()
        invariant
            j <= cells.len(),
            n == nums.len(),
            cv == strs_view(cells@),
            mv == marks_view(marks@),
            marks.len() == n,
            tds == Seq::new(
                cv.len(),
                |j: int|
                    cell_html(
                        j < n && nums@[j],
                        if j < mv.len() {
                            mv[j]
                        } else {
                            None
                        },
                        cv[j],
                    ),
            ),
            out@ == start + concat(tds.take(j as int)),
        decreases cells.len() - j,
    {
        let numeric = j < n && nums[j];
        let mark = if j < marks.len() { marks[j] } else { None };
        push_cell(out, numeric, mark, cells[j].as_str());
        proof {
            crate::text::lemma_concat_take(tds, j as int);
        }
        j = j + 1;
    }
    assert(tds.take(cells.len() as int) =~= tds);
    let pad: usize = if cells.len() < n { n - cells.len() } else { 0 };
    let ghost pads = Seq::new(pad as nat, |j: int| "<td></td>"@);
    let ghost mid = out@;
    let mut k: usize = 0;
    assert(pads.take(0) =~= Seq::<Seq<char>>::empty());
    while k < pad
        invariant
            k <= pad,
            pads == Seq::new(pad as nat, |j: int| "<td></td>"@),
            out@ == mid + concat(pads.take(k as int)),
        decreases pad - k,
    {
        push_str(out, "<td></td>");
        proof {
            crate::text::lemma_concat_take(pads, k as int);
        }
        k = k + 1;
    }
    assert(pads.take(pad as int) =~= pads);
    push_str(out, "</tr>");
}

fn numeric_flags(hs: &Vec<String>, flags: &Vec<bool>, rows: &Vec<Vec<String>>, count: usize, n: usize) -> (nums: Vec<bool>)
    requires
        count <= rows.len(),
        flags.len() == hs.len(),
        forall|i: int| 0 <= i < hs.len() ==> flags@[i] == is_directive(#[trigger] strs_view(hs@)[i]),
    ensures
        nums.len() == n,
        forall|j: int| 0 <= j < n ==> nums@[j] == #[trigger] numeric_col(strs_view(hs@), rows_view(rows@).take(count as int), j),
{
    let ghost hv = strs_view(hs@);
    let ghost rv = rows_view(rows@);
    let mut nums: Vec<bool> = Vec::new();
    let mut j: usize = 0;
    while j < n
        invariant
            j <= n,
            nums.len() == j,
            forall|m: int| 0 <= m < j ==> nums@[m],
        decreases n - j,
    {
        nums.push(true);
        j = j + 1;
    }
    assert forall|m: int| 0 <= m < n implies nums@[m] == #[trigger] numeric_col(hv, rv.take(0), m) by {}
    let mut k: usize = 0;
    while k < count
        invariant
            k <= count <= rows.len(),
            hv == strs_view(hs@),
            rv == rows_view(rows@),
            rv.len() == rows.len(),
            flags.len() == hs.len(),
            forall|i: int| 0 <= i < hs.len() ==> flags@[i] == is_directive(#[trigger] strs_view(hs@)[i]),
            nums.len() == n,
            forall|m: int| 0 <= m < n ==> nums@[m] == #[trigger] numeric_col(hv, rv.take(k as int), m),
        decreases count - k,
    {
        let cells = visible_of(&rows[k], hs, flags);
        assert(rv[k as int] == strs_view(rows@[k as int]@));
        let ghost before = nums@;
        let mut m: usize = 0;
        assert(nums@ =~= Seq::new(n as nat, |q: int| if q < 0 { before[q] && cell_ok(hv, rv[k as int], q) } else { before[q] }));
        while m < n
            invariant
                m <= n,
                nums.len() == n,
                k < rows.len(),
                k < rv.len(),
                before.len() == n,
                strs_view(cells@) == visible_cells(hv, rv[k as int]),
                nums@ == Seq::new(n as nat, |q: int| if q < m { before[q] && cell_ok(hv, rv[k as int], q) } else { before[q] }),
            decreases n - m,
        {
            let ghost cs = visible_cells(hv, rv[k as int]);
            if m < cells.len() {
                assert(cs[m as int] == cells@[m as int]@);
                let t = trimmed(cells[m].as_str());
                if t.len() > 0 {
                    let ok = f64_ok(&t);
                    let cur = nums[m];
                    assert(cur == before[m as int]);
                    assert(t@ == trim(cs[m as int]));
                    nums.set(m, cur && ok);
                    assert(nums@[m as int] == (before[m as int] && cell_ok(hv, rv[k as int], m as int)));
                } else {
                    assert(cell_ok(hv, rv[k as int], m as int));
                }
            } else {
                assert(cell_ok(hv, rv[k as int], m as int));
            }
            assert(nums@[m as int] == (before[m as int] && cell_ok(hv, rv[k as int], m as int)));
            m = m + 1;
            assert(nums@ =~= Seq::new(n as nat, |q: int| if q < m { before[q] && cell_ok(hv, rv[k as int], q) } else { before[q] }));
        }
        proof {
            assert forall|q: int| 0 <= q < n implies nums@[q] == #[trigger] numeric_col(hv, rv.take(k + 1), q) by {
                lemma_numeric_step(hv, rv, k as int, q);
            }
        }
        k = k + 1;
    }
    nums
}

fn push_caption(out: &mut String, b: &Block, shown: usize, total: usize)
    ensures
        final(out)@ == old(out)@ + caption(b@, shown as nat, total as nat),
{
    if total > shown {
        push_str(out, "<figcaption>showing ");
        push_usize(out, shown);
        push_str(out, " of ");
        push_usize(out, total);
        push_str(out, " rows — review-scale by design; query a subset for the rest · ");
    } else {
        push_str(out, "<figcaption>");
        push_usize(out, total);
        push_str(out, " rows · ");
    }
    match b.attr("src") {
        Some(src) => push_text_escaped(out, src),
        None => {},
    }
    push_str(out, "</figcaption>");
}

fn push_freeze(out: &mut String, b: &Block)
    ensures
        final(out)@ == old(out)@ + freeze_attr(b@),
{
    match b.attr("freeze") {
        Some(f) => {
            let v = chars_of(f);
            assert(v@.subrange(0, v@.len() as int) =~= v@);
            match crate::text::parse_u64_range(&v, 0, v.len()) {
                Some(n) => {
                    if 1 <= n && n <= 4 {
                        push_str(out, " data-sv-freeze=\"");
                        push_dec(out, n);
                        push_str(out, "\"");
                    } else {
                        proof {
                            assert(parse_unsigned(v@, usize::MAX as nat) == Some(n as nat)
                                || parse_unsigned(v@, usize::MAX as nat) is None);
                        }
                    }
                },
                None => {},
            }
        },
        None => {},
    }
}

fn push_scroll(out: &mut String, b: &Block)
    ensures
        final(out)@ == old(out)@ + scroll_style(b@),
{
    match b.attr("height") {
        Some(h) => {
            if is_css_length(h) {
                push_str(out, " style=\"max-height:");
                push_str(out, h);
                push_str(out, "\" data-sv-scroll=\"1\"");
            }
        },
        None => {},
    }
}


/// The table for a block, from the header and rows the csv reader gave:
/// directive columns hidden, tints and marks applied, rows capped.
pub fn table_of(b: &Block, hs: &Vec<String>, rows: &Vec<Vec<String>>) -> (r: String)
    ensures
        r@ == table_html(b@, strs_view(hs@), rows_view(rows@)),
{
    let ghost hv = strs_view(hs@);
    let ghost rv = rows_view(rows@);
    let flags = directive_flags(hs);
    let shown = shown_headers(hs, &flags);
    let dirs = cell_dirs(hs, &shown);
    let row_col = index_in(hs, "_sv_row");
    let count: usize = if rows.len() > MAX_ROWS { MAX_ROWS } else { rows.len() };
    let n = shown.len();
    let nums = numeric_flags(hs, &flags, rows, count, n);
    let ghost sv = strs_view(shown@);
    let ghost sr = shown_rows(rv);
    assert(sr =~= rv.take(count as int));
    assert(nums@ =~= Seq::new(sv.len(), |j: int| numeric_col(hv, sr, j)));
    let ghost dv = dirs@.map_values(|p: (usize, usize)| (p.0 as int, p.1 as int));
    let mut out = String::new();
    push_str(&mut out, "<figure class=\"sv-csv\"");
    push_freeze(&mut out, b);
    push_str(&mut out, "><div class=\"sv-csv-scroll\"");
    push_scroll(&mut out, b);
    push_str(&mut out, "><table><thead><tr>");
    let ghost ths = Seq::new(sv.len(), |i: int| th_html(nums@[i], sv[i]));
    let ghost s0 = out@;
    let mut i: usize = 0;
    assert(ths.take(0) =~= Seq::<Seq<char>>::empty());
    while i < n
        invariant
            i <= n,
            n == shown.len(),
            nums.len() == n,
            sv == strs_view(shown@),
            ths == Seq::new(sv.len(), |i: int| th_html(nums@[i], sv[i])),
            out@ == s0 + concat(ths.take(i as int)),
        decreases n - i,
    {
        push_str(&mut out, "<th");
        if nums[i] {
            push_str(&mut out, " class=\"sv-num\"");
        }
        push_str(&mut out, ">");
        push_text_escaped(&mut out, shown[i].as_str());
        push_str(&mut out, "</th>");
        proof {
            crate::text::lemma_concat_take(ths, i as int);
        }
        i = i + 1;
    }
    assert(ths.take(n as int) =~= ths);
    push_str(&mut out, "</tr></thead><tbody>");
    let ghost trs = Seq::new(sr.len(), |k: int| row_html(hv, dv, nums@, sr[k]));
    let ghost s1 = out@;
    let mut k: usize = 0;
    assert(trs.take(0) =~= Seq::<Seq<char>>::empty());
    while k < count
        invariant
            k <= count <= rows.len(),
            sr.len() == count,
            sr == rv.take(count as int),
            rv == rows_view(rows@),
            hv == strs_view(hs@),
            flags.len() == hs.len(),
            forall|i: int| 0 <= i < hs.len() ==> flags@[i] == is_directive(#[trigger] strs_view(hs@)[i]),
            forall|q: int| 0 <= q < dirs.len() ==> (#[trigger] dirs@[q]).1 < nums.len(),
            row_col matches Some(c) ==> c < hs.len() && index_of(strs_view(hs@), "_sv_row"@) == c as int,
            row_col is None ==> index_of(strs_view(hs@), "_sv_row"@) < 0,
            dv == dirs@.map_values(|p: (usize, usize)| (p.0 as int, p.1 as int)),
            trs == Seq::new(sr.len(), |k: int| row_html(hv, dv, nums@, sr[k])),
            out@ == s1 + concat(trs.take(k as int)),
        decreases count - k,
    {
        push_row(&mut out, &rows[k], hs, &flags, row_col, &dirs, &nums);
        assert(sr[k as int] == strs_view(rows@[k as int]@));
        proof {
            crate::text::lemma_concat_take(trs, k as int);
        }
        k = k + 1;
    }
    assert(trs.take(count as int) =~= trs);
    push_str(&mut out, "</tbody></table></div>");
    push_caption(&mut out, b, count, rows.len());
    push_str(&mut out, "</figure>");
    out
}

/// The table for a file's text, or the csv crate's error.
pub open spec fn table_spec(text: Seq<char>, b: BlockV) -> Result<Seq<char>, Seq<char>> {
    match csv_of(text) {
        Ok((hs, rows)) => Ok(table_html(b, hs, rows)),
        Err(e) => Err(e),
    }
}

/// Read a file's text as csv and render its table; a read error is
/// handed back as the reader wrote it.
pub fn table(text: &str, b: &Block) -> (r: Result<String, String>)
    ensures
        match (r, table_spec(text@, b@)) {
            (Ok(s), Ok(t)) => s@ == t,
            (Err(e), Err(t)) => e@ == t,
            _ => false,
        },
{
    match csv_read(text) {
        Ok((hs, rows)) => Ok(table_of(b, &hs, &rows)),
        Err(e) => Err(e),
    }
}

pub open spec fn degraded_html(msg: Seq<char>) -> Seq<char> {
    "<p class=\"sv-degraded-note\">"@ + esc_text(msg) + "</p>"@
}

fn degraded(msg: &str) -> (r: String)
    ensures
        r@ == degraded_html(msg@),
{
    let mut r = String::new();
    push_str(&mut r, "<p class=\"sv-degraded-note\">");
    push_text_escaped(&mut r, msg);
    push_str(&mut r, "</p>");
    r
}

/// What `block` renders: the table, or an honest note — the file's own
/// read failure, or the file not being CSV.
pub open spec fn block_spec(id: Seq<char>, b: BlockV, content: Result<Seq<char>, Seq<char>>) -> Seq<char> {
    let body = match content {
        Ok(text) => match table_spec(text, b) {
            Ok(t) => t,
            Err(e) => degraded_html(src_of(b) + ": not readable as CSV — "@ + e),
        },
        Err(e) => degraded_html(e),
    };
    "<section class=\"sv-block\" data-block=\""@ + id + "\" data-type=\"sv-csv\">"@ + warnings_html(
        b.warnings,
    ) + body + "</section>"@
}

pub open spec fn content_view(c: Result<String, String>) -> Result<Seq<char>, Seq<char>> {
    match c {
        Ok(s) => Ok(s@),
        Err(e) => Err(e@),
    }
}

/// Render a CSV block from its file's content. The caller owns reading the
/// file (and its confinement); a read failure arrives as `Err(reason)` and
/// renders honestly — a missing file heals on the next poll tick.
pub fn block(id: &str, b: &Block, content: Result<String, String>) -> (r: String)
    ensures
        r@ == block_spec(id@, b@, content_view(content)),
{
    let body = match &content {
        Ok(text) => match table(text.as_str(), b) {
            Ok(t) => t,
            Err(e) => {
                let mut msg = String::new();
                match b.attr("src") {
                    Some(src) => push_str(&mut msg, src),
                    None => {},
                }
                push_str(&mut msg, ": not readable as CSV — ");
                push_str(&mut msg, e.as_str());
                degraded(msg.as_str())
            },
        },
        Err(e) => degraded(e.as_str()),
    };
    let mut r = String::new();
    push_str(&mut r, "<section class=\"sv-block\" data-block=\"");
    push_str(&mut r, id);
    push_str(&mut r, "\" data-type=\"sv-csv\">");
    push_warnings(&mut r, &b.warnings);
    push_str(&mut r, body.as_str());
    push_str(&mut r, "</section>");
    r
}

/// Review scale is the requirement: a table shows at most `MAX_ROWS` rows,
/// always the file's first ones in order, and says so — naming the total —
/// whenever it holds back any.
pub proof fn lemma_review_scale_cap(b: BlockV, rows: Seq<Seq<Seq<char>>>)
    ensures
        shown_rows(rows).len() <= MAX_ROWS,
        shown_rows(rows).len() == (if rows.len() > MAX_ROWS { MAX_ROWS as nat } else { rows.len() }),
        forall|k: int| 0 <= k < shown_rows(rows).len() ==> #[trigger] shown_rows(rows)[k] == rows[k],
        rows.len() > MAX_ROWS ==> caption(b, shown_rows(rows).len(), rows.len()) == "<figcaption>showing "@
            + dec(MAX_ROWS as nat) + " of "@ + dec(rows.len())
            + " rows — review-scale by design; query a subset for the rest · "@ + esc_text(src_of(b))
            + "</figcaption>"@,
{
}


/// A cell's mark, in either vocabulary, tints it as the word says: a mark
/// that trims to `add` or `added` tints the cell as added, `del` or
/// `removed` as deleted, `mod` or `changed` as modified; the three tints
/// are different classes, and any other word leaves the cell untinted.
pub proof fn lemma_cell_mark_tints(x: Seq<char>)
    ensures
        (trim(x) == "add"@ || trim(x) == "added"@) ==> mark_class(Some(x)) == Some("sv-csv-add"@),
        (trim(x) == "del"@ || trim(x) == "removed"@) ==> mark_class(Some(x)) == Some("sv-csv-del"@),
        (trim(x) == "mod"@ || trim(x) == "changed"@) ==> mark_class(Some(x)) == Some("sv-csv-mod"@),
        !(trim(x) == "add"@ || trim(x) == "added"@ || trim(x) == "del"@ || trim(x) == "removed"@
            || trim(x) == "mod"@ || trim(x) == "changed"@) ==> mark_class(Some(x)) is None,
        mark_class(None) is None,
        "sv-csv-add"@ != "sv-csv-del"@ && "sv-csv-del"@ != "sv-csv-mod"@ && "sv-csv-add"@ != "sv-csv-mod"@,
{
    reveal_strlit("add");
    reveal_strlit("added");
    reveal_strlit("del");
    reveal_strlit("removed");
    reveal_strlit("mod");
    reveal_strlit("changed");
    reveal_strlit("sv-csv-add");
    reveal_strlit("sv-csv-del");
    reveal_strlit("sv-csv-mod");
    assert("del"@ != "add"@ && "del"@ != "added"@ && "removed"@ != "add"@ && "removed"@ != "added"@) by {
        assert("del"@[0] != "add"@[0]);
        assert("del"@.len() != "added"@.len());
        assert("removed"@.len() != "add"@.len());
        assert("removed"@.len() != "added"@.len());
    }
    assert("mod"@ != "add"@ && "mod"@ != "added"@ && "changed"@ != "add"@ && "changed"@ != "added"@
        && "mod"@ != "del"@ && "mod"@ != "removed"@ && "changed"@ != "del"@ && "changed"@ != "removed"@) by {
        assert("mod"@[0] != "add"@[0]);
        assert("mod"@.len() != "added"@.len());
        assert("changed"@.len() != "add"@.len());
        assert("changed"@[0] != "added"@[0]);
        assert("mod"@[0] != "del"@[0]);
        assert("mod"@.len() != "removed"@.len());
        assert("changed"@.len() != "del"@.len());
        assert("changed"@[0] != "removed"@[0]);
    }
    assert("sv-csv-add"@[7] != "sv-csv-del"@[7]);
    assert("sv-csv-del"@[7] != "sv-csv-mod"@[7]);
    assert("sv-csv-add"@[7] != "sv-csv-mod"@[7]);
}

/// A tinted cell of a numeric column carries both classes, `sv-num` first,
/// and shows its text escaped: a deleted cell is `<td class="sv-num
/// sv-csv-del">…</td>`.
pub proof fn lemma_deleted_numeric_cell(x: Seq<char>, cell: Seq<char>)
    requires
        trim(x) == "del"@ || trim(x) == "removed"@,
    ensures
        cell_html(true, mark_class(Some(x)), cell) == "<td class=\"sv-num sv-csv-del\">"@ + esc_text(cell) + "</td>"@,
{
    lemma_cell_mark_tints(x);
    reveal_strlit("<td");
    reveal_strlit(" class=\"sv-num ");
    reveal_strlit("sv-csv-del");
    reveal_strlit("\"");
    reveal_strlit(">");
    reveal_strlit("<td class=\"sv-num sv-csv-del\">");
    assert("<td"@ + (" class=\"sv-num "@ + "sv-csv-del"@ + "\""@) + ">"@ =~= "<td class=\"sv-num sv-csv-del\">"@);
}


/// A row's tint says what its row directive says: an added row is tinted
/// as added, a deleted row as deleted, a modified row as modified, and a
/// row with no directive is not tinted at all.
pub proof fn lemma_row_tints()
    ensures
        tr_class(Some("add"@)) == " class=\"sv-csv-add\""@,
        tr_class(Some("del"@)) == " class=\"sv-csv-del\""@,
        tr_class(Some("mod"@)) == " class=\"sv-csv-mod\""@,
        tr_class(None).len() == 0,
{
    reveal_strlit("add");
    reveal_strlit("del");
    reveal_strlit("mod");
    assert("del"@[0] != "add"@[0]);
    assert("mod"@[0] != "add"@[0]);
    assert("mod"@[0] != "del"@[0]);
}


/// A cell's tint comes from the last directive that marks it with a mark
/// word: when directive `k` (field `fi`, visible column `vis`) holds a mark
/// word and no later directive marks the same column, that column carries
/// the tint the word names; with no directive at all, no cell is tinted.
pub proof fn lemma_last_mark_wins(dirs: Seq<(int, int)>, r: Seq<Seq<char>>, n: nat, k: int)
    requires
        0 <= k < dirs.len(),
        0 <= dirs[k].1 < n,
        forall|j: int| 0 <= j < dirs.len() ==> 0 <= (#[trigger] dirs[j]).1 < n,
        mark_class(field(r, dirs[k].0)) is Some,
        forall|j: int| k < j < dirs.len() && (#[trigger] dirs[j]).1 == dirs[k].1 ==> mark_class(field(r, dirs[j].0)) is None,
    ensures
        cell_marks(dirs, r, n).len() == n,
        cell_marks(dirs, r, n)[dirs[k].1] == mark_class(field(r, dirs[k].0)),
    decreases dirs.len(),
{
    lemma_cell_marks_len(dirs, r, n);
    let prev = dirs.drop_last();
    if k < dirs.len() - 1 {
        assert forall|j: int| k < j < prev.len() && (#[trigger] prev[j]).1 == prev[k].1 implies mark_class(field(r, prev[j].0)) is None by {
            assert(prev[j] == dirs[j]);
        }
        assert forall|j: int| 0 <= j < prev.len() implies 0 <= (#[trigger] prev[j]).1 < n by {
            assert(prev[j] == dirs[j]);
        }
        lemma_last_mark_wins(prev, r, n, k);
        lemma_cell_marks_len(prev, r, n);
        let last = dirs.last();
        assert(last == dirs[dirs.len() - 1]);
        assert(prev[k] == dirs[k]);
        let pm = cell_marks(prev, r, n);
        if mark_class(field(r, last.0)) is Some {
            assert(last.1 != dirs[k].1);
            assert(cell_marks(dirs, r, n) == pm.update(last.1, mark_class(field(r, last.0))));
        } else {
            assert(cell_marks(dirs, r, n) == pm);
        }
    } else {
        assert forall|j: int| 0 <= j < prev.len() implies 0 <= (#[trigger] prev[j]).1 < n by {
            assert(prev[j] == dirs[j]);
        }
        lemma_cell_marks_len(prev, r, n);
        assert(dirs.last() == dirs[k]);
    }
}

pub proof fn lemma_cell_marks_len(dirs: Seq<(int, int)>, r: Seq<Seq<char>>, n: nat)
    requires
        forall|j: int| 0 <= j < dirs.len() ==> 0 <= (#[trigger] dirs[j]).1 < n,
    ensures
        cell_marks(dirs, r, n).len() == n,
    decreases dirs.len(),
{
    if dirs.len() > 0 {
        let prev = dirs.drop_last();
        assert forall|j: int| 0 <= j < prev.len() implies 0 <= (#[trigger] prev[j]).1 < n by {
            assert(prev[j] == dirs[j]);
        }
        lemma_cell_marks_len(prev, r, n);
        assert(dirs.last() == dirs[dirs.len() - 1]);
    }
}

} // verus!
