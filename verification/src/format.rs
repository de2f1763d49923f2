//! The `.sv` block-document format: the canonical source of every page.
//!
//! The rules, few and uniform:
//! - A tag is recognized at column 0 only. A body that needs to show literal
//!   sv-tags indents them by one space.
//! - `<sv-NAME key="value" …>` alone on a line opens a block; the body is raw
//!   text — never entity-decoded, never trimmed — until `</sv-NAME>` alone on
//!   a line.
//! - Blocks do not nest: an opener inside a body means the previous close tag
//!   was lost, so the scanner closes it with a visible warning and every
//!   later block stays healthy. An unclosed final block runs to end-of-file
//!   with the same warning.
//! - `<sv-page …>` carries page properties. Its closer is optional noise.
//! - Unknown `sv-` types parse fine; the renderer degrades them visibly.
//! - Stray top-level content is collected into a warning block rather than
//!   dropped.
//!
//! `parse_spec` states the scanner as a fold over the source's lines; `parse`
//! is proved to compute it, and `lemma_block_text_round_trips` proves that a
//! serialized block reads back as itself.

use vstd::prelude::*;

use crate::text::{chars_of, dec, ends_with, has_prefix, has_suffix, is_ascii_lower_or_digit, is_lower_or_digit, join_lines, join_lines_of, lemma_trim_end_prefix, lemma_trim_start_suffix, lines, lines_of, push_char, push_range, push_str, push_usize, range_eq, slice_of, starts_with, str_eq, string_of, string_of_range, trim, trim_end, trim_end_len, trim_end_pos, trim_start, trim_start_pos, views};

verus! {

/// An attribute list as plain values.
pub open spec fn attrs_view(a: Seq<(String, String)>) -> Seq<(Seq<char>, Seq<char>)> {
    a.map_values(|p: (String, String)| (p.0@, p.1@))
}

pub open spec fn strs_view(w: Seq<String>) -> Seq<Seq<char>> {
    w.map_values(|s: String| s@)
}

/// One parsed block. `lines` is the half-open line range of the whole block
/// (opener through closer) in the source — the CLI edits files by splicing
/// these ranges, never by re-serializing, so untouched bytes stay untouched.
#[derive(Debug)]
pub struct Block {
    pub tag_name: String,
    pub attrs: Vec<(String, String)>,
    pub body: String,
    pub warnings: Vec<String>,
    pub lines: (usize, usize),
}

/// A block as plain values.
pub struct BlockV {
    pub tag_name: Seq<char>,
    pub attrs: Seq<(Seq<char>, Seq<char>)>,
    pub body: Seq<char>,
    pub warnings: Seq<Seq<char>>,
    pub lines: (nat, nat),
}

impl View for Block {
    type V = BlockV;

    open spec fn view(&self) -> BlockV {
        BlockV {
            tag_name: self.tag_name@,
            attrs: attrs_view(self.attrs@),
            body: self.body@,
            warnings: strs_view(self.warnings@),
            lines: (self.lines.0 as nat, self.lines.1 as nat),
        }
    }
}

/// The first value stored under `key`.
pub open spec fn attr_lookup(a: Seq<(Seq<char>, Seq<char>)>, key: Seq<char>) -> Option<Seq<char>>
    decreases a.len(),
{
    if a.len() == 0 {
        None
    } else if a[0].0 == key {
        Some(a[0].1)
    } else {
        attr_lookup(a.drop_first(), key)
    }
}

/// The first value under `key` in an attribute list.
pub fn lookup<'a>(a: &'a Vec<(String, String)>, key: &str) -> (r: Option<&'a str>)
    ensures
        r matches Some(v) ==> attr_lookup(attrs_view(a@), key@) == Some(v@),
        r is None ==> attr_lookup(attrs_view(a@), key@) is None,
{
    let ghost av = attrs_view(a@);
    let mut i: usize = 0;
    assert(av.subrange(0, av.len() as int) =~= av);
    while i < a.len()
        invariant
            i <= a.len(),
            av == attrs_view(a@),
            attr_lookup(av, key@) == attr_lookup(av.subrange(i as int, av.len() as int), key@),
        decreases a.len() - i,
    {
        let ghost rest = av.subrange(i as int, av.len() as int);
        assert(rest[0] == av[i as int]);
        assert(av[i as int] == (a@[i as int].0@, a@[i as int].1@));
        if str_eq(a[i].0.as_str(), key) {
            return Some(a[i].1.as_str());
        }
        assert(rest.drop_first() =~= av.subrange(i + 1, av.len() as int));
        i = i + 1;
    }
    None
}

impl Block {
    pub fn attr(&self, key: &str) -> (r: Option<&str>)
        ensures
            r matches Some(v) ==> attr_lookup(self@.attrs, key@) == Some(v@),
            r is None ==> attr_lookup(self@.attrs, key@) is None,
    {
        lookup(&self.attrs, key)
    }

    pub fn id(&self) -> (r: Option<&str>)
        ensures
            r matches Some(v) ==> attr_lookup(self@.attrs, "id"@) == Some(v@),
            r is None ==> attr_lookup(self@.attrs, "id"@) is None,
    {
        lookup(&self.attrs, "id")
    }
}

#[derive(Debug)]
pub struct Page {
    /// From `<sv-page …>`: label, outline, whatever future keys arrive.
    pub props: Vec<(String, String)>,
    pub blocks: Vec<Block>,
    /// File-level complaints that belong to no block (a duplicate sv-page,
    /// a stray closer). Rendered as a page notice.
    pub warnings: Vec<String>,
}

pub struct PageV {
    pub props: Seq<(Seq<char>, Seq<char>)>,
    pub blocks: Seq<BlockV>,
    pub warnings: Seq<Seq<char>>,
}

pub open spec fn blocks_view(b: Seq<Block>) -> Seq<BlockV> {
    b.map_values(|x: Block| x@)
}

impl View for Page {
    type V = PageV;

    open spec fn view(&self) -> PageV {
        PageV {
            props: attrs_view(self.props@),
            blocks: blocks_view(self.blocks@),
            warnings: strs_view(self.warnings@),
        }
    }
}

impl Page {
    pub fn prop(&self, key: &str) -> (r: Option<&str>)
        ensures
            r matches Some(v) ==> attr_lookup(self@.props, key@) == Some(v@),
            r is None ==> attr_lookup(self@.props, key@) is None,
    {
        lookup(&self.props, key)
    }
}


// ---- the marker grammar -------------------------------------------------------

pub open spec fn first_char(s: Seq<char>, k: int, c: char) -> bool {
    0 <= k < s.len() && s[k] == c && forall|j: int| 0 <= j < k ==> s[j] != c
}

/// First index at which `c` occurs, or -1.
pub open spec fn find_char(s: Seq<char>, c: char) -> int {
    if exists|k: int| #[trigger] first_char(s, k, c) {
        choose|k: int| #[trigger] first_char(s, k, c)
    } else {
        -1
    }
}

pub open spec fn pair_at(s: Seq<char>, j: int, a: char, b: char) -> bool {
    s[j] == a && s[j + 1] == b
}

pub open spec fn first_pair(s: Seq<char>, k: int, a: char, b: char) -> bool {
    0 <= k < s.len() - 1 && pair_at(s, k, a, b) && forall|j: int|
        0 <= j < k ==> !#[trigger] pair_at(s, j, a, b)
}

/// First index at which the pair `a b` occurs, or -1.
pub open spec fn find_pair(s: Seq<char>, a: char, b: char) -> int {
    if exists|k: int| #[trigger] first_pair(s, k, a, b) {
        choose|k: int| #[trigger] first_pair(s, k, a, b)
    } else {
        -1
    }
}

pub fn find_char_from(v: &Vec<char>, lo: usize, hi: usize, c: char) -> (r: Option<usize>)
    requires
        lo <= hi <= v.len(),
    ensures
        r matches Some(k) ==> lo <= k < hi && find_char(v@.subrange(lo as int, hi as int), c)
            == k - lo,
        r is None ==> find_char(v@.subrange(lo as int, hi as int), c) == -1,
{
    let ghost s = v@.subrange(lo as int, hi as int);
    let mut i: usize = lo;
    while i < hi
        invariant
            lo <= i <= hi <= v.len(),
            s == v@.subrange(lo as int, hi as int),
            forall|j: int| 0 <= j < i - lo ==> s[j] != c,
        decreases hi - i,
    {
        if v[i] == c {
            let ghost k = i - lo;
            assert(first_char(s, k, c));
            let ghost w = choose|k: int| #[trigger] first_char(s, k, c);
            assert(first_char(s, w, c));
            assert(w == k) by {
                if w < k {
                    assert(s[w] != c);
                } else if w > k {
                    assert(s[k] != c);
                }
            }
            return Some(i);
        }
        i = i + 1;
    }
    assert forall|k: int| !#[trigger] first_char(s, k, c) by {
        if first_char(s, k, c) {
            assert(s[k] != c);
        }
    }
    None
}

pub fn find_pair_from(v: &Vec<char>, lo: usize, hi: usize, a: char, b: char) -> (r: Option<usize>)
    requires
        lo <= hi <= v.len(),
    ensures
        r matches Some(k) ==> lo <= k && k + 1 < hi && find_pair(
            v@.subrange(lo as int, hi as int),
            a,
            b,
        ) == k - lo,
        r is None ==> find_pair(v@.subrange(lo as int, hi as int), a, b) == -1,
{
    let ghost s = v@.subrange(lo as int, hi as int);
    let mut i: usize = lo;
    while i < hi && hi - i > 1
        invariant
            lo <= i <= hi <= v.len(),
            s == v@.subrange(lo as int, hi as int),
            forall|j: int| 0 <= j < i - lo ==> !#[trigger] pair_at(s, j, a, b),
        decreases hi - i,
    {
        if v[i] == a && v[i + 1] == b {
            let ghost k = i - lo;
            assert(pair_at(s, k, a, b));
            assert(first_pair(s, k, a, b));
            let ghost w = choose|k: int| #[trigger] first_pair(s, k, a, b);
            assert(first_pair(s, w, a, b));
            assert(w == k) by {
                if w < k {
                    assert(!pair_at(s, w, a, b));
                } else if w > k {
                    assert(!pair_at(s, k, a, b));
                }
            }
            return Some(i);
        }
        assert(!pair_at(s, i - lo, a, b));
        i = i + 1;
    }
    assert forall|k: int| !#[trigger] first_pair(s, k, a, b) by {
        if first_pair(s, k, a, b) {
            assert(!pair_at(s, k, a, b));
        }
    }
    None
}

pub open spec fn is_key_char(c: char) -> bool {
    is_lower_or_digit(c) || c == '-'
}

pub open spec fn all_key_chars(s: Seq<char>) -> bool {
    forall|i: int| 0 <= i < s.len() ==> is_key_char(#[trigger] s[i])
}

pub open spec fn all_name_chars(s: Seq<char>) -> bool {
    forall|i: int| 0 <= i < s.len() ==> is_lower_or_digit(#[trigger] s[i])
}

/// `key="value" key2="value2"`. Double quotes only, no escapes — a value
/// cannot contain `"`. None on malformed input.
pub open spec fn parse_attrs_spec(s: Seq<char>) -> Option<Seq<(Seq<char>, Seq<char>)>>
    decreases s.len(),
{
    if s.len() == 0 {
        Some(Seq::empty())
    } else {
        let eq = find_pair(s, '=', '"');
        if eq < 0 {
            None
        } else {
            let key = trim(s.subrange(0, eq));
            let rest = s.subrange(eq + 2, s.len() as int);
            let close = find_char(rest, '"');
            if key.len() == 0 || !all_key_chars(key) || close < 0 {
                None
            } else {
                let next = trim_start(rest.subrange(close + 1, rest.len() as int));
                proof {
                    lemma_trim_start_suffix(rest.subrange(close + 1, rest.len() as int));
                }
                match parse_attrs_spec(next) {
                    Some(tail) => Some(seq![(key, rest.subrange(0, close))] + tail),
                    None => None,
                }
            }
        }
    }
}

/// A recognized column-0 line.
pub enum MarkerV {
    Open { name: Seq<char>, attrs: Seq<(Seq<char>, Seq<char>)> },
    Close { name: Seq<char> },
}

pub open spec fn close_prefix() -> Seq<char> {
    seq!['<', '/', 's', 'v', '-']
}

pub open spec fn open_prefix() -> Seq<char> {
    seq!['<', 's', 'v', '-']
}

pub open spec fn sv_dash() -> Seq<char> {
    seq!['s', 'v', '-']
}

/// Length of the leading run of `[a-z0-9]`.
pub open spec fn name_len(s: Seq<char>) -> nat
    decreases s.len(),
{
    if s.len() > 0 && is_lower_or_digit(s[0]) {
        1 + name_len(s.drop_first())
    } else {
        0
    }
}

/// `<sv-name key="value">` is an opener, `</sv-name>` a closer, everything
/// else is no marker at all (an almost-tag is just body text). Trailing
/// whitespace is ignored.
pub open spec fn marker_spec(line: Seq<char>) -> Option<MarkerV> {
    let t = trim_end(line);
    if starts_with(t, close_prefix()) {
        let rest = t.subrange(5, t.len() as int);
        if rest.len() > 0 && rest.last() == '>' && rest.len() > 1 && all_name_chars(
            rest.drop_last(),
        ) {
            Some(MarkerV::Close { name: sv_dash() + rest.drop_last() })
        } else {
            None
        }
    } else if starts_with(t, open_prefix()) && t.len() >= 5 && t.last() == '>' {
        let rest = t.subrange(4, t.len() - 1);
        let k = name_len(rest);
        if k == 0 || (k < rest.len() && rest[k as int] != ' ') {
            None
        } else {
            match parse_attrs_spec(trim(rest.subrange(k as int, rest.len() as int))) {
                Some(a) => Some(
                    MarkerV::Open { name: sv_dash() + rest.subrange(0, k as int), attrs: a },
                ),
                None => None,
            }
        }
    } else {
        None
    }
}


fn name_len_from(v: &Vec<char>, lo: usize, hi: usize) -> (k: usize)
    requires
        lo <= hi <= v.len(),
    ensures
        k == name_len(v@.subrange(lo as int, hi as int)),
        lo + k <= hi,
{
    let ghost s = v@.subrange(lo as int, hi as int);
    let mut i: usize = lo;
    while i < hi && is_ascii_lower_or_digit(v[i])
        invariant
            lo <= i <= hi <= v.len(),
            s == v@.subrange(lo as int, hi as int),
            name_len(s) == (i - lo) + name_len(v@.subrange(i as int, hi as int)),
        decreases hi - i,
    {
        assert(v@.subrange(i as int, hi as int).drop_first() =~= v@.subrange(i + 1, hi as int));
        i = i + 1;
    }
    i - lo
}

fn all_name_chars_in(v: &Vec<char>, lo: usize, hi: usize) -> (r: bool)
    requires
        lo <= hi <= v.len(),
    ensures
        r == all_name_chars(v@.subrange(lo as int, hi as int)),
{
    let mut i: usize = lo;
    while i < hi
        invariant
            lo <= i <= hi <= v.len(),
            forall|j: int| lo <= j < i ==> is_lower_or_digit(v@[j]),
        decreases hi - i,
    {
        if !is_ascii_lower_or_digit(v[i]) {
            assert(v@.subrange(lo as int, hi as int)[i - lo] == v@[i as int]);
            return false;
        }
        i = i + 1;
    }
    assert forall|j: int| 0 <= j < hi - lo implies is_lower_or_digit(
        #[trigger] v@.subrange(lo as int, hi as int)[j],
    ) by {
        assert(v@.subrange(lo as int, hi as int)[j] == v@[lo + j]);
    }
    true
}

fn all_key_chars_in(v: &Vec<char>, lo: usize, hi: usize) -> (r: bool)
    requires
        lo <= hi <= v.len(),
    ensures
        r == all_key_chars(v@.subrange(lo as int, hi as int)),
{
    let mut i: usize = lo;
    while i < hi
        invariant
            lo <= i <= hi <= v.len(),
            forall|j: int| lo <= j < i ==> is_key_char(v@[j]),
        decreases hi - i,
    {
        if !(is_ascii_lower_or_digit(v[i]) || v[i] == '-') {
            assert(v@.subrange(lo as int, hi as int)[i - lo] == v@[i as int]);
            return false;
        }
        i = i + 1;
    }
    assert forall|j: int| 0 <= j < hi - lo implies is_key_char(
        #[trigger] v@.subrange(lo as int, hi as int)[j],
    ) by {
        assert(v@.subrange(lo as int, hi as int)[j] == v@[lo + j]);
    }
    true
}

/// `parse_attrs` on `v[lo..hi]`.
fn parse_attrs(v: &Vec<char>, lo: usize, hi: usize) -> (r: Option<Vec<(String, String)>>)
    requires
        lo <= hi <= v.len(),
    ensures
        r matches Some(a) ==> parse_attrs_spec(v@.subrange(lo as int, hi as int)) == Some(
            attrs_view(a@),
        ),
        r is None ==> parse_attrs_spec(v@.subrange(lo as int, hi as int)) is None,
{
    let ghost whole = v@.subrange(lo as int, hi as int);
    let mut out: Vec<(String, String)> = Vec::new();
    let mut p: usize = lo;
    while p < hi
        invariant
            lo <= p <= hi <= v.len(),
            whole == v@.subrange(lo as int, hi as int),
            parse_attrs_spec(whole) == (match parse_attrs_spec(v@.subrange(p as int, hi as int)) {
                Some(t) => Some(attrs_view(out@) + t),
                None => None,
            }),
        decreases hi - p,
    {
        let ghost s = v@.subrange(p as int, hi as int);
        let eq = match find_pair_from(v, p, hi, '=', '"') {
            Some(e) => e,
            None => {
                return None;
            },
        };
        let ke = trim_end_pos(v, p, eq);
        let ks = trim_start_pos(v, p, ke);
        assert(s.subrange(0, eq - p) =~= v@.subrange(p as int, eq as int));
        let close = match find_char_from(v, eq + 2, hi, '"') {
            Some(c) => c,
            None => {
                assert(s.subrange(eq - p + 2, s.len() as int) =~= v@.subrange(eq + 2, hi as int));
                return None;
            },
        };
        assert(s.subrange(eq - p + 2, s.len() as int) =~= v@.subrange(eq + 2, hi as int));
        if ks == ke || !all_key_chars_in(v, ks, ke) {
            return None;
        }
        let key = string_of_range(v, ks, ke);
        let val = string_of_range(v, eq + 2, close);
        let ghost rest = v@.subrange(eq + 2, hi as int);
        assert(rest.subrange(0, close - (eq + 2)) =~= v@.subrange(eq + 2, close as int));
        assert(rest.subrange(close - (eq + 2) + 1, rest.len() as int) =~= v@.subrange(
            close + 1,
            hi as int,
        ));
        let np = trim_start_pos(v, close + 1, hi);
        let ghost prev = out@;
        out.push((key, val));
        assert(attrs_view(out@) =~= attrs_view(prev) + seq![
            (v@.subrange(ks as int, ke as int), v@.subrange(eq + 2, close as int)),
        ]);
        proof {
            let ghost tl = parse_attrs_spec(v@.subrange(np as int, hi as int));
            if let Some(t) = tl {
                assert(attrs_view(prev) + (seq![
                    (v@.subrange(ks as int, ke as int), v@.subrange(eq + 2, close as int)),
                ] + t) =~= attrs_view(out@) + t);
            }
        }
        p = np;
    }
    assert(v@.subrange(p as int, hi as int) =~= Seq::<char>::empty());
    assert(attrs_view(out@) + Seq::<(Seq<char>, Seq<char>)>::empty() =~= attrs_view(out@));
    Some(out)
}


pub enum Marker {
    Open { name: String, attrs: Vec<(String, String)> },
    Close { name: String },
}

impl View for Marker {
    type V = MarkerV;

    open spec fn view(&self) -> MarkerV {
        match self {
            Marker::Open { name, attrs } => MarkerV::Open { name: name@, attrs: attrs_view(attrs@) },
            Marker::Close { name } => MarkerV::Close { name: name@ },
        }
    }
}

pub open spec fn opt_marker_view(m: Option<Marker>) -> Option<MarkerV> {
    match m {
        Some(x) => Some(x@),
        None => None,
    }
}

fn close_prefix_v() -> (v: Vec<char>)
    ensures
        v@ == close_prefix(),
{
    let mut v: Vec<char> = Vec::new();
    v.push('<');
    v.push('/');
    v.push('s');
    v.push('v');
    v.push('-');
    assert(v@ =~= close_prefix());
    v
}

fn open_prefix_v() -> (v: Vec<char>)
    ensures
        v@ == open_prefix(),
{
    let mut v: Vec<char> = Vec::new();
    v.push('<');
    v.push('s');
    v.push('v');
    v.push('-');
    assert(v@ =~= open_prefix());
    v
}

fn sv_dash_string() -> (s: String)
    ensures
        s@ == sv_dash(),
{
    let mut s = String::new();
    push_char(&mut s, 's');
    push_char(&mut s, 'v');
    push_char(&mut s, '-');
    assert(s@ =~= sv_dash());
    s
}

/// Recognize a column-0 tag line.
fn marker(line: &Vec<char>) -> (r: Option<Marker>)
    ensures
        opt_marker_view(r) == marker_spec(line@),
{
    let n = trim_end_len(line);
    proof {
        lemma_trim_end_prefix(line@);
    }
    let ghost t = line@.subrange(0, n as int);
    assert(trim_end(line@) == t);
    let cp = close_prefix_v();
    if n >= 5 && range_eq(line, 0, 5, &cp) {
        assert(t.subrange(0, 5) =~= line@.subrange(0, 5));
        let ghost rest = t.subrange(5, t.len() as int);
        assert(rest =~= line@.subrange(5, n as int));
        if n > 6 && line[n - 1] == '>' && all_name_chars_in(line, 5, n - 1) {
            assert(rest.drop_last() =~= line@.subrange(5, n - 1));
            let mut name = sv_dash_string();
            push_range(&mut name, line, 5, n - 1);
            return Some(Marker::Close { name });
        } else {
            proof {
                if n > 6 && line@[n - 1] == '>' {
                    assert(rest.drop_last() =~= line@.subrange(5, n - 1));
                }
            }
            return None;
        }
    }
    proof {
        if starts_with(t, close_prefix()) {
            assert(t.subrange(0, 5) =~= line@.subrange(0, 5));
        }
    }
    let op = open_prefix_v();
    if !(n >= 5 && range_eq(line, 0, 4, &op) && line[n - 1] == '>') {
        proof {
            if n >= 5 && starts_with(t, open_prefix()) {
                assert(t.subrange(0, 4) =~= line@.subrange(0, 4));
            }
        }
        return None;
    }
    assert(t.subrange(0, 4) =~= line@.subrange(0, 4));
    let ghost rest = t.subrange(4, t.len() - 1);
    assert(rest =~= line@.subrange(4, n - 1));
    let k = name_len_from(line, 4, n - 1);
    if k == 0 || (4 + k < n - 1 && line[4 + k] != ' ') {
        return None;
    }
    let te = trim_end_pos(line, 4 + k, n - 1);
    let ts = trim_start_pos(line, 4 + k, te);
    assert(rest.subrange(k as int, rest.len() as int) =~= line@.subrange(4 + k, n - 1));
    match parse_attrs(line, ts, te) {
        Some(attrs) => {
            assert(rest.subrange(0, k as int) =~= line@.subrange(4, 4 + k));
            let mut name = sv_dash_string();
            push_range(&mut name, line, 4, 4 + k);
            Some(Marker::Open { name, attrs })
        },
        None => None,
    }
}

// ---- the scanner ---------------------------------------------------------------

/// An open block: type, attributes, body lines so far, warnings, start line.
pub struct OpenV {
    pub name: Seq<char>,
    pub attrs: Seq<(Seq<char>, Seq<char>)>,
    pub body: Seq<Seq<char>>,
    pub warnings: Seq<Seq<char>>,
    pub start: nat,
}

/// The scanner's state between lines.
pub struct ScanV {
    pub page: PageV,
    pub seen_page_tag: bool,
    pub open: Option<OpenV>,
    pub stray: Option<(Seq<Seq<char>>, nat)>,
}

pub open spec fn nat_dec(n: nat) -> Seq<char> {
    dec(n)
}

pub open spec fn never_closed_at(start: nat, i: nat, name: Seq<char>) -> Seq<char> {
    "block opened at line "@ + dec(start + 1) + " was never closed — closed it at line "@ + dec(i)
        + " where `<"@ + name + ">` opens"@
}

pub open spec fn never_closed_eof(start: nat) -> Seq<char> {
    "block opened at line "@ + dec(start + 1) + " was never closed — ran to end of file"@
}

pub open spec fn duplicate_page(i: nat) -> Seq<char> {
    "duplicate <sv-page> at line "@ + dec(i + 1) + " ignored"@
}

pub open spec fn stray_closer(name: Seq<char>, i: nat) -> Seq<char> {
    "stray `</"@ + name + ">` at line "@ + dec(i + 1) + " — no block is open"@
}

pub open spec fn stray_content(start: nat, end: nat) -> Seq<char> {
    "content outside any block (lines "@ + dec(start + 1) + "–"@ + dec(end)
        + ") — wrap it in an sv- tag"@
}

pub open spec fn with_blocks(p: PageV, b: Seq<BlockV>) -> PageV {
    PageV { props: p.props, blocks: b, warnings: p.warnings }
}

/// Close the open block (if any) with its range ending at `end`.
pub open spec fn finish_spec(st: ScanV, end: nat) -> ScanV {
    match st.open {
        Some(o) => ScanV {
            page: with_blocks(
                st.page,
                st.page.blocks.push(
                    BlockV {
                        tag_name: o.name,
                        attrs: o.attrs,
                        body: join_lines(o.body),
                        warnings: o.warnings,
                        lines: (o.start, end),
                    },
                ),
            ),
            seen_page_tag: st.seen_page_tag,
            open: None,
            stray: st.stray,
        },
        None => st,
    }
}

/// Emit the collected stray lines (if any) as an `sv-stray` block.
pub open spec fn flush_spec(st: ScanV, end: nat) -> ScanV {
    match st.stray {
        Some((ls, start)) => ScanV {
            page: with_blocks(
                st.page,
                st.page.blocks.push(
                    BlockV {
                        tag_name: "sv-stray"@,
                        attrs: Seq::empty(),
                        body: join_lines(ls),
                        warnings: seq![stray_content(start, end)],
                        lines: (start, end),
                    },
                ),
            ),
            seen_page_tag: st.seen_page_tag,
            open: st.open,
            stray: None,
        },
        None => st,
    }
}

pub open spec fn warn_open(st: ScanV, w: Seq<char>) -> ScanV {
    match st.open {
        Some(o) => ScanV {
            page: st.page,
            seen_page_tag: st.seen_page_tag,
            open: Some(
                OpenV {
                    name: o.name,
                    attrs: o.attrs,
                    body: o.body,
                    warnings: o.warnings.push(w),
                    start: o.start,
                },
            ),
            stray: st.stray,
        },
        None => st,
    }
}

pub open spec fn push_body(st: ScanV, l: Seq<char>) -> ScanV {
    match st.open {
        Some(o) => ScanV {
            page: st.page,
            seen_page_tag: st.seen_page_tag,
            open: Some(
                OpenV {
                    name: o.name,
                    attrs: o.attrs,
                    body: o.body.push(l),
                    warnings: o.warnings,
                    start: o.start,
                },
            ),
            stray: st.stray,
        },
        None => st,
    }
}

pub open spec fn warn_page(st: ScanV, w: Seq<char>) -> ScanV {
    ScanV {
        page: PageV { props: st.page.props, blocks: st.page.blocks, warnings: st.page.warnings.push(w) },
        seen_page_tag: st.seen_page_tag,
        open: st.open,
        stray: st.stray,
    }
}

pub open spec fn comment_open() -> Seq<char> {
    seq!['<', '!', '-', '-']
}

pub open spec fn comment_close() -> Seq<char> {
    seq!['-', '-', '>']
}

/// A blank line or a one-line HTML comment, outside any block.
pub open spec fn is_quiet(raw: Seq<char>) -> bool {
    let t = trim(raw);
    t.len() == 0 || (starts_with(t, comment_open()) && ends_with(t, comment_close()))
}

/// One line of the scan.
pub open spec fn step_spec(st: ScanV, i: nat, raw: Seq<char>) -> ScanV {
    match marker_spec(raw) {
        Some(MarkerV::Open { name, attrs }) => {
            let st1 = match st.open {
                Some(o) => finish_spec(warn_open(st, never_closed_at(o.start, i, name)), i),
                None => st,
            };
            let st2 = flush_spec(st1, i);
            if name == "sv-page"@ {
                if st2.seen_page_tag {
                    warn_page(st2, duplicate_page(i))
                } else {
                    ScanV {
                        page: PageV { props: attrs, blocks: st2.page.blocks, warnings: st2.page.warnings },
                        seen_page_tag: true,
                        open: st2.open,
                        stray: st2.stray,
                    }
                }
            } else {
                ScanV {
                    page: st2.page,
                    seen_page_tag: st2.seen_page_tag,
                    open: Some(
                        OpenV {
                            name,
                            attrs,
                            body: Seq::empty(),
                            warnings: Seq::empty(),
                            start: i,
                        },
                    ),
                    stray: st2.stray,
                }
            }
        },
        Some(MarkerV::Close { name }) => match st.open {
            Some(o) => if o.name == name {
                finish_spec(st, i + 1)
            } else {
                push_body(st, raw)
            },
            None => if name != "sv-page"@ {
                warn_page(st, stray_closer(name, i))
            } else {
                st
            },
        },
        None => match st.open {
            Some(o) => push_body(st, raw),
            None => if is_quiet(raw) {
                flush_spec(st, i)
            } else {
                match st.stray {
                    Some((ls, start)) => ScanV {
                        page: st.page,
                        seen_page_tag: st.seen_page_tag,
                        open: st.open,
                        stray: Some((ls.push(raw), start)),
                    },
                    None => ScanV {
                        page: st.page,
                        seen_page_tag: st.seen_page_tag,
                        open: st.open,
                        stray: Some((seq![raw], i)),
                    },
                }
            },
        },
    }
}

pub open spec fn scan_init() -> ScanV {
    ScanV {
        page: PageV { props: Seq::empty(), blocks: Seq::empty(), warnings: Seq::empty() },
        seen_page_tag: false,
        open: None,
        stray: None,
    }
}

/// The scan after the given lines.
pub open spec fn scan_fold(ls: Seq<Seq<char>>) -> ScanV
    decreases ls.len(),
{
    if ls.len() == 0 {
        scan_init()
    } else {
        step_spec(scan_fold(ls.drop_last()), (ls.len() - 1) as nat, ls.last())
    }
}

/// End of file: an open block runs to the end with a warning, and stray
/// content is flushed.
pub open spec fn scan_end(st: ScanV, n: nat) -> ScanV {
    let st1 = match st.open {
        Some(o) => warn_open(st, never_closed_eof(o.start)),
        None => st,
    };
    flush_spec(finish_spec(st1, n), n)
}

/// What `parse` returns for a source text.
pub open spec fn parse_spec(source: Seq<char>) -> PageV {
    scan_end(scan_fold(lines(source)), lines(source).len()).page
}


struct OpenBlock {
    name: String,
    attrs: Vec<(String, String)>,
    body: Vec<Vec<char>>,
    warnings: Vec<String>,
    start: usize,
}

impl View for OpenBlock {
    type V = OpenV;

    closed spec fn view(&self) -> OpenV {
        OpenV {
            name: self.name@,
            attrs: attrs_view(self.attrs@),
            body: views(self.body@),
            warnings: strs_view(self.warnings@),
            start: self.start as nat,
        }
    }
}

struct Scan {
    page: Page,
    seen_page_tag: bool,
    open: Option<OpenBlock>,
    stray: Option<(Vec<Vec<char>>, usize)>,
}

impl View for Scan {
    type V = ScanV;

    closed spec fn view(&self) -> ScanV {
        ScanV {
            page: self.page@,
            seen_page_tag: self.seen_page_tag,
            open: match self.open {
                Some(o) => Some(o@),
                None => None,
            },
            stray: match self.stray {
                Some((ls, start)) => Some((views(ls@), start as nat)),
                None => None,
            },
        }
    }
}

fn msg_never_closed_at(start: usize, i: usize, name: &str) -> (s: String)
    requires
        start < usize::MAX,
    ensures
        s@ == never_closed_at(start as nat, i as nat, name@),
{
    let mut s = String::new();
    push_str(&mut s, "block opened at line ");
    push_usize(&mut s, start + 1);
    push_str(&mut s, " was never closed — closed it at line ");
    push_usize(&mut s, i);
    push_str(&mut s, " where `<");
    push_str(&mut s, name);
    push_str(&mut s, ">` opens");
    assert(s@ =~= never_closed_at(start as nat, i as nat, name@));
    s
}

fn msg_never_closed_eof(start: usize) -> (s: String)
    requires
        start < usize::MAX,
    ensures
        s@ == never_closed_eof(start as nat),
{
    let mut s = String::new();
    push_str(&mut s, "block opened at line ");
    push_usize(&mut s, start + 1);
    push_str(&mut s, " was never closed — ran to end of file");
    assert(s@ =~= never_closed_eof(start as nat));
    s
}

fn msg_duplicate_page(i: usize) -> (s: String)
    requires
        i < usize::MAX,
    ensures
        s@ == duplicate_page(i as nat),
{
    let mut s = String::new();
    push_str(&mut s, "duplicate <sv-page> at line ");
    push_usize(&mut s, i + 1);
    push_str(&mut s, " ignored");
    assert(s@ =~= duplicate_page(i as nat));
    s
}

fn msg_stray_closer(name: &str, i: usize) -> (s: String)
    requires
        i < usize::MAX,
    ensures
        s@ == stray_closer(name@, i as nat),
{
    let mut s = String::new();
    push_str(&mut s, "stray `</");
    push_str(&mut s, name);
    push_str(&mut s, ">` at line ");
    push_usize(&mut s, i + 1);
    push_str(&mut s, " — no block is open");
    assert(s@ =~= stray_closer(name@, i as nat));
    s
}

fn msg_stray_content(start: usize, end: usize) -> (s: String)
    requires
        start < usize::MAX,
    ensures
        s@ == stray_content(start as nat, end as nat),
{
    let mut s = String::new();
    push_str(&mut s, "content outside any block (lines ");
    push_usize(&mut s, start + 1);
    push_str(&mut s, "–");
    push_usize(&mut s, end);
    push_str(&mut s, ") — wrap it in an sv- tag");
    assert(s@ =~= stray_content(start as nat, end as nat));
    s
}

fn is_quiet_line(raw: &Vec<char>) -> (r: bool)
    ensures
        r == is_quiet(raw@),
{
    let te = trim_end_pos(raw, 0, raw.len());
    let ts = trim_start_pos(raw, 0, te);
    assert(raw@.subrange(0, raw@.len() as int) =~= raw@);
    let t = slice_of(raw, ts, te);
    assert(t@ == trim(raw@));
    if t.len() == 0 {
        return true;
    }
    let mut co: Vec<char> = Vec::new();
    co.push('<');
    co.push('!');
    co.push('-');
    co.push('-');
    assert(co@ =~= comment_open());
    let mut cc: Vec<char> = Vec::new();
    cc.push('-');
    cc.push('-');
    cc.push('>');
    assert(cc@ =~= comment_close());
    has_prefix(&t, &co) && has_suffix(&t, &cc)
}

impl Scan {
    fn finish(&mut self, end: usize)
        ensures
            final(self)@ == finish_spec(old(self)@, end as nat),
    {
        let taken = self.open.take();
        match taken {
            Some(o) => {
                let joined = join_lines_of(&o.body, 0, o.body.len());
                assert(views(o.body@).subrange(0, o.body@.len() as int) =~= views(o.body@));
                let body = string_of(&joined);
                let ghost prev = self.page.blocks@;
                self.page.blocks.push(
                    Block { tag_name: o.name, attrs: o.attrs, body, warnings: o.warnings, lines: (o.start, end) },
                );
                assert(blocks_view(self.page.blocks@) =~= blocks_view(prev).push(
                    self.page.blocks@.last()@,
                ));
            },
            None => {},
        }
    }

    fn flush(&mut self, end: usize)
        requires
            match old(self)@.stray {
                Some((_, s)) => s < end,
                None => true,
            },
        ensures
            final(self)@ == flush_spec(old(self)@, end as nat),
    {
        let taken = self.stray.take();
        match taken {
            Some((ls, start)) => {
                let joined = join_lines_of(&ls, 0, ls.len());
                assert(views(ls@).subrange(0, ls@.len() as int) =~= views(ls@));
                let body = string_of(&joined);
                let w = msg_stray_content(start, end);
                let mut warnings: Vec<String> = Vec::new();
                warnings.push(w);
                let ghost prev = self.page.blocks@;
                let ghost bv = BlockV {
                    tag_name: "sv-stray"@,
                    attrs: Seq::empty(),
                    body: join_lines(views(ls@)),
                    warnings: seq![stray_content(start as nat, end as nat)],
                    lines: (start as nat, end as nat),
                };
                let b = Block {
                    tag_name: String::from_str("sv-stray"),
                    attrs: Vec::new(),
                    body,
                    warnings,
                    lines: (start, end),
                };
                assert(b@.attrs =~= bv.attrs);
                assert(b@.warnings =~= bv.warnings);
                self.page.blocks.push(b);
                assert(blocks_view(self.page.blocks@) =~= blocks_view(prev).push(bv));
            },
            None => {},
        }
    }

    fn warn_open_eof(&mut self)
        requires
            match old(self)@.open {
                Some(o) => o.start < usize::MAX,
                None => true,
            },
        ensures
            final(self)@ == (match old(self)@.open {
                Some(o) => warn_open(old(self)@, never_closed_eof(o.start)),
                None => old(self)@,
            }),
    {
        if self.open.is_some() {
            let mut o = self.open.take().unwrap();
            let w = msg_never_closed_eof(o.start);
            let ghost pw = o.warnings@;
            o.warnings.push(w);
            assert(strs_view(o.warnings@) =~= strs_view(pw).push(w@));
            self.open = Some(o);
        }
    }

    fn step(&mut self, i: usize, raw: &Vec<char>)
        requires
            i < usize::MAX,
            starts_below(old(self)@, i as nat),
        ensures
            final(self)@ == step_spec(old(self)@, i as nat, raw@),
            starts_below(final(self)@, (i + 1) as nat),
    {
        let m = marker(raw);
        match m {
            Some(Marker::Open { name, attrs }) => {
                if self.open.is_some() {
                    let mut o = self.open.take().unwrap();
                    let w = msg_never_closed_at(o.start, i, name.as_str());
                    let ghost pw = o.warnings@;
                    o.warnings.push(w);
                    assert(strs_view(o.warnings@) =~= strs_view(pw).push(w@));
                    self.open = Some(o);
                    self.finish(i);
                }
                self.flush(i);
                if str_eq(name.as_str(), "sv-page") {
                    if self.seen_page_tag {
                        let w = msg_duplicate_page(i);
                        let ghost pw = self.page.warnings@;
                        self.page.warnings.push(w);
                        assert(strs_view(self.page.warnings@) =~= strs_view(pw).push(w@));
                    } else {
                        self.seen_page_tag = true;
                        self.page.props = attrs;
                    }
                } else {
                    let ob = OpenBlock {
                        name,
                        attrs,
                        body: Vec::new(),
                        warnings: Vec::new(),
                        start: i,
                    };
                    assert(ob@.body =~= Seq::<Seq<char>>::empty());
                    assert(ob@.warnings =~= Seq::<Seq<char>>::empty());
                    self.open = Some(ob);
                }
            },
            Some(Marker::Close { name }) => {
                if self.open.is_some() {
                    let same = match &self.open {
                        Some(o) => str_eq(o.name.as_str(), name.as_str()),
                        None => false,
                    };
                    if same {
                        self.finish(i + 1);
                    } else {
                        let mut o = self.open.take().unwrap();
                        let ghost pb = o.body@;
                        o.body.push(slice_of(raw, 0, raw.len()));
                        assert(raw@.subrange(0, raw@.len() as int) =~= raw@);
                        assert(views(o.body@) =~= views(pb).push(raw@));
                        self.open = Some(o);
                    }
                } else if !str_eq(name.as_str(), "sv-page") {
                    let w = msg_stray_closer(name.as_str(), i);
                    let ghost pw = self.page.warnings@;
                    self.page.warnings.push(w);
                    assert(strs_view(self.page.warnings@) =~= strs_view(pw).push(w@));
                }
            },
            None => {
                if self.open.is_some() {
                    let mut o = self.open.take().unwrap();
                    let ghost pb = o.body@;
                    o.body.push(slice_of(raw, 0, raw.len()));
                    assert(raw@.subrange(0, raw@.len() as int) =~= raw@);
                    assert(views(o.body@) =~= views(pb).push(raw@));
                    self.open = Some(o);
                } else if is_quiet_line(raw) {
                    self.flush(i);
                } else if self.stray.is_some() {
                    let (mut ls, start) = self.stray.take().unwrap();
                    let ghost pl = ls@;
                    ls.push(slice_of(raw, 0, raw.len()));
                    assert(raw@.subrange(0, raw@.len() as int) =~= raw@);
                    assert(views(ls@) =~= views(pl).push(raw@));
                    self.stray = Some((ls, start));
                } else {
                    let mut ls: Vec<Vec<char>> = Vec::new();
                    ls.push(slice_of(raw, 0, raw.len()));
                    assert(raw@.subrange(0, raw@.len() as int) =~= raw@);
                    assert(views(ls@) =~= seq![raw@]);
                    self.stray = Some((ls, i));
                }
            },
        }
    }
}

/// Every open or stray region began before line `n`.
pub open spec fn starts_below(st: ScanV, n: nat) -> bool {
    &&& (match st.open {
        Some(o) => o.start < n,
        None => true,
    })
    &&& (match st.stray {
        Some((_, s)) => s < n,
        None => true,
    })
}

/// Parse a page source. Never fails: malformed input becomes warnings.
pub fn parse(source: &str) -> (page: Page)
    ensures
        page@ == parse_spec(source@),
{
    let src = chars_of(source);
    let ls = lines_of(&src);
    let mut sc = Scan {
        page: Page { props: Vec::new(), blocks: Vec::new(), warnings: Vec::new() },
        seen_page_tag: false,
        open: None,
        stray: None,
    };
    assert(sc@.page.props =~= scan_init().page.props);
    assert(sc@.page.blocks =~= scan_init().page.blocks);
    assert(sc@.page.warnings =~= scan_init().page.warnings);
    assert(views(ls@).take(0) =~= Seq::<Seq<char>>::empty());
    let mut i: usize = 0;
    while i < ls.len()
        invariant
            i <= ls.len(),
            views(ls@) == lines(src@),
            sc@ == scan_fold(views(ls@).take(i as int)),
            starts_below(sc@, i as nat),
        decreases ls.len() - i,
    {
        assert(views(ls@).take(i + 1).drop_last() =~= views(ls@).take(i as int));
        assert(views(ls@).take(i + 1).last() == ls@[i as int]@);
        sc.step(i, &ls[i]);
        i = i + 1;
    }
    assert(views(ls@).take(ls.len() as int) =~= views(ls@));
    let n = ls.len();
    sc.warn_open_eof();
    sc.finish(n);
    sc.flush(n);
    sc.page
}


// ---- serialization -----------------------------------------------------------

/// ` key="value"` for one attribute.
pub open spec fn attr_item(kv: (Seq<char>, Seq<char>)) -> Seq<char> {
    seq![' '] + kv.0 + seq!['=', '"'] + kv.1 + seq!['"']
}

pub open spec fn attrs_text(a: Seq<(Seq<char>, Seq<char>)>) -> Seq<char>
    decreases a.len(),
{
    if a.len() == 0 {
        Seq::empty()
    } else {
        attr_item(a[0]) + attrs_text(a.drop_first())
    }
}

pub proof fn lemma_attrs_text_push(a: Seq<(Seq<char>, Seq<char>)>, x: (Seq<char>, Seq<char>))
    ensures
        attrs_text(a.push(x)) == attrs_text(a) + attr_item(x),
    decreases a.len(),
{
    if a.len() == 0 {
        assert(a.push(x).drop_first() =~= Seq::<(Seq<char>, Seq<char>)>::empty());
        assert(a.push(x)[0] == x);
        assert(attrs_text(a.push(x).drop_first()) == Seq::<char>::empty());
        assert(attrs_text(a) == Seq::<char>::empty());
        assert(attrs_text(a.push(x)) =~= attrs_text(a) + attr_item(x));
    } else {
        lemma_attrs_text_push(a.drop_first(), x);
        assert(a.push(x).drop_first() =~= a.drop_first().push(x));
        assert(a.push(x)[0] == a[0]);
        assert(attrs_text(a.push(x)) =~= attrs_text(a) + attr_item(x));
    }
}

/// A body loses one trailing newline when serialized.
pub open spec fn strip_nl(b: Seq<char>) -> Seq<char> {
    if b.len() > 0 && b.last() == '\n' {
        b.drop_last()
    } else {
        b
    }
}

pub open spec fn pairs_view<'a>(a: Seq<(&'a str, &'a str)>) -> Seq<(Seq<char>, Seq<char>)> {
    a.map_values(|p: (&'a str, &'a str)| (p.0@, p.1@))
}

/// The serialized form of one block.
pub open spec fn block_text_spec(
    tag: Seq<char>,
    attrs: Seq<(Seq<char>, Seq<char>)>,
    body: Seq<char>,
) -> Seq<char> {
    seq!['<'] + tag + attrs_text(attrs) + seq!['>', '\n'] + strip_nl(body) + seq!['\n', '<', '/']
        + tag + seq!['>']
}

/// Serialize one block. The CLI splices this into the file at a line range;
/// it never re-serializes the whole document.
pub fn block_text(tag_name: &str, attrs: &[(&str, &str)], body: &str) -> (out: String)
    ensures
        out@ == block_text_spec(tag_name@, pairs_view(attrs@), body@),
{
    let mut out = String::new();
    push_char(&mut out, '<');
    push_str(&mut out, tag_name);
    let ghost start = out@;
    let mut i: usize = 0;
    while i < attrs.len()
        invariant
            i <= attrs.len(),
            out@ == start + attrs_text(pairs_view(attrs@).take(i as int)),
        decreases attrs.len() - i,
    {
        let (k, v) = attrs[i];
        push_char(&mut out, ' ');
        push_str(&mut out, k);
        push_char(&mut out, '=');
        push_char(&mut out, '"');
        push_str(&mut out, v);
        push_char(&mut out, '"');
        proof {
            let pv = pairs_view(attrs@);
            assert(pv.take(i + 1) =~= pv.take(i as int).push(pv[i as int]));
            lemma_attrs_text_push(pv.take(i as int), pv[i as int]);
        }
        i = i + 1;
        assert(out@ =~= start + attrs_text(pairs_view(attrs@).take(i as int)));
    }
    assert(pairs_view(attrs@).take(attrs.len() as int) =~= pairs_view(attrs@));
    push_char(&mut out, '>');
    push_char(&mut out, '\n');
    let b = chars_of(body);
    let blen = if b.len() > 0 && b[b.len() - 1] == '\n' { b.len() - 1 } else { b.len() };
    push_range(&mut out, &b, 0, blen);
    push_char(&mut out, '\n');
    push_char(&mut out, '<');
    push_char(&mut out, '/');
    push_str(&mut out, tag_name);
    push_char(&mut out, '>');
    proof {
        if b@.len() > 0 && b@.last() == '\n' {
            assert(b@.subrange(0, blen as int) =~= b@.drop_last());
        } else {
            assert(b@.subrange(0, blen as int) =~= b@);
        }
    }
    assert(out@ =~= block_text_spec(tag_name@, pairs_view(attrs@), body@));
    out
}

/// The message a value the grammar cannot hold is refused with.
pub open spec fn attr_value_message() -> Seq<char> {
    "attribute values cannot contain double quotes or newlines"@
}

/// An attribute value the grammar can hold: no double quotes (no escapes
/// exist), no newlines.
pub fn check_attr_value(v: &str) -> (r: Result<(), String>)
    ensures
        r is Ok <==> !(v@.contains('"') || v@.contains('\n')),
        r matches Err(e) ==> e@ == attr_value_message(),
{
    let c = chars_of(v);
    let mut i: usize = 0;
    while i < c.len()
        invariant
            i <= c.len(),
            c@ == v@,
            forall|j: int| 0 <= j < i ==> c@[j] != '"' && c@[j] != '\n',
        decreases c.len() - i,
    {
        if c[i] == '"' || c[i] == '\n' {
            return Err(String::from_str("attribute values cannot contain double quotes or newlines"));
        }
        i = i + 1;
    }
    Ok(())
}

} // verus!
