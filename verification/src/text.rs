//! Character-level helpers shared by every module: strings are modelled as
//! `Seq<char>` (a `String`'s view), and these functions move between `&str`,
//! `String` and `Vec<char>` with exact contracts.

use vstd::prelude::*;

verus! {

// ---- character classes -----------------------------------------------------

/// `char::is_whitespace`: the Unicode White_Space property.
pub open spec fn is_ws(c: char) -> bool {
    ||| c == '\t' || c == '\n' || c == '\u{0B}' || c == '\u{0C}' || c == '\r' || c == ' '
    ||| c == '\u{85}' || c == '\u{A0}' || c == '\u{1680}'
    ||| ('\u{2000}' as int <= c as int && c as int <= '\u{200A}' as int)
    ||| c == '\u{2028}' || c == '\u{2029}' || c == '\u{202F}' || c == '\u{205F}' || c == '\u{3000}'
}

pub open spec fn is_digit(c: char) -> bool {
    '0' as int <= c as int && c as int <= '9' as int
}

pub open spec fn is_lower(c: char) -> bool {
    'a' as int <= c as int && c as int <= 'z' as int
}

pub open spec fn is_upper(c: char) -> bool {
    'A' as int <= c as int && c as int <= 'Z' as int
}

pub open spec fn is_lower_or_digit(c: char) -> bool {
    is_lower(c) || is_digit(c)
}

pub open spec fn is_alnum(c: char) -> bool {
    is_lower(c) || is_upper(c) || is_digit(c)
}

pub fn is_whitespace(c: char) -> (r: bool)
    ensures
        r == is_ws(c),
{
    c == '\t' || c == '\n' || c == '\u{0B}' || c == '\u{0C}' || c == '\r' || c == ' '
        || c == '\u{85}' || c == '\u{A0}' || c == '\u{1680}' || ('\u{2000}' <= c && c
        <= '\u{200A}') || c == '\u{2028}' || c == '\u{2029}' || c == '\u{202F}' || c
        == '\u{205F}' || c == '\u{3000}'
}

pub fn is_ascii_digit(c: char) -> (r: bool)
    ensures
        r == is_digit(c),
{
    '0' <= c && c <= '9'
}

pub fn is_ascii_lower_or_digit(c: char) -> (r: bool)
    ensures
        r == is_lower_or_digit(c),
{
    ('a' <= c && c <= 'z') || ('0' <= c && c <= '9')
}

pub fn is_ascii_alnum(c: char) -> (r: bool)
    ensures
        r == is_alnum(c),
{
    ('a' <= c && c <= 'z') || ('A' <= c && c <= 'Z') || ('0' <= c && c <= '9')
}

// ---- trimming ----------------------------------------------------------------

pub open spec fn trim_end(s: Seq<char>) -> Seq<char>
    decreases s.len(),
{
    if s.len() > 0 && is_ws(s.last()) {
        trim_end(s.drop_last())
    } else {
        s
    }
}

pub open spec fn trim_start(s: Seq<char>) -> Seq<char>
    decreases s.len(),
{
    if s.len() > 0 && is_ws(s[0]) {
        trim_start(s.drop_first())
    } else {
        s
    }
}

pub open spec fn trim(s: Seq<char>) -> Seq<char> {
    trim_start(trim_end(s))
}

/// The end index of `trim_end`: everything before it is kept.
pub proof fn lemma_trim_end_prefix(s: Seq<char>)
    ensures
        trim_end(s) == s.subrange(0, trim_end(s).len() as int),
        trim_end(s).len() <= s.len(),
        trim_end(s).len() == 0 || !is_ws(trim_end(s).last()),
        forall|j: int| trim_end(s).len() <= j < s.len() ==> is_ws(#[trigger] s[j]),
    decreases s.len(),
{
    if s.len() > 0 && is_ws(s.last()) {
        lemma_trim_end_prefix(s.drop_last());
        assert(s.drop_last().subrange(0, trim_end(s).len() as int) =~= s.subrange(
            0,
            trim_end(s).len() as int,
        ));
        assert forall|j: int| trim_end(s).len() <= j < s.len() implies is_ws(#[trigger] s[j]) by {
            if j < s.len() - 1 {
                assert(s[j] == s.drop_last()[j]);
            }
        }
    } else {
        assert(s.subrange(0, s.len() as int) =~= s);
    }
}

pub proof fn lemma_trim_start_suffix(s: Seq<char>)
    ensures
        trim_start(s) == s.subrange(s.len() - trim_start(s).len(), s.len() as int),
        trim_start(s).len() <= s.len(),
        trim_start(s).len() == 0 || !is_ws(trim_start(s)[0]),
        forall|j: int| 0 <= j < s.len() - trim_start(s).len() ==> is_ws(#[trigger] s[j]),
    decreases s.len(),
{
    if s.len() > 0 && is_ws(s[0]) {
        lemma_trim_start_suffix(s.drop_first());
        assert(s.drop_first().subrange(
            s.drop_first().len() - trim_start(s).len(),
            s.drop_first().len() as int,
        ) =~= s.subrange(s.len() - trim_start(s).len(), s.len() as int));
        assert forall|j: int| 0 <= j < s.len() - trim_start(s).len() implies is_ws(
            #[trigger] s[j],
        ) by {
            if j > 0 {
                assert(s[j] == s.drop_first()[j - 1]);
            }
        }
    } else {
        assert(s.subrange(0, s.len() as int) =~= s);
    }
}

/// Index where `trim_end` cuts.
pub fn trim_end_len(v: &Vec<char>) -> (n: usize)
    ensures
        n == trim_end(v@).len(),
{
    proof {
        lemma_trim_end_prefix(v@);
    }
    let mut n: usize = v.len();
    assert(v@.subrange(0, n as int) =~= v@);
    while n > 0 && is_whitespace(v[n - 1])
        invariant
            n <= v.len(),
            trim_end(v@) == trim_end(v@.subrange(0, n as int)),
        decreases n,
    {
        assert(v@.subrange(0, n as int).drop_last() =~= v@.subrange(0, n - 1));
        n = n - 1;
    }
    assert(trim_end(v@.subrange(0, n as int)) == v@.subrange(0, n as int));
    n
}

/// Index where `trim_end` of `v[lo..hi]` stops.
pub fn trim_end_pos(v: &Vec<char>, lo: usize, hi: usize) -> (k: usize)
    requires
        lo <= hi <= v.len(),
    ensures
        lo <= k <= hi,
        trim_end(v@.subrange(lo as int, hi as int)) == v@.subrange(lo as int, k as int),
{
    let mut k: usize = hi;
    while k > lo && is_whitespace(v[k - 1])
        invariant
            lo <= k <= hi <= v.len(),
            trim_end(v@.subrange(lo as int, hi as int)) == trim_end(
                v@.subrange(lo as int, k as int),
            ),
        decreases k,
    {
        assert(v@.subrange(lo as int, k as int).drop_last() =~= v@.subrange(lo as int, k - 1));
        k = k - 1;
    }
    k
}

/// Index where `trim_start` begins.
pub fn trim_start_pos(v: &Vec<char>, lo: usize, hi: usize) -> (k: usize)
    requires
        lo <= hi <= v.len(),
    ensures
        lo <= k <= hi,
        trim_start(v@.subrange(lo as int, hi as int)) == v@.subrange(k as int, hi as int),
{
    let mut k: usize = lo;
    while k < hi && is_whitespace(v[k])
        invariant
            lo <= k <= hi <= v.len(),
            trim_start(v@.subrange(lo as int, hi as int)) == trim_start(
                v@.subrange(k as int, hi as int),
            ),
        decreases hi - k,
    {
        assert(v@.subrange(k as int, hi as int).drop_first() =~= v@.subrange(k + 1, hi as int));
        k = k + 1;
    }
    k
}

/// `str::trim` on a character vector.
pub fn trim_chars(v: &Vec<char>) -> (r: Vec<char>)
    ensures
        r@ == trim(v@),
{
    let te = trim_end_pos(v, 0, v.len());
    let ts = trim_start_pos(v, 0, te);
    assert(v@.subrange(0, v@.len() as int) =~= v@);
    slice_of(v, ts, te)
}

// ---- conversions -------------------------------------------------------------

/// Appends one character to a `String` (`String::push`).
#[verifier::external_body]
pub(crate) fn push_char(s: &mut String, c: char)
    ensures
        final(s)@ == old(s)@.push(c),
{
    s.push(c);
}

/// Appends a string slice (`String::push_str`).
pub fn push_str(s: &mut String, t: &str)
    ensures
        final(s)@ == old(s)@ + t@,
{
    s.append(t);
}

/// The characters of a string slice, in order.
pub fn chars_of(s: &str) -> (out: Vec<char>)
    ensures
        out@ == s@,
{
    let mut out: Vec<char> = Vec::new();
    for c in it: s.chars()
        invariant
            out@ == it.seq().take(it.index() as int),
            it.seq() == s@,
    {
        out.push(c);
    }
    out
}

/// Appends `v[lo..hi]` to a `String`.
pub fn push_range(s: &mut String, v: &Vec<char>, lo: usize, hi: usize)
    requires
        lo <= hi <= v.len(),
    ensures
        final(s)@ == old(s)@ + v@.subrange(lo as int, hi as int),
{
    let mut i: usize = lo;
    while i < hi
        invariant
            lo <= i <= hi <= v.len(),
            s@ == old(s)@ + v@.subrange(lo as int, i as int),
        decreases hi - i,
    {
        push_char(s, v[i]);
        i = i + 1;
        assert(s@ =~= old(s)@ + v@.subrange(lo as int, i as int));
    }
}

/// A `String` holding `v[lo..hi]`.
pub fn string_of_range(v: &Vec<char>, lo: usize, hi: usize) -> (s: String)
    requires
        lo <= hi <= v.len(),
    ensures
        s@ == v@.subrange(lo as int, hi as int),
{
    let mut s = String::new();
    push_range(&mut s, v, lo, hi);
    s
}

/// A `String` holding exactly `v`.
pub fn string_of(v: &Vec<char>) -> (s: String)
    ensures
        s@ == v@,
{
    let s = string_of_range(v, 0, v.len());
    assert(v@.subrange(0, v@.len() as int) =~= v@);
    s
}

/// `v[lo..hi]` as a fresh vector.
pub fn slice_of(v: &Vec<char>, lo: usize, hi: usize) -> (out: Vec<char>)
    requires
        lo <= hi <= v.len(),
    ensures
        out@ == v@.subrange(lo as int, hi as int),
{
    let mut out: Vec<char> = Vec::new();
    let mut i: usize = lo;
    while i < hi
        invariant
            lo <= i <= hi <= v.len(),
            out@ == v@.subrange(lo as int, i as int),
        decreases hi - i,
    {
        out.push(v[i]);
        i = i + 1;
        assert(out@ =~= v@.subrange(lo as int, i as int));
    }
    out
}

/// Appends all of `w` to `v`.
pub fn extend(v: &mut Vec<char>, w: &Vec<char>)
    ensures
        final(v)@ == old(v)@ + w@,
{
    let mut i: usize = 0;
    while i < w.len()
        invariant
            i <= w.len(),
            v@ == old(v)@ + w@.subrange(0, i as int),
        decreases w.len() - i,
    {
        v.push(w[i]);
        i = i + 1;
        assert(v@ =~= old(v)@ + w@.subrange(0, i as int));
    }
    assert(w@.subrange(0, w@.len() as int) =~= w@);
}

/// Equality of two character vectors.
pub fn eq_chars(a: &Vec<char>, b: &Vec<char>) -> (r: bool)
    ensures
        r == (a@ == b@),
{
    if a.len() != b.len() {
        return false;
    }
    let mut i: usize = 0;
    while i < a.len()
        invariant
            i <= a.len() == b.len(),
            forall|j: int| 0 <= j < i ==> a@[j] == b@[j],
        decreases a.len() - i,
    {
        if a[i] != b[i] {
            return false;
        }
        i = i + 1;
    }
    assert(a@ =~= b@);
    true
}

/// Equality of two string slices.
pub fn str_eq(a: &str, b: &str) -> (r: bool)
    ensures
        r == (a@ == b@),
{
    let va = chars_of(a);
    let vb = chars_of(b);
    eq_chars(&va, &vb)
}

/// Equality of a vector's range with a whole vector.
pub fn range_eq(a: &Vec<char>, lo: usize, hi: usize, b: &Vec<char>) -> (r: bool)
    requires
        lo <= hi <= a.len(),
    ensures
        r == (a@.subrange(lo as int, hi as int) == b@),
{
    if hi - lo != b.len() {
        return false;
    }
    let mut i: usize = 0;
    while i < b.len()
        invariant
            i <= b.len(),
            hi - lo == b.len(),
            lo <= hi <= a.len(),
            forall|j: int| 0 <= j < i ==> a@[lo + j] == b@[j],
        decreases b.len() - i,
    {
        if a[lo + i] != b[i] {
            return false;
        }
        i = i + 1;
    }
    assert(a@.subrange(lo as int, hi as int) =~= b@);
    true
}

/// `s` starts with `p`.
pub open spec fn starts_with(s: Seq<char>, p: Seq<char>) -> bool {
    p.len() <= s.len() && s.subrange(0, p.len() as int) == p
}

/// `s` ends with `p`.
pub open spec fn ends_with(s: Seq<char>, p: Seq<char>) -> bool {
    p.len() <= s.len() && s.subrange(s.len() - p.len(), s.len() as int) == p
}

pub fn has_prefix(v: &Vec<char>, p: &Vec<char>) -> (r: bool)
    ensures
        r == starts_with(v@, p@),
{
    if p.len() > v.len() {
        return false;
    }
    range_eq(v, 0, p.len(), p)
}

pub fn has_suffix(v: &Vec<char>, p: &Vec<char>) -> (r: bool)
    ensures
        r == ends_with(v@, p@),
{
    if p.len() > v.len() {
        return false;
    }
    range_eq(v, v.len() - p.len(), v.len(), p)
}

// ---- lines ---------------------------------------------------------------------

/// `str::lines`' scanning state after a prefix: the finished lines, and the
/// line still being read.
pub open spec fn lines_acc(s: Seq<char>) -> (Seq<Seq<char>>, Seq<char>)
    decreases s.len(),
{
    if s.len() == 0 {
        (Seq::empty(), Seq::empty())
    } else {
        let (done, cur) = lines_acc(s.drop_last());
        if s.last() == '\n' {
            (done.push(strip_cr(cur)), Seq::empty())
        } else {
            (done, cur.push(s.last()))
        }
    }
}

/// A line ended by `\n` also loses one `\r` before it.
pub open spec fn strip_cr(l: Seq<char>) -> Seq<char> {
    if l.len() > 0 && l.last() == '\r' {
        l.drop_last()
    } else {
        l
    }
}

/// `str::lines`: split at `\n` (and `\r\n`); a final line ending is optional.
pub open spec fn lines(s: Seq<char>) -> Seq<Seq<char>> {
    let (done, cur) = lines_acc(s);
    if cur.len() == 0 {
        done
    } else {
        done.push(cur)
    }
}

pub open spec fn views(v: Seq<Vec<char>>) -> Seq<Seq<char>> {
    v.map_values(|l: Vec<char>| l@)
}

/// `str::lines` on a character vector.
pub fn lines_of(v: &Vec<char>) -> (out: Vec<Vec<char>>)
    ensures
        views(out@) == lines(v@),
{
    let mut done: Vec<Vec<char>> = Vec::new();
    let mut cur: Vec<char> = Vec::new();
    let mut i: usize = 0;
    while i < v.len()
        invariant
            i <= v.len(),
            (views(done@), cur@) == lines_acc(v@.subrange(0, i as int)),
        decreases v.len() - i,
    {
        let c = v[i];
        assert(v@.subrange(0, i + 1).drop_last() =~= v@.subrange(0, i as int));
        if c == '\n' {
            if cur.len() > 0 && cur[cur.len() - 1] == '\r' {
                cur.pop();
            }
            done.push(cur);
            cur = Vec::new();
            assert(views(done@) =~= lines_acc(v@.subrange(0, i + 1)).0);
        } else {
            cur.push(c);
        }
        i = i + 1;
    }
    assert(v@.subrange(0, v@.len() as int) =~= v@);
    if cur.len() > 0 {
        done.push(cur);
        assert(views(done@) =~= lines(v@));
    }
    done
}

pub proof fn lemma_lines_acc_no_nl(p: Seq<char>)
    requires
        !p.contains('\n'),
    ensures
        lines_acc(p) == (Seq::<Seq<char>>::empty(), p),
    decreases p.len(),
{
    if p.len() > 0 {
        assert(!p.drop_last().contains('\n')) by {
            if p.drop_last().contains('\n') {
                let j = choose|j: int| 0 <= j < p.drop_last().len() && p.drop_last()[j] == '\n';
                assert(p[j] == '\n');
            }
        }
        lemma_lines_acc_no_nl(p.drop_last());
        assert(p.last() != '\n') by {
            assert(p[p.len() - 1] == p.last());
        }
        assert(p.drop_last().push(p.last()) =~= p);
    }
}

pub proof fn lemma_lines_acc_append(p: Seq<char>, y: Seq<char>)
    requires
        lines_acc(p).1.len() == 0,
    ensures
        lines_acc(p + y) == (lines_acc(p).0 + lines_acc(y).0, lines_acc(y).1),
    decreases y.len(),
{
    if y.len() == 0 {
        assert(p + y =~= p);
        assert(lines_acc(p).0 + lines_acc(y).0 =~= lines_acc(p).0);
        assert(lines_acc(p).1 =~= lines_acc(y).1);
    } else {
        lemma_lines_acc_append(p, y.drop_last());
        assert((p + y).drop_last() =~= p + y.drop_last());
        assert((p + y).last() == y.last());
        let (d, c) = lines_acc(y.drop_last());
        if y.last() == '\n' {
            assert(lines_acc(p).0 + d.push(strip_cr(c)) =~= (lines_acc(p).0 + d).push(strip_cr(c)));
        }
    }
}

pub proof fn lemma_join_lines_acc(x: Seq<char>)
    requires
        !x.contains('\r'),
    ensures
        join_lines(lines_acc(x).0.push(lines_acc(x).1)) == x,
        !lines_acc(x).1.contains('\r'),
    decreases x.len(),
{
    if x.len() == 0 {
        assert(Seq::<Seq<char>>::empty().push(Seq::<char>::empty())[0] =~= x);
    } else {
        let y = x.drop_last();
        let c = x.last();
        assert(!y.contains('\r')) by {
            if y.contains('\r') {
                let j = choose|j: int| 0 <= j < y.len() && y[j] == '\r';
                assert(x[j] == '\r');
            }
        }
        assert(c != '\r') by {
            assert(x[x.len() - 1] == c);
        }
        lemma_join_lines_acc(y);
        let (d, cu) = lines_acc(y);
        assert(x == y.push(c));
        if c == '\n' {
            assert(strip_cr(cu) == cu) by {
                if cu.len() > 0 {
                    assert(cu[cu.len() - 1] == cu.last());
                }
            }
            let ls = d.push(cu).push(Seq::<char>::empty());
            assert(ls.drop_last() =~= d.push(cu));
            assert(join_lines(ls) =~= x);
            assert(!Seq::<char>::empty().contains('\r'));
        } else {
            let ls = d.push(cu.push(c));
            if d.len() == 0 {
                assert(ls.len() == 1);
                assert(d.push(cu).len() == 1);
                assert(join_lines(d.push(cu)) == cu);
                assert(join_lines(ls) =~= x);
            } else {
                assert(ls.drop_last() =~= d);
                assert(d.push(cu).drop_last() =~= d);
                assert(join_lines(ls) =~= x);
            }
            assert(!cu.push(c).contains('\r')) by {
                if cu.push(c).contains('\r') {
                    let j = choose|j: int| 0 <= j < cu.push(c).len() && cu.push(c)[j] == '\r';
                    if j < cu.len() {
                        assert(cu.contains('\r'));
                    }
                }
            }
        }
    }
}

/// A line never holds a newline, and holds another character only where
/// the text does.
pub proof fn lemma_lines_acc_chars(s: Seq<char>, ch: char)
    ensures
        forall|i: int|
            0 <= i < lines_acc(s).0.len() ==> (#[trigger] lines_acc(s).0[i]).contains(ch) ==> ch
                != '\n' && s.contains(ch),
        lines_acc(s).1.contains(ch) ==> ch != '\n' && s.contains(ch),
    decreases s.len(),
{
    if s.len() > 0 {
        let p = s.drop_last();
        let c = s.last();
        lemma_lines_acc_chars(p, ch);
        let (done, cur) = lines_acc(p);
        assert(p.contains(ch) ==> s.contains(ch)) by {
            if p.contains(ch) {
                let j = choose|j: int| 0 <= j < p.len() && p[j] == ch;
                assert(s[j] == ch);
            }
        }
        if c == '\n' {
            let l = strip_cr(cur);
            assert(l.contains(ch) ==> cur.contains(ch)) by {
                if l.contains(ch) {
                    let j = choose|j: int| 0 <= j < l.len() && l[j] == ch;
                    assert(cur[j] == ch);
                }
            }
            assert forall|i: int| 0 <= i < lines_acc(s).0.len() && (#[trigger] lines_acc(s).0[i]).contains(ch) implies ch
                != '\n' && s.contains(ch) by {
                if i < done.len() {
                    assert(lines_acc(s).0[i] == done[i]);
                }
            }
            assert(!Seq::<char>::empty().contains(ch));
        } else {
            let l = cur.push(c);
            assert(l.contains(ch) ==> ch != '\n' && s.contains(ch)) by {
                if l.contains(ch) {
                    let j = choose|j: int| 0 <= j < l.len() && l[j] == ch;
                    if j < cur.len() {
                        assert(cur[j] == ch);
                    } else {
                        assert(s[s.len() - 1] == c);
                    }
                }
            }
        }
    }
}

/// Lines joined with newlines, and a final newline, split back into the
/// same lines, where none ends in a carriage return.
pub proof fn lemma_rejoin_lines(x: Seq<Seq<char>>)
    requires
        x.len() > 0,
        forall|i: int| 0 <= i < x.len() ==> !(#[trigger] x[i]).contains('\n'),
        forall|i: int| 0 <= i < x.len() ==> (#[trigger] x[i]).len() == 0 || x[i].last() != '\r',
    ensures
        lines_acc(join_lines(x) + seq!['\n']) == (x, Seq::<char>::empty()),
        lines(join_lines(x) + seq!['\n']) == x,
    decreases x.len(),
{
    let y = x.last();
    assert(!y.contains('\n'));
    lemma_lines_acc_no_nl(y);
    let yn = y + seq!['\n'];
    assert(yn.drop_last() =~= y);
    assert(strip_cr(y) == y);
    assert(lines_acc(yn) == (seq![y], Seq::<char>::empty())) by {
        assert(Seq::<Seq<char>>::empty().push(y) =~= seq![y]);
    }
    if x.len() == 1 {
        assert(join_lines(x) == y);
        assert(x =~= seq![y]);
    } else {
        let xp = x.drop_last();
        lemma_rejoin_lines(xp);
        let p = join_lines(xp) + seq!['\n'];
        lemma_lines_acc_append(p, yn);
        assert(join_lines(x) + seq!['\n'] =~= p + yn);
        assert(xp + seq![y] =~= x);
    }
}

/// `join("\n")`.
pub open spec fn join_lines(ls: Seq<Seq<char>>) -> Seq<char>
    decreases ls.len(),
{
    if ls.len() == 0 {
        Seq::empty()
    } else if ls.len() == 1 {
        ls[0]
    } else {
        join_lines(ls.drop_last()) + seq!['\n'] + ls.last()
    }
}

/// Appends `ls[lo..hi]` joined with `\n`.
pub fn join_lines_of(ls: &Vec<Vec<char>>, lo: usize, hi: usize) -> (out: Vec<char>)
    requires
        lo <= hi <= ls.len(),
    ensures
        out@ == join_lines(views(ls@).subrange(lo as int, hi as int)),
{
    let mut out: Vec<char> = Vec::new();
    let mut i: usize = lo;
    while i < hi
        invariant
            lo <= i <= hi <= ls.len(),
            out@ == join_lines(views(ls@).subrange(lo as int, i as int)),
        decreases hi - i,
    {
        let ghost prev = views(ls@).subrange(lo as int, i as int);
        if i > lo {
            out.push('\n');
        }
        extend(&mut out, &ls[i]);
        i = i + 1;
        proof {
            let now = views(ls@).subrange(lo as int, i as int);
            assert(now.drop_last() =~= prev);
            assert(now.last() == ls@[i - 1]@);
        }
        assert(out@ =~= join_lines(views(ls@).subrange(lo as int, i as int)));
    }
    out
}

// ---- escaping ------------------------------------------------------------------

/// HTML text escaping of one character: `&`, `<`, `>`.
pub open spec fn esc_text_char(c: char) -> Seq<char> {
    if c == '&' {
        seq!['&', 'a', 'm', 'p', ';']
    } else if c == '<' {
        seq!['&', 'l', 't', ';']
    } else if c == '>' {
        seq!['&', 'g', 't', ';']
    } else {
        seq![c]
    }
}

/// HTML attribute escaping of one character: `&`, `"`.
pub open spec fn esc_attr_char(c: char) -> Seq<char> {
    if c == '&' {
        seq!['&', 'a', 'm', 'p', ';']
    } else if c == '"' {
        seq!['&', 'q', 'u', 'o', 't', ';']
    } else {
        seq![c]
    }
}

pub open spec fn esc_text(s: Seq<char>) -> Seq<char>
    decreases s.len(),
{
    if s.len() == 0 {
        Seq::empty()
    } else {
        esc_text(s.drop_last()) + esc_text_char(s.last())
    }
}

pub open spec fn esc_attr(s: Seq<char>) -> Seq<char>
    decreases s.len(),
{
    if s.len() == 0 {
        Seq::empty()
    } else {
        esc_attr(s.drop_last()) + esc_attr_char(s.last())
    }
}

/// Appends the text-escaped form of `s`.
pub fn push_text_escaped(out: &mut String, s: &str)
    ensures
        final(out)@ == old(out)@ + esc_text(s@),
{
    let v = chars_of(s);
    let mut i: usize = 0;
    while i < v.len()
        invariant
            i <= v.len(),
            v@ == s@,
            out@ == old(out)@ + esc_text(v@.subrange(0, i as int)),
        decreases v.len() - i,
    {
        let c = v[i];
        assert(v@.subrange(0, i + 1).drop_last() =~= v@.subrange(0, i as int));
        if c == '&' {
            push_char(out, '&'); push_char(out, 'a'); push_char(out, 'm'); push_char(out, 'p');
            push_char(out, ';');
        } else if c == '<' {
            push_char(out, '&'); push_char(out, 'l'); push_char(out, 't'); push_char(out, ';');
        } else if c == '>' {
            push_char(out, '&'); push_char(out, 'g'); push_char(out, 't'); push_char(out, ';');
        } else {
            push_char(out, c);
        }
        i = i + 1;
        assert(out@ =~= old(out)@ + esc_text(v@.subrange(0, i as int)));
    }
    assert(v@.subrange(0, v@.len() as int) =~= s@);
}

/// Appends the attribute-escaped form of `s`.
pub fn push_attr_escaped(out: &mut String, s: &str)
    ensures
        final(out)@ == old(out)@ + esc_attr(s@),
{
    let v = chars_of(s);
    let mut i: usize = 0;
    while i < v.len()
        invariant
            i <= v.len(),
            v@ == s@,
            out@ == old(out)@ + esc_attr(v@.subrange(0, i as int)),
        decreases v.len() - i,
    {
        let c = v[i];
        assert(v@.subrange(0, i + 1).drop_last() =~= v@.subrange(0, i as int));
        if c == '&' {
            push_char(out, '&'); push_char(out, 'a'); push_char(out, 'm'); push_char(out, 'p');
            push_char(out, ';');
        } else if c == '"' {
            push_char(out, '&'); push_char(out, 'q'); push_char(out, 'u'); push_char(out, 'o');
            push_char(out, 't'); push_char(out, ';');
        } else {
            push_char(out, c);
        }
        i = i + 1;
        assert(out@ =~= old(out)@ + esc_attr(v@.subrange(0, i as int)));
    }
    assert(v@.subrange(0, v@.len() as int) =~= s@);
}

// ---- numbers -------------------------------------------------------------------

pub open spec fn digit_char(d: nat) -> char {
    if d == 0 { '0' } else if d == 1 { '1' } else if d == 2 { '2' } else if d == 3 { '3' }
    else if d == 4 { '4' } else if d == 5 { '5' } else if d == 6 { '6' } else if d == 7 { '7' }
    else if d == 8 { '8' } else { '9' }
}

/// Decimal digits of `n`, as `format!("{n}")` writes them.
pub open spec fn dec(n: nat) -> Seq<char>
    decreases n,
{
    if n < 10 {
        seq![digit_char(n)]
    } else {
        dec(n / 10).push(digit_char(n % 10))
    }
}

fn digit_of(d: u64) -> (c: char)
    requires
        d < 10,
    ensures
        c == digit_char(d as nat),
{
    if d == 0 { '0' } else if d == 1 { '1' } else if d == 2 { '2' } else if d == 3 { '3' }
    else if d == 4 { '4' } else if d == 5 { '5' } else if d == 6 { '6' } else if d == 7 { '7' }
    else if d == 8 { '8' } else { '9' }
}

/// Appends the decimal form of `n`.
pub fn push_dec(out: &mut String, n: u64)
    ensures
        final(out)@ == old(out)@ + dec(n as nat),
    decreases n,
{
    if n >= 10 {
        push_dec(out, n / 10);
    }
    push_char(out, digit_of(n % 10));
    assert(out@ =~= old(out)@ + dec(n as nat));
}

/// Appends the decimal form of `n`.
pub fn push_usize(out: &mut String, n: usize)
    ensures
        final(out)@ == old(out)@ + dec(n as nat),
{
    push_dec(out, n as u64);
}

/// A signed integer in decimal.
pub open spec fn int_dec(n: int) -> Seq<char> {
    if n < 0 {
        seq!['-'] + dec((-n) as nat)
    } else {
        dec(n as nat)
    }
}

pub fn push_i64(out: &mut String, n: i64)
    ensures
        final(out)@ == old(out)@ + int_dec(n as int),
{
    if n < 0 {
        push_char(out, '-');
        let m: u64 = (0i128 - (n as i128)) as u64;
        push_dec(out, m);
        assert(final(out)@ =~= old(out)@ + int_dec(n as int));
    } else {
        push_dec(out, n as u64);
    }
}

pub open spec fn digit_val(c: char) -> nat {
    (c as int - '0' as int) as nat
}

/// The decimal form spells its number back, so distinct numbers are
/// written differently.
pub proof fn lemma_dec_value(n: nat)
    ensures
        digits_value(dec(n)) == n,
    decreases n,
{
    if n >= 10 {
        lemma_dec_value(n / 10);
        let d = dec(n / 10).push(digit_char(n % 10));
        assert(d.drop_last() =~= dec(n / 10));
        assert(d.last() == digit_char(n % 10));
        assert(digit_val(digit_char(n % 10)) == n % 10);
        assert(digits_value(d) == digits_value(dec(n / 10)) * 10 + digit_val(d.last()));
        assert((n / 10) * 10 + n % 10 == n) by (nonlinear_arith);
        assert(dec(n) == d);
    } else {
        let d = seq![digit_char(n)];
        assert(d.drop_last() =~= Seq::<char>::empty());
        assert(d.last() == digit_char(n));
        assert(digit_val(digit_char(n)) == n);
        assert(digits_value(d) == digits_value(d.drop_last()) * 10 + digit_val(d.last()));
        assert(digits_value(Seq::<char>::empty()) == 0);
    }
}

/// The number a run of decimal digits spells.
pub open spec fn digits_value(s: Seq<char>) -> nat
    decreases s.len(),
{
    if s.len() == 0 {
        0
    } else {
        digits_value(s.drop_last()) * 10 + digit_val(s.last())
    }
}

pub open spec fn all_digits(s: Seq<char>) -> bool {
    forall|i: int| 0 <= i < s.len() ==> is_digit(#[trigger] s[i])
}

/// `str::parse` for an unsigned integer type whose maximum is `max`: an
/// optional `+`, then one or more ASCII digits, no overflow.
pub open spec fn parse_unsigned(s: Seq<char>, max: nat) -> Option<nat> {
    let d = if s.len() > 0 && s[0] == '+' { s.drop_first() } else { s };
    if d.len() > 0 && all_digits(d) && digits_value(d) <= max {
        Some(digits_value(d))
    } else {
        None
    }
}

proof fn lemma_digits_value_mono(s: Seq<char>, i: int)
    requires
        0 <= i <= s.len(),
        all_digits(s),
    ensures
        digits_value(s.subrange(0, i)) <= digits_value(s),
    decreases s.len(),
{
    if i < s.len() {
        lemma_digits_value_mono(s.drop_last(), i);
        assert(s.drop_last().subrange(0, i) =~= s.subrange(0, i));
    } else {
        assert(s.subrange(0, i) =~= s);
    }
}

/// `str::parse::<u64>` on `v[lo..hi]`.
pub fn parse_u64_range(v: &Vec<char>, lo: usize, hi: usize) -> (r: Option<u64>)
    requires
        lo <= hi <= v.len(),
    ensures
        r matches Some(n) ==> parse_unsigned(v@.subrange(lo as int, hi as int), u64::MAX as nat)
            == Some(n as nat),
        r is None ==> parse_unsigned(v@.subrange(lo as int, hi as int), u64::MAX as nat) is None,
{
    let ghost s = v@.subrange(lo as int, hi as int);
    let mut start: usize = lo;
    if lo < hi && v[lo] == '+' {
        start = lo + 1;
    }
    let ghost d = v@.subrange(start as int, hi as int);
    assert(d =~= (if s.len() > 0 && s[0] == '+' { s.drop_first() } else { s }));
    if start == hi {
        return None;
    }
    let mut acc: u64 = 0;
    let mut i: usize = start;
    while i < hi
        invariant
            lo <= start <= i <= hi <= v.len(),
            d == v@.subrange(start as int, hi as int),
            s == v@.subrange(lo as int, hi as int),
            d == (if s.len() > 0 && s[0] == '+' { s.drop_first() } else { s }),
            all_digits(v@.subrange(start as int, i as int)),
            acc as nat == digits_value(v@.subrange(start as int, i as int)),
        decreases hi - i,
    {
        let c = v[i];
        if !is_ascii_digit(c) {
            assert(d[i - start] == c);
            assert(!all_digits(d));
            return None;
        }
        let dv: u64 = (c as u32 - '0' as u32) as u64;
        assert(v@.subrange(start as int, i + 1).drop_last() =~= v@.subrange(start as int, i as int));
        assert(dv as nat == digit_val(c));
        assert(digits_value(v@.subrange(start as int, i + 1)) == acc * 10 + dv);
        match acc.checked_mul(10) {
            None => {
                proof {
                    assert(all_digits(v@.subrange(start as int, i + 1)));
                    assert(v@.subrange(start as int, i + 1) =~= d.subrange(0, i + 1 - start));
                    if all_digits(d) {
                        lemma_digits_value_mono(d, i + 1 - start);
                    }
                }
                return None;
            }
            Some(m) => match m.checked_add(dv) {
                None => {
                    proof {
                        assert(all_digits(v@.subrange(start as int, i + 1)));
                        assert(v@.subrange(start as int, i + 1) =~= d.subrange(0, i + 1 - start));
                        if all_digits(d) {
                            lemma_digits_value_mono(d, i + 1 - start);
                        }
                    }
                    return None;
                }
                Some(a) => {
                    acc = a;
                },
            },
        }
        i = i + 1;
    }
    Some(acc)
}


// ---- quoting -------------------------------------------------------------------

/// Names what std's `Debug` gives for a string: the text in double quotes,
/// with std's escapes for quotes, backslashes and characters it will not
/// print as they are.
pub uninterp spec fn debug_str(s: Seq<char>) -> Seq<char>;

/// `format!("{:?}", s)`: std's `Debug` rendering of a string. Trusted to be
/// a function of the text alone, which is all that is claimed of it.
#[verifier::external_body]
pub(crate) fn debug_quoted(s: &str) -> (r: String)
    ensures
        r@ == debug_str(s@),
{
    format!("{:?}", s)
}


// ---- concatenation -------------------------------------------------------------

/// The pieces one after another.
pub open spec fn concat(s: Seq<Seq<char>>) -> Seq<char>
    decreases s.len(),
{
    if s.len() == 0 {
        Seq::empty()
    } else {
        concat(s.drop_last()) + s.last()
    }
}

pub proof fn lemma_concat_push(s: Seq<Seq<char>>, x: Seq<char>)
    ensures
        concat(s.push(x)) == concat(s) + x,
{
    assert(s.push(x).drop_last() =~= s);
}

/// `concat` of the first `i + 1` pieces is that of the first `i` and then
/// piece `i`.
pub proof fn lemma_concat_take(s: Seq<Seq<char>>, i: int)
    requires
        0 <= i < s.len(),
    ensures
        concat(s.take(i + 1)) == concat(s.take(i)) + s[i],
{
    assert(s.take(i + 1).drop_last() =~= s.take(i));
}


// ---- substrings ----------------------------------------------------------------

/// `p` occurs in `s`.
pub open spec fn has_sub(s: Seq<char>, p: Seq<char>) -> bool {
    exists|i: int| 0 <= i && i + p.len() <= s.len() && #[trigger] s.subrange(i, i + p.len()) == p
}

/// `str::contains` for a string pattern.
pub fn contains_sub(v: &Vec<char>, p: &Vec<char>) -> (r: bool)
    ensures
        r == has_sub(v@, p@),
{
    if p.len() > v.len() {
        return false;
    }
    if p.len() == 0 {
        assert(v@.subrange(0int, 0int + p@.len()) =~= p@);
        return true;
    }
    let mut i: usize = 0;
    while i <= v.len() - p.len()
        invariant
            0 < p.len() <= v.len(),
            i <= v.len() - p.len() + 1,
            forall|k: int| 0 <= k < i ==> #[trigger] v@.subrange(k, k + p@.len()) != p@,
        decreases v.len() - i,
    {
        if range_eq(v, i, i + p.len(), p) {
            return true;
        }
        i = i + 1;
    }
    proof {
        assert forall|k: int| !(0 <= k && k + p@.len() <= v@.len() && #[trigger] v@.subrange(k, k + p@.len()) == p@) by {
            if 0 <= k && k + p@.len() <= v@.len() {
                assert(k < i);
            }
        }
    }
    false
}


// ---- replacing -------------------------------------------------------------------

/// `str::replace` for a non-empty pattern: left to right, non-overlapping.
pub open spec fn replace_all(s: Seq<char>, from: Seq<char>, to: Seq<char>) -> Seq<char>
    recommends
        from.len() > 0,
    decreases s.len(),
{
    if s.len() == 0 || from.len() == 0 {
        s
    } else if starts_with(s, from) {
        to + replace_all(s.skip(from.len() as int), from, to)
    } else {
        seq![s[0]] + replace_all(s.skip(1), from, to)
    }
}

pub fn replace_str(s: &str, from: &str, to: &str) -> (r: String)
    requires
        from@.len() > 0,
    ensures
        r@ == replace_all(s@, from@, to@),
{
    let v = chars_of(s);
    let f = chars_of(from);
    let mut out = String::new();
    let mut i: usize = 0;
    assert(v@.skip(0) =~= v@);
    while i < v.len()
        invariant
            i <= v.len(),
            v@ == s@,
            f@ == from@,
            f@.len() > 0,
            out@ + replace_all(v@.skip(i as int), from@, to@) == replace_all(s@, from@, to@),
        decreases v.len() - i,
    {
        let ghost rest = v@.skip(i as int);
        if v.len() - i >= f.len() && range_eq(&v, i, i + f.len(), &f) {
            assert(rest.subrange(0, f@.len() as int) =~= v@.subrange(i as int, i + f@.len()));
            assert(rest.skip(f@.len() as int) =~= v@.skip(i + f@.len()));
            push_str(&mut out, to);
            i = i + f.len();
        } else {
            proof {
                if rest.len() >= f@.len() {
                    assert(rest.subrange(0, f@.len() as int) =~= v@.subrange(i as int, i + f@.len()));
                }
            }
            assert(rest.skip(1) =~= v@.skip(i + 1));
            assert(rest[0] == v@[i as int]);
            push_char(&mut out, v[i]);
            i = i + 1;
        }
    }
    assert(v@.skip(i as int) =~= Seq::<char>::empty());
    out
}

} // verus!
