//! The file-splicing primitives both the CLI's authoring verbs and the
//! daemon's edit-from-page endpoint use. Everything here is text in, text
//! out: reading and writing the page file (under its sidecar lock) is the
//! caller's business.

use vstd::prelude::*;

use crate::format::{
    attr_lookup, attrs_view, block_text, block_text_spec, check_attr_value, pairs_view, parse,
    parse_spec, Block, BlockV, Page, PageV,
};
use crate::text::{
    chars_of, dec, eq_chars, join_lines, join_lines_of, lines, lines_of, parse_u64_range,
    parse_unsigned, push_char, push_str, push_dec, starts_with, str_eq, string_of, trim, trim_end, trim_end_len,
    trim_end_pos, trim_start_pos, views,
};

verus! {

/// The block types the authoring verbs write.
pub enum Kind {
    Prose,
    Markup,
    Html,
    Diff,
}

impl Kind {
    pub open spec fn tag_spec(&self) -> Seq<char> {
        match self {
            Kind::Prose => "sv-prose"@,
            Kind::Markup => "sv-markup"@,
            Kind::Html => "sv-html"@,
            Kind::Diff => "sv-diff"@,
        }
    }

    /// The tag this kind is written as.
    pub fn tag_name(&self) -> (r: &'static str)
        ensures
            r@ == self.tag_spec(),
    {
        match self {
            Kind::Prose => "sv-prose",
            Kind::Markup => "sv-markup",
            Kind::Html => "sv-html",
            Kind::Diff => "sv-diff",
        }
    }
}

// ---- block ids --------------------------------------------------------------------

/// The number in a `bN` id, when the block has one.
pub open spec fn id_number(b: BlockV) -> Option<nat> {
    match attr_lookup(b.attrs, "id"@) {
        Some(id) => if id.len() > 0 && id[0] == 'b' {
            parse_unsigned(id.drop_first(), u64::MAX as nat)
        } else {
            None
        },
        None => None,
    }
}

/// The highest `bN` number the blocks use, 0 when none.
pub open spec fn max_id(bs: Seq<BlockV>) -> nat
    decreases bs.len(),
{
    if bs.len() == 0 {
        0
    } else {
        let rest = max_id(bs.drop_last());
        match id_number(bs.last()) {
            Some(n) => if n > rest {
                n
            } else {
                rest
            },
            None => rest,
        }
    }
}

pub proof fn lemma_max_id_bounds(bs: Seq<BlockV>)
    ensures
        forall|i: int| 0 <= i < bs.len() ==> (#[trigger] id_number(bs[i]) matches Some(n) ==> n
            <= max_id(bs)),
    decreases bs.len(),
{
    if bs.len() > 0 {
        lemma_max_id_bounds(bs.drop_last());
        assert forall|i: int| 0 <= i < bs.len() implies (#[trigger] id_number(bs[i]) matches Some(
            n,
        ) ==> n <= max_id(bs)) by {
            if i < bs.len() - 1 {
                assert(bs[i] == bs.drop_last()[i]);
            }
        }
    }
}

proof fn lemma_max_id_attained(bs: Seq<BlockV>)
    ensures
        max_id(bs) == 0 || exists|j: int| 0 <= j < bs.len() && #[trigger] id_number(bs[j]) == Some(max_id(bs)),
    decreases bs.len(),
{
    if bs.len() > 0 {
        let init = bs.drop_last();
        lemma_max_id_attained(init);
        if max_id(bs) != 0 && max_id(bs) == max_id(init) {
            let j = choose|j: int| 0 <= j < init.len() && #[trigger] id_number(init[j]) == Some(max_id(init));
            assert(id_number(bs[j]) == Some(max_id(bs)));
        } else if max_id(bs) != 0 {
            assert(id_number(bs[bs.len() - 1]) == Some(max_id(bs)));
        }
    }
}

proof fn lemma_max_id_at_most(bs: Seq<BlockV>, m: nat)
    requires
        forall|i: int| 0 <= i < bs.len() ==> (#[trigger] id_number(bs[i]) matches Some(n) ==> n <= m),
    ensures
        max_id(bs) <= m,
    decreases bs.len(),
{
    if bs.len() > 0 {
        let init = bs.drop_last();
        assert forall|i: int| 0 <= i < init.len() implies (#[trigger] id_number(init[i]) matches Some(n) ==> n <= m) by {
            assert(init[i] == bs[i]);
        }
        lemma_max_id_at_most(init, m);
        assert(id_number(bs[bs.len() - 1]) == id_number(bs.last()));
    }
}

/// Removing a block does not change the next id unless that block held the
/// highest number: the highest `bN` in use is the same without it.
pub proof fn lemma_next_id_survives_removal(bs: Seq<BlockV>, k: int)
    requires
        0 <= k < bs.len(),
        id_number(bs[k]) != Some(max_id(bs)),
    ensures
        max_id(bs.remove(k)) == max_id(bs),
{
    let r = bs.remove(k);
    lemma_max_id_bounds(bs);
    lemma_max_id_bounds(r);
    assert forall|i: int| 0 <= i < r.len() implies (#[trigger] id_number(r[i]) matches Some(n) ==> n <= max_id(bs)) by {
        if i < k {
            assert(r[i] == bs[i]);
        } else {
            assert(r[i] == bs[i + 1]);
        }
    }
    lemma_max_id_at_most(r, max_id(bs));
    lemma_max_id_attained(bs);
    if max_id(bs) != 0 {
        let j = choose|j: int| 0 <= j < bs.len() && #[trigger] id_number(bs[j]) == Some(max_id(bs));
        if j < k {
            assert(r[j] == bs[j]);
            assert(id_number(r[j]) == Some(max_id(bs)));
        } else {
            assert(j != k);
            assert(r[j - 1] == bs[j]);
            assert(id_number(r[j - 1]) == Some(max_id(bs)));
        }
    }
}

/// The number `next_block_id` reads from one block.
fn block_number(b: &Block) -> (r: Option<u64>)
    ensures
        r matches Some(n) ==> id_number(b@) == Some(n as nat),
        r is None ==> id_number(b@) is None,
{
    match b.id() {
        Some(id) => {
            let v = chars_of(id);
            if v.len() > 0 && v[0] == 'b' {
                assert(v@.subrange(1, v@.len() as int) =~= v@.drop_first());
                parse_u64_range(&v, 1, v.len())
            } else {
                None
            }
        },
        None => None,
    }
}

/// The highest `bN` number a page's blocks use (0 for none).
pub fn max_block_id(page: &Page) -> (r: u64)
    ensures
        r as nat == max_id(page@.blocks),
{
    let mut max: u64 = 0;
    let mut i: usize = 0;
    assert(page@.blocks.take(0) =~= Seq::<BlockV>::empty());
    while i < page.blocks.len()
        invariant
            i <= page.blocks.len(),
            max as nat == max_id(page@.blocks.take(i as int)),
        decreases page.blocks.len() - i,
    {
        let ghost pre = page@.blocks.take(i + 1);
        assert(pre.drop_last() =~= page@.blocks.take(i as int));
        assert(pre.last() == page.blocks@[i as int]@);
        match block_number(&page.blocks[i]) {
            Some(n) => {
                if n > max {
                    max = n;
                }
            },
            None => {},
        }
        i = i + 1;
    }
    assert(page@.blocks.take(page.blocks.len() as int) =~= page@.blocks);
    max
}

/// The next `bN` id: one past the highest the file already uses, so ids never
/// recycle within a file even after `rm`.
pub fn next_block_id(page: &Page) -> (r: String)
    requires
        max_id(page@.blocks) < u64::MAX,
    ensures
        r@ == seq!['b'] + dec(max_id(page@.blocks) + 1),
        forall|i: int|
            0 <= i < page@.blocks.len() ==> (#[trigger] id_number(page@.blocks[i]) matches Some(n)
                ==> n < max_id(page@.blocks) + 1),
{
    let max = max_block_id(page);
    proof {
        lemma_max_id_bounds(page@.blocks);
    }
    let mut r = String::new();
    push_char(&mut r, 'b');
    push_dec(&mut r, max + 1);
    r
}

/// The `--type` an update names.
pub open spec fn kind_spec(name: Seq<char>) -> Result<Kind, Seq<char>> {
    if name == "prose"@ {
        Ok(Kind::Prose)
    } else if name == "markup"@ {
        Ok(Kind::Markup)
    } else if name == "html"@ {
        Ok(Kind::Html)
    } else if name == "diff"@ {
        Ok(Kind::Diff)
    } else {
        Err("unknown block type "@ + crate::text::debug_str(name) + " (prose, markup, html or diff)"@)
    }
}

pub fn kind_of(name: &str) -> (r: Result<Kind, String>)
    ensures
        match (r, kind_spec(name@)) {
            (Ok(a), Ok(b)) => a == b,
            (Err(a), Err(b)) => a@ == b,
            _ => false,
        },
{
    if str_eq(name, "prose") {
        Ok(Kind::Prose)
    } else if str_eq(name, "markup") {
        Ok(Kind::Markup)
    } else if str_eq(name, "html") {
        Ok(Kind::Html)
    } else if str_eq(name, "diff") {
        Ok(Kind::Diff)
    } else {
        let mut e = String::new();
        push_str(&mut e, "unknown block type ");
        push_str(&mut e, crate::text::debug_quoted(name).as_str());
        push_str(&mut e, " (prose, markup, html or diff)");
        Err(e)
    }
}

// ---- appending ---------------------------------------------------------------------

/// Last line index whose trailing-whitespace-trimmed text is `</sv-page>`.
pub open spec fn last_closer(ls: Seq<Seq<char>>) -> int
    decreases ls.len(),
{
    if ls.len() == 0 {
        -1
    } else if trim_end(ls.last()) == "</sv-page>"@ {
        ls.len() - 1
    } else {
        last_closer(ls.drop_last())
    }
}

/// Drop trailing blank lines.
pub open spec fn drop_blank_tail(ls: Seq<Seq<char>>) -> Seq<Seq<char>>
    decreases ls.len(),
{
    if ls.len() > 0 && trim(ls.last()).len() == 0 {
        drop_blank_tail(ls.drop_last())
    } else {
        ls
    }
}

/// What `append_block` returns.
pub open spec fn append_block_spec(cur: Seq<char>, block: Seq<char>) -> Seq<char> {
    if cur.len() == 0 {
        "<sv-page>\n\n"@ + block + "\n\n</sv-page>\n"@
    } else {
        let ls = lines(cur);
        let i = last_closer(ls);
        if i >= 0 {
            join_lines(
                drop_blank_tail(ls.take(i)).push(Seq::empty()) + lines(block) + seq![Seq::empty()]
                    + ls.skip(i),
            ) + seq!['\n']
        } else {
            let out = if cur.last() == '\n' {
                cur
            } else {
                cur.push('\n')
            };
            out + seq!['\n'] + block + seq!['\n']
        }
    }
}

fn is_blank(l: &Vec<char>) -> (r: bool)
    ensures
        r == (trim(l@).len() == 0),
{
    let te = trim_end_pos(l, 0, l.len());
    let ts = trim_start_pos(l, 0, te);
    assert(l@.subrange(0, l@.len() as int) =~= l@);
    ts == te
}

fn copy_lines(out: &mut Vec<Vec<char>>, ls: &Vec<Vec<char>>, lo: usize, hi: usize)
    requires
        lo <= hi <= ls.len(),
    ensures
        views(final(out)@) == views(old(out)@) + views(ls@).subrange(lo as int, hi as int),
{
    let mut i: usize = lo;
    while i < hi
        invariant
            lo <= i <= hi <= ls.len(),
            views(out@) == views(old(out)@) + views(ls@).subrange(lo as int, i as int),
        decreases hi - i,
    {
        let l = crate::text::slice_of(&ls[i], 0, ls[i].len());
        assert(ls@[i as int]@.subrange(0, ls@[i as int]@.len() as int) =~= ls@[i as int]@);
        let ghost prev = out@;
        out.push(l);
        assert(views(out@) =~= views(prev).push(ls@[i as int]@));
        i = i + 1;
        assert(views(out@) =~= views(old(out)@) + views(ls@).subrange(lo as int, i as int));
    }
}

fn rposition_closer(ls: &Vec<Vec<char>>) -> (r: Option<usize>)
    ensures
        r matches Some(k) ==> k < ls.len() && last_closer(views(ls@)) == k as int,
        r is None ==> last_closer(views(ls@)) == -1,
{
    let closer = chars_of("</sv-page>");
    let mut k: usize = ls.len();
    assert(views(ls@).take(k as int) =~= views(ls@));
    while k > 0
        invariant
            k <= ls.len(),
            closer@ == "</sv-page>"@,
            last_closer(views(ls@)) == last_closer(views(ls@).take(k as int)),
        decreases k,
    {
        let ghost pre = views(ls@).take(k as int);
        assert(pre.drop_last() =~= views(ls@).take(k - 1));
        assert(pre.last() == ls@[k - 1]@);
        let te = trim_end_pos(&ls[k - 1], 0, ls[k - 1].len());
        assert(ls@[k - 1]@.subrange(0, ls@[k - 1]@.len() as int) =~= ls@[k - 1]@);
        let t = crate::text::slice_of(&ls[k - 1], 0, te);
        if eq_chars(&t, &closer) {
            return Some(k - 1);
        }
        k = k - 1;
    }
    None
}

/// Append before a trailing `</sv-page>` when the file has one; a fresh file
/// gets the page wrapper so `page set` has a line to hang properties on.
pub fn append_block(current: String, block: &str) -> (r: String)
    ensures
        r@ == append_block_spec(current@, block@),
{
    if current.as_str().is_empty() {
        let mut out = String::new();
        push_str(&mut out, "<sv-page>\n\n");
        push_str(&mut out, block);
        push_str(&mut out, "\n\n</sv-page>\n");
        return out;
    }
    let cv = chars_of(current.as_str());
    let ls = lines_of(&cv);
    let closer = chars_of("</sv-page>");
    let pos = rposition_closer(&ls);
    let found = pos.is_some();
    let k: usize = match pos { Some(k) => k, None => 0 };
    if found {
        let mut nl: Vec<Vec<char>> = Vec::new();
        copy_lines(&mut nl, &ls, 0, k);
        assert(views(ls@).subrange(0, k as int) =~= views(ls@).take(k as int));
        assert(views(nl@) =~= views(ls@).take(k as int));
        while nl.len() > 0 && is_blank(&nl[nl.len() - 1])
            invariant
                drop_blank_tail(views(ls@).take(k as int)) == drop_blank_tail(views(nl@)),
            decreases nl.len(),
        {
            let ghost prev = nl@;
            nl.pop();
            assert(views(nl@) =~= views(prev).drop_last());
        }
        assert(drop_blank_tail(views(nl@)) == views(nl@));
        let ghost base = views(nl@);
        let e: Vec<char> = Vec::new();
        nl.push(e);
        let bv = chars_of(block);
        let bl = lines_of(&bv);
        copy_lines(&mut nl, &bl, 0, bl.len());
        assert(views(bl@).subrange(0, bl@.len() as int) =~= views(bl@));
        let e2: Vec<char> = Vec::new();
        let ghost mid = nl@;
        nl.push(e2);
        assert(views(nl@) =~= views(mid).push(Seq::empty()));
        copy_lines(&mut nl, &ls, k, ls.len());
        assert(views(ls@).subrange(k as int, ls@.len() as int) =~= views(ls@).skip(k as int));
        assert(views(nl@) =~= base.push(Seq::empty()) + lines(block@) + seq![Seq::<char>::empty()]
            + views(ls@).skip(k as int));
        let joined = join_lines_of(&nl, 0, nl.len());
        assert(views(nl@).subrange(0, nl@.len() as int) =~= views(nl@));
        let mut out = string_of(&joined);
        push_char(&mut out, '\n');
        out
    } else {
        assert(views(ls@).take(0) =~= Seq::<Seq<char>>::empty());
        let mut out = current;
        let ends_nl = cv[cv.len() - 1] == '\n';
        if !ends_nl {
            push_char(&mut out, '\n');
        }
        push_char(&mut out, '\n');
        push_str(&mut out, block);
        push_char(&mut out, '\n');
        out
    }
}


// ---- splicing ----------------------------------------------------------------------

/// What `splice` returns: lines `start..end` replaced by the replacement's
/// lines, or removed — and then a blank line left doubled by the removal is
/// collapsed.
pub open spec fn splice_spec(
    cur: Seq<char>,
    start: nat,
    end: nat,
    repl: Option<Seq<char>>,
) -> Seq<char> {
    let ls = lines(cur);
    let head = ls.take(start as int);
    let out = match repl {
        Some(r) => head + lines(r),
        None => if head.len() > 0 && trim(head.last()).len() == 0 && (end >= ls.len() || trim(
            ls[end as int],
        ).len() == 0) {
            head.drop_last()
        } else {
            head
        },
    };
    let e = if end < ls.len() {
        end
    } else {
        ls.len()
    };
    join_lines(out + ls.skip(e as int)) + seq!['\n']
}

/// Replace (or with None, delete) a half-open line range. Collapses the
/// doubled blank line a deletion leaves behind.
pub fn splice(current: &str, range: (usize, usize), replacement: Option<&str>) -> (r: String)
    requires
        range.0 <= lines(current@).len(),
    ensures
        r@ == splice_spec(
            current@,
            range.0 as nat,
            range.1 as nat,
            match replacement {
                Some(x) => Some(x@),
                None => None,
            },
        ),
{
    let (start, end) = range;
    let cv = chars_of(current);
    let ls = lines_of(&cv);
    let mut out: Vec<Vec<char>> = Vec::new();
    copy_lines(&mut out, &ls, 0, start);
    assert(views(ls@).subrange(0, start as int) =~= views(ls@).take(start as int));
    match replacement {
        Some(r) => {
            let rv = chars_of(r);
            let rl = lines_of(&rv);
            copy_lines(&mut out, &rl, 0, rl.len());
            assert(views(rl@).subrange(0, rl@.len() as int) =~= views(rl@));
        },
        None => {
            if out.len() > 0 && is_blank(&out[out.len() - 1]) && (end >= ls.len() || is_blank(
                &ls[end],
            )) {
                let ghost prev = out@;
                out.pop();
                assert(views(out@) =~= views(prev).drop_last());
            }
        },
    }
    let e = if end < ls.len() {
        end
    } else {
        ls.len()
    };
    let ghost mid = views(out@);
    copy_lines(&mut out, &ls, e, ls.len());
    assert(views(ls@).subrange(e as int, ls@.len() as int) =~= views(ls@).skip(e as int));
    let joined = join_lines_of(&out, 0, out.len());
    assert(views(out@).subrange(0, out@.len() as int) =~= views(out@));
    let mut s = string_of(&joined);
    push_char(&mut s, '\n');
    s
}

// ---- the authoring verbs' text halves -----------------------------------------------

/// Index of the first block whose id is `id`, or -1.
pub open spec fn first_block(bs: Seq<BlockV>, k: int, id: Seq<char>) -> bool {
    0 <= k < bs.len() && attr_lookup(bs[k].attrs, "id"@) == Some(id) && forall|j: int|
        0 <= j < k ==> attr_lookup(#[trigger] bs[j].attrs, "id"@) != Some(id)
}

pub open spec fn find_block(bs: Seq<BlockV>, id: Seq<char>) -> int {
    if exists|k: int| #[trigger] first_block(bs, k, id) {
        choose|k: int| #[trigger] first_block(bs, k, id)
    } else {
        -1
    }
}

fn find_block_index(page: &Page, id: &str) -> (r: Option<usize>)
    ensures
        r matches Some(k) ==> k < page.blocks.len() && find_block(page@.blocks, id@) == k,
        r is None ==> find_block(page@.blocks, id@) == -1,
{
    let mut i: usize = 0;
    while i < page.blocks.len()
        invariant
            i <= page.blocks.len(),
            forall|j: int|
                0 <= j < i ==> attr_lookup(#[trigger] page@.blocks[j].attrs, "id"@) != Some(id@),
        decreases page.blocks.len() - i,
    {
        let bid = page.blocks[i].id();
        let hit = match bid {
            Some(b) => str_eq(b, id),
            None => false,
        };
        assert(page@.blocks[i as int] == page.blocks@[i as int]@);
        if hit {
            proof {
                let bs = page@.blocks;
                assert(first_block(bs, i as int, id@));
                let w = choose|k: int| #[trigger] first_block(bs, k, id@);
                assert(first_block(bs, w, id@));
                if w < i {
                } else if w > i {
                    assert(attr_lookup(bs[i as int].attrs, "id"@) != Some(id@));
                }
            }
            return Some(i);
        }
        i = i + 1;
    }
    proof {
        let bs = page@.blocks;
        assert forall|k: int| !#[trigger] first_block(bs, k, id@) by {
        }
    }
    None
}

pub open spec fn no_block_message(id: Seq<char>) -> Seq<char> {
    "no block "@ + id + " in this session"@
}

fn no_block(id: &str) -> (e: String)
    ensures
        e@ == no_block_message(id@),
{
    let mut e = String::new();
    push_str(&mut e, "no block ");
    push_str(&mut e, id);
    push_str(&mut e, " in this session");
    e
}

/// The new text `update` writes: the block's line range replaced by the
/// block re-serialized with the new body (and possibly a new type), its other
/// attributes kept.
pub open spec fn update_spec(cur: Seq<char>, id: Seq<char>, tag: Seq<char>, body: Seq<char>) -> Result<Seq<char>, Seq<char>> {
    let page = parse_spec(cur);
    let k = find_block(page.blocks, id);
    if k < 0 {
        Err(no_block_message(id))
    } else {
        let b = page.blocks[k];
        Ok(splice_spec(cur, b.lines.0, b.lines.1, Some(block_text_spec(tag, b.attrs, body))))
    }
}

fn attr_refs<'a>(attrs: &'a Vec<(String, String)>) -> (r: Vec<(&'a str, &'a str)>)
    ensures
        pairs_view(r@) == attrs_view(attrs@),
{
    let mut r: Vec<(&'a str, &'a str)> = Vec::new();
    let mut i: usize = 0;
    while i < attrs.len()
        invariant
            i <= attrs.len(),
            pairs_view(r@) == attrs_view(attrs@).take(i as int),
        decreases attrs.len() - i,
    {
        let ghost prev = r@;
        r.push((attrs[i].0.as_str(), attrs[i].1.as_str()));
        assert(pairs_view(r@) =~= pairs_view(prev).push((attrs@[i as int].0@, attrs@[i as int].1@)));
        i = i + 1;
        assert(pairs_view(r@) =~= attrs_view(attrs@).take(i as int));
    }
    assert(attrs_view(attrs@).take(attrs.len() as int) =~= attrs_view(attrs@));
    r
}

/// Replace a block's content (and possibly type) in place: splice its line
/// range, keep its other attributes. Short ids resolve within the given
/// file, which is what makes two agents both holding a `b7` harmless.
pub fn update(current: &str, short_id: &str, kind: &Kind, body: &str) -> (r: Result<String, String>)
    ensures
        match (r, update_spec(current@, short_id@, kind.tag_spec(), body@)) {
            (Ok(s), Ok(t)) => s@ == t,
            (Err(e), Err(t)) => e@ == t,
            _ => false,
        },
{
    let page = parse(current);
    match find_block_index(&page, short_id) {
        None => Err(no_block(short_id)),
        Some(k) => {
            let b = &page.blocks[k];
            let attrs = attr_refs(&b.attrs);
            let text = block_text(kind.tag_name(), attrs.as_slice(), body);
            proof {
                crate::format_laws::lemma_parse_ranges(current@);
                assert(page@.blocks[k as int] == page.blocks@[k as int]@);
            }
            Ok(splice(current, b.lines, Some(text.as_str())))
        },
    }
}

/// The new text `rm` writes: the block's lines simply leave the file.
pub open spec fn rm_spec(cur: Seq<char>, id: Seq<char>) -> Result<Seq<char>, Seq<char>> {
    let page = parse_spec(cur);
    let k = find_block(page.blocks, id);
    if k < 0 {
        Err(no_block_message(id))
    } else {
        let b = page.blocks[k];
        Ok(splice_spec(cur, b.lines.0, b.lines.1, None))
    }
}

/// Remove a block: its lines simply leave the file. No tombstone — clients
/// converge from the daemon's full-state connections.
pub fn rm(current: &str, short_id: &str) -> (r: Result<String, String>)
    ensures
        match (r, rm_spec(current@, short_id@)) {
            (Ok(s), Ok(t)) => s@ == t,
            (Err(e), Err(t)) => e@ == t,
            _ => false,
        },
{
    let page = parse(current);
    match find_block_index(&page, short_id) {
        None => Err(no_block(short_id)),
        Some(k) => {
            let b = &page.blocks[k];
            proof {
                crate::format_laws::lemma_parse_ranges(current@);
                assert(page@.blocks[k as int] == page.blocks@[k as int]@);
            }
            Ok(splice(current, b.lines, None))
        },
    }
}


// ---- authoring a new block ---------------------------------------------------------

/// A value the attribute grammar cannot hold.
pub open spec fn bad_value(v: Seq<char>) -> bool {
    v.contains('"') || v.contains('\n')
}

/// `k` is the first extra attribute whose value the grammar cannot hold.
pub open spec fn first_bad(a: Seq<(Seq<char>, Seq<char>)>, k: int) -> bool {
    0 <= k < a.len() && bad_value(a[k].1) && forall|j: int| 0 <= j < k ==> !bad_value(#[trigger] a[j].1)
}

/// The error for a bad value given on the command line as `--{flag}`.
pub open spec fn flag_message(flag: Seq<char>) -> Seq<char> {
    "--"@ + flag + ": "@ + crate::format::attr_value_message()
}

/// What `author` does to a page's text: refuse the first extra attribute the
/// grammar cannot hold, or assign the next `bN` id and append the block,
/// carrying that id first and then the extra attributes.
pub open spec fn author_spec(
    cur: Seq<char>,
    tag: Seq<char>,
    extra: Seq<(Seq<char>, Seq<char>)>,
    body: Seq<char>,
) -> Result<(Seq<char>, Seq<char>), Seq<char>> {
    if exists|k: int| first_bad(extra, k) {
        Err(flag_message(extra[choose|k: int| first_bad(extra, k)].0))
    } else {
        let id = seq!['b'] + dec(max_id(parse_spec(cur).blocks) + 1);
        Ok((id, append_block_spec(cur, block_text_spec(tag, seq![("id"@, id)] + extra, body))))
    }
}

fn flag_error(flag: &str, message: &str) -> (e: String)
    ensures
        e@ == "--"@ + flag@ + ": "@ + message@,
{
    let mut e = String::new();
    push_str(&mut e, "--");
    push_str(&mut e, flag);
    push_str(&mut e, ": ");
    push_str(&mut e, message);
    e
}

/// `sideview prose|markup|html|diff` on a page's text: the id the new block
/// gets and the page's new text. `extra` carries per-type attributes (html's
/// `--height`), each checked before anything else happens.
pub fn author(current: &str, kind: &Kind, extra: &[(&str, &str)], body: &str) -> (r: Result<(String, String), String>)
    requires
        (forall|k: int| !first_bad(pairs_view(extra@), k)) ==> max_id(parse_spec(current@).blocks)
            < u64::MAX,
    ensures
        match (r, author_spec(current@, kind.tag_spec(), pairs_view(extra@), body@)) {
            (Ok((id, s)), Ok((i2, t))) => id@ == i2 && s@ == t,
            (Err(e), Err(t)) => e@ == t,
            _ => false,
        },
{
    let ghost ex = pairs_view(extra@);
    let mut i: usize = 0;
    while i < extra.len()
        invariant
            i <= extra.len(),
            ex == pairs_view(extra@),
            forall|j: int| 0 <= j < i ==> !bad_value(#[trigger] ex[j].1),
        decreases extra.len() - i,
    {
        let (k, v) = extra[i];
        match check_attr_value(v) {
            Ok(()) => {},
            Err(m) => {
                proof {
                    assert(first_bad(ex, i as int));
                    let c = choose|c: int| first_bad(ex, c);
                    assert(c == i);
                }
                return Err(flag_error(k, m.as_str()));
            },
        }
        i = i + 1;
    }
    proof {
        assert forall|k: int| !first_bad(ex, k) by {}
    }
    let page = parse(current);
    let assigned = next_block_id(&page);
    let mut attrs: Vec<(&str, &str)> = Vec::new();
    attrs.push(("id", assigned.as_str()));
    let ghost head = seq![("id"@, assigned@)];
    assert(pairs_view(attrs@) =~= head);
    let mut j: usize = 0;
    while j < extra.len()
        invariant
            j <= extra.len(),
            ex == pairs_view(extra@),
            pairs_view(attrs@) == head + ex.take(j as int),
        decreases extra.len() - j,
    {
        let ghost prev = attrs@;
        attrs.push(extra[j]);
        assert(pairs_view(attrs@) =~= pairs_view(prev).push(ex[j as int]));
        j = j + 1;
        assert(head + ex.take(j as int) =~= (head + ex.take(j - 1)).push(ex[j - 1]));
    }
    assert(ex.take(extra.len() as int) =~= ex);
    let block = block_text(kind.tag_name(), attrs.as_slice(), body);
    let text = append_block(current.to_owned(), block.as_str());
    Ok((assigned, text))
}


// ---- page properties ---------------------------------------------------------------

/// The pairs whose key is not `key`, in order.
pub open spec fn without_key(ps: Seq<(Seq<char>, Seq<char>)>, key: Seq<char>) -> Seq<(Seq<char>, Seq<char>)>
    decreases ps.len(),
{
    if ps.len() == 0 {
        ps
    } else {
        let rest = without_key(ps.drop_last(), key);
        if ps.last().0 == key {
            rest
        } else {
            rest.push(ps.last())
        }
    }
}

/// Drop every `key` pair; then, given a value, append `key` with it.
pub open spec fn set_prop(
    ps: Seq<(Seq<char>, Seq<char>)>,
    key: Seq<char>,
    value: Option<Seq<char>>,
) -> Seq<(Seq<char>, Seq<char>)> {
    match value {
        Some(v) => without_key(ps, key).push((key, v)),
        None => without_key(ps, key),
    }
}

/// The page properties after `session set`: an empty label clears back to
/// showing the session id; scrollspy is the default outline, so it (and
/// `auto`) store as an absence and only `tabs` and `off` are written.
pub open spec fn session_props(
    ps: Seq<(Seq<char>, Seq<char>)>,
    label: Option<Seq<char>>,
    outline: Option<Seq<char>>,
) -> Seq<(Seq<char>, Seq<char>)> {
    let p1 = match label {
        Some(l) => set_prop(ps, "label"@, if l.len() == 0 { None } else { Some(l) }),
        None => ps,
    };
    match outline {
        Some(o) => set_prop(p1, "outline"@, if o == "auto"@ || o == "scrollspy"@ { None } else { Some(o) }),
        None => p1,
    }
}

/// The `<sv-page ...>` line for the given properties.
pub open spec fn page_tag(ps: Seq<(Seq<char>, Seq<char>)>) -> Seq<char> {
    "<sv-page"@ + crate::format::attrs_text(ps) + seq!['>']
}

/// A line that opens the page: `<sv-page>` or `<sv-page ...>`, trailing
/// whitespace aside.
pub open spec fn is_page_line(l: Seq<char>) -> bool {
    let t = trim_end(l);
    t == "<sv-page>"@ || (starts_with(t, "<sv-page "@) && t.len() > 0 && t.last() == '>')
}

pub open spec fn first_page_line(ls: Seq<Seq<char>>, i: int) -> bool {
    0 <= i < ls.len() && is_page_line(ls[i]) && forall|j: int| 0 <= j < i ==> !is_page_line(#[trigger] ls[j])
}

/// The text with its first page line replaced by `tag`, or, with none, `tag`
/// and a blank line put in front: the closer is optional by grammar, so
/// prepending is always safe.
pub open spec fn with_page_line(cur: Seq<char>, tag: Seq<char>) -> Seq<char> {
    let ls = lines(cur);
    if exists|i: int| first_page_line(ls, i) {
        let i = choose|i: int| first_page_line(ls, i);
        join_lines(ls.take(i).push(tag) + ls.skip(i + 1)) + seq!['\n']
    } else {
        join_lines(seq![tag, Seq::empty()] + ls) + seq!['\n']
    }
}

pub open spec fn outline_ok(o: Seq<char>) -> bool {
    o == "auto"@ || o == "scrollspy"@ || o == "tabs"@ || o == "off"@
}

pub open spec fn nothing_to_set_message() -> Seq<char> {
    "nothing to set — pass --label and/or --outline"@
}

pub open spec fn outline_message(o: Seq<char>) -> Seq<char> {
    "--outline takes `auto`, `scrollspy`, `tabs` or `off`, not "@ + crate::text::debug_str(o)
}

/// What `session_set` does to a page's text.
pub open spec fn session_set_spec(
    cur: Seq<char>,
    label: Option<Seq<char>>,
    outline: Option<Seq<char>>,
) -> Result<Seq<char>, Seq<char>> {
    if label is None && outline is None {
        Err(nothing_to_set_message())
    } else if outline matches Some(o) && !outline_ok(o) {
        Err(outline_message(outline->0))
    } else if label matches Some(l) && bad_value(l) {
        Err(flag_message("label"@))
    } else {
        Ok(with_page_line(cur, page_tag(session_props(parse_spec(cur).props, label, outline))))
    }
}

pub open spec fn opt_view(o: Option<&str>) -> Option<Seq<char>> {
    match o {
        Some(s) => Some(s@),
        None => None,
    }
}

fn without<'a>(props: &Vec<(&'a str, &'a str)>, key: &str) -> (r: Vec<(&'a str, &'a str)>)
    ensures
        pairs_view(r@) == without_key(pairs_view(props@), key@),
{
    let ghost ps = pairs_view(props@);
    let mut r: Vec<(&'a str, &'a str)> = Vec::new();
    let mut i: usize = 0;
    assert(ps.take(0) =~= Seq::<(Seq<char>, Seq<char>)>::empty());
    while i < props.len()
        invariant
            i <= props.len(),
            ps == pairs_view(props@),
            pairs_view(r@) == without_key(ps.take(i as int), key@),
        decreases props.len() - i,
    {
        let ghost pre = ps.take(i + 1);
        assert(pre.drop_last() =~= ps.take(i as int));
        assert(pre.last() == ps[i as int]);
        let (k, v) = props[i];
        if !str_eq(k, key) {
            let ghost prev = r@;
            r.push((k, v));
            assert(pairs_view(r@) =~= pairs_view(prev).push((k@, v@)));
        }
        i = i + 1;
    }
    assert(ps.take(props.len() as int) =~= ps);
    r
}

fn set_prop_in<'a>(props: &mut Vec<(&'a str, &'a str)>, key: &'a str, value: Option<&'a str>)
    ensures
        pairs_view(final(props)@) == set_prop(pairs_view(old(props)@), key@, opt_view(value)),
{
    let mut kept = without(props, key);
    match value {
        Some(v) => {
            let ghost prev = kept@;
            kept.push((key, v));
            assert(pairs_view(kept@) =~= pairs_view(prev).push((key@, v@)));
        },
        None => {},
    }
    *props = kept;
}

fn page_tag_of(props: &Vec<(&str, &str)>) -> (tag: String)
    ensures
        tag@ == page_tag(pairs_view(props@)),
{
    let ghost ps = pairs_view(props@);
    let mut tag = String::new();
    push_str(&mut tag, "<sv-page");
    let ghost start = tag@;
    let mut i: usize = 0;
    assert(ps.take(0) =~= Seq::<(Seq<char>, Seq<char>)>::empty());
    while i < props.len()
        invariant
            i <= props.len(),
            ps == pairs_view(props@),
            tag@ == start + crate::format::attrs_text(ps.take(i as int)),
        decreases props.len() - i,
    {
        let (k, v) = props[i];
        push_char(&mut tag, ' ');
        push_str(&mut tag, k);
        push_char(&mut tag, '=');
        push_char(&mut tag, '"');
        push_str(&mut tag, v);
        push_char(&mut tag, '"');
        proof {
            crate::format::lemma_attrs_text_push(ps.take(i as int), ps[i as int]);
            assert(ps.take(i + 1) =~= ps.take(i as int).push(ps[i as int]));
        }
        i = i + 1;
    }
    assert(ps.take(props.len() as int) =~= ps);
    push_char(&mut tag, '>');
    tag
}

fn page_line_test(l: &Vec<char>) -> (r: bool)
    ensures
        r == is_page_line(l@),
{
    let n = trim_end_len(l);
    proof {
        crate::text::lemma_trim_end_prefix(l@);
    }
    let t = crate::text::slice_of(l, 0, n);
    let bare = chars_of("<sv-page>");
    let open = chars_of("<sv-page ");
    eq_chars(&t, &bare) || (crate::text::has_prefix(&t, &open) && t.len() > 0 && t[t.len() - 1]
        == '>')
}

fn find_page_line(ls: &Vec<Vec<char>>) -> (r: Option<usize>)
    ensures
        r matches Some(k) ==> first_page_line(views(ls@), k as int),
        r is None ==> forall|j: int| 0 <= j < ls.len() ==> !is_page_line(#[trigger] views(ls@)[j]),
{
    let mut i: usize = 0;
    while i < ls.len()
        invariant
            i <= ls.len(),
            forall|j: int| 0 <= j < i ==> !is_page_line(#[trigger] views(ls@)[j]),
        decreases ls.len() - i,
    {
        if page_line_test(&ls[i]) {
            return Some(i);
        }
        i = i + 1;
    }
    None
}

/// `sideview session set` on a page's text: page properties live in the file
/// itself, on the `<sv-page>` line.
pub fn session_set(current: &str, label: Option<&str>, outline: Option<&str>) -> (r: Result<String, String>)
    ensures
        match (r, session_set_spec(current@, opt_view(label), opt_view(outline))) {
            (Ok(s), Ok(t)) => s@ == t,
            (Err(e), Err(t)) => e@ == t,
            _ => false,
        },
{
    if label.is_none() && outline.is_none() {
        let mut e = String::new();
        push_str(&mut e, "nothing to set — pass --label and/or --outline");
        return Err(e);
    }
    match outline {
        Some(o) => {
            if !(str_eq(o, "auto") || str_eq(o, "scrollspy") || str_eq(o, "tabs") || str_eq(o, "off")) {
                let mut e = String::new();
                push_str(&mut e, "--outline takes `auto`, `scrollspy`, `tabs` or `off`, not ");
                push_str(&mut e, crate::text::debug_quoted(o).as_str());
                return Err(e);
            }
        },
        None => {},
    }
    match label {
        Some(l) => match check_attr_value(l) {
            Ok(()) => {},
            Err(m) => {
                return Err(flag_error("label", m.as_str()));
            },
        },
        None => {},
    }
    let page = parse(current);
    let mut props = attr_refs(&page.props);
    match label {
        Some(l) => {
            let value = if l.is_empty() { None } else { Some(l) };
            set_prop_in(&mut props, "label", value);
        },
        None => {},
    }
    match outline {
        Some(o) => {
            let value = if str_eq(o, "auto") || str_eq(o, "scrollspy") { None } else { Some(o) };
            set_prop_in(&mut props, "outline", value);
        },
        None => {},
    }
    let tag = page_tag_of(&props);
    let tv = chars_of(tag.as_str());
    let cv = chars_of(current);
    let ls = lines_of(&cv);
    let found = find_page_line(&ls);
    let ghost vl = views(ls@);
    let mut out: Vec<Vec<char>> = Vec::new();
    match found {
        Some(k) => {
            assert(first_page_line(vl, k as int));
            assert(vl.len() == ls@.len());
            assert(k < ls.len());
            copy_lines(&mut out, &ls, 0, k);
            out.push(tv);
            copy_lines(&mut out, &ls, k + 1, ls.len());
            proof {
                assert(first_page_line(vl, k as int));
                let c = choose|c: int| first_page_line(vl, c);
                assert(c == k);
                assert(views(out@) =~= vl.take(k as int).push(tag@) + vl.skip(k + 1));
            }
        },
        None => {
            out.push(tv);
            out.push(Vec::new());
            copy_lines(&mut out, &ls, 0, ls.len());
            proof {
                assert forall|c: int| !first_page_line(vl, c) by {}
                assert(views(out@) =~= seq![tag@, Seq::<char>::empty()] + vl);
            }
        },
    }
    let joined = join_lines_of(&out, 0, out.len());
    assert(views(out@).subrange(0, out@.len() as int) =~= views(out@));
    let mut s = string_of(&joined);
    push_char(&mut s, '\n');
    Ok(s)
}

// ---- editing from the page -------------------------------------------------------------

/// What the page's editor opens with: a block's tag and raw source, found
/// by id in the page's current text.
pub open spec fn block_source_spec(cur: Seq<char>, id: Seq<char>) -> Option<(Seq<char>, Seq<char>)> {
    let page = parse_spec(cur);
    let k = find_block(page.blocks, id);
    if k < 0 {
        None
    } else {
        Some((page.blocks[k].tag_name, page.blocks[k].body))
    }
}

pub fn block_source(current: &str, id: &str) -> (r: Option<(String, String)>)
    ensures
        match r {
            Some((t, b)) => block_source_spec(current@, id@) == Some((t@, b@)),
            None => block_source_spec(current@, id@) is None,
        },
{
    let page = parse(current);
    match find_block_index(&page, id) {
        None => None,
        Some(k) => {
            let mut t = String::new();
            push_str(&mut t, page.blocks[k].tag_name.as_str());
            let mut b = String::new();
            push_str(&mut b, page.blocks[k].body.as_str());
            assert(page@.blocks[k as int] == page.blocks@[k as int]@);
            Some((t, b))
        },
    }
}

/// Why the page's direct edit is refused.
#[derive(Debug)]
pub enum EditRefusal {
    /// No block with that id.
    NoBlock,
    /// Only prose splices directly: an unclosed tag breaks an html block,
    /// so everything else arrives as an edit request instead.
    NotProse,
}

/// The page's direct splice: a prose block's body replaced in place, its
/// attributes kept, every other byte of the file untouched.
pub open spec fn prose_edit_spec(cur: Seq<char>, id: Seq<char>, body: Seq<char>) -> Result<Seq<char>, EditRefusal> {
    let page = parse_spec(cur);
    let k = find_block(page.blocks, id);
    if k < 0 {
        Err(EditRefusal::NoBlock)
    } else if page.blocks[k].tag_name != "sv-prose"@ {
        Err(EditRefusal::NotProse)
    } else {
        let b = page.blocks[k];
        Ok(splice_spec(cur, b.lines.0, b.lines.1, Some(block_text_spec("sv-prose"@, b.attrs, body))))
    }
}

pub fn prose_edit(current: &str, id: &str, body: &str) -> (r: Result<String, EditRefusal>)
    ensures
        match (r, prose_edit_spec(current@, id@, body@)) {
            (Ok(s), Ok(t)) => s@ == t,
            (Err(EditRefusal::NoBlock), Err(EditRefusal::NoBlock)) => true,
            (Err(EditRefusal::NotProse), Err(EditRefusal::NotProse)) => true,
            _ => false,
        },
{
    let page = parse(current);
    match find_block_index(&page, id) {
        None => Err(EditRefusal::NoBlock),
        Some(k) => {
            let b = &page.blocks[k];
            assert(page@.blocks[k as int] == page.blocks@[k as int]@);
            if !str_eq(b.tag_name.as_str(), "sv-prose") {
                return Err(EditRefusal::NotProse);
            }
            let attrs = attr_refs(&b.attrs);
            let text = block_text("sv-prose", attrs.as_slice(), body);
            proof {
                crate::format_laws::lemma_parse_ranges(current@);
            }
            Ok(splice(current, b.lines, Some(text.as_str())))
        },
    }
}

} // verus!
