//! Which session am I? Load-bearing now that one daemon hosts many sessions:
//! get this wrong and two concurrent agents merge into one page. The chain
//! is decided here from values the caller read out of the environment.

use vstd::prelude::*;

use vstd::utf8::encode_utf8;

use crate::text::{push_char, push_str};

verus! {

/// The answer to "which session": the id, and which rung of the chain
/// matched (recorded on the session row).
pub struct Resolved {
    pub id: String,
    pub detected_from: &'static str,
}

/// The chain's answer, rung by rung: first match wins.
pub open spec fn resolve_spec(
    explicit: Option<Seq<char>>,
    sideview_session: Option<Seq<char>>,
    claude_session: Option<Seq<char>>,
    tmux_pane: Option<Seq<char>>,
    cwd: Seq<char>,
) -> (Seq<char>, Seq<char>) {
    if explicit is Some {
        (explicit->0, "flag"@)
    } else if sideview_session is Some && sideview_session->0.len() > 0 {
        (sideview_session->0, "env"@)
    } else if claude_session is Some && claude_session->0.len() > 0 {
        (claude_session->0, "agent"@)
    } else if tmux_pane is Some && tmux_pane->0.len() > 0 {
        ("tmux"@ + tmux_pane->0, "tmux"@)
    } else {
        ("cwd:"@ + cwd, "cwd"@)
    }
}

pub open spec fn opt_str(o: Option<&str>) -> Option<Seq<char>> {
    match o {
        Some(s) => Some(s@),
        None => None,
    }
}

/// First match wins: an explicit `--session`, then `$SIDEVIEW_SESSION`, then
/// `$CLAUDE_CODE_SESSION_ID` (subagents arrive with their parent's id, so
/// their blocks land in the parent's page), then `$TMUX_PANE`, then the
/// working directory. Empty variables count as unset. The controlling tty is
/// deliberately not on this list: agent shell calls have none.
pub fn resolve(
    explicit: Option<&str>,
    sideview_session: Option<&str>,
    claude_session: Option<&str>,
    tmux_pane: Option<&str>,
    cwd: &str,
) -> (r: Resolved)
    ensures
        (r.id@, r.detected_from@) == resolve_spec(
            opt_str(explicit),
            opt_str(sideview_session),
            opt_str(claude_session),
            opt_str(tmux_pane),
            cwd@,
        ),
{
    if let Some(id) = explicit {
        return Resolved { id: id.to_owned(), detected_from: "flag" };
    }
    if let Some(id) = sideview_session {
        if !id.is_empty() {
            return Resolved { id: id.to_owned(), detected_from: "env" };
        }
    }
    if let Some(id) = claude_session {
        if !id.is_empty() {
            return Resolved { id: id.to_owned(), detected_from: "agent" };
        }
    }
    if let Some(pane) = tmux_pane {
        if !pane.is_empty() {
            let mut id = String::new();
            push_str(&mut id, "tmux");
            push_str(&mut id, pane);
            return Resolved { id, detected_from: "tmux" };
        }
    }
    let mut id = String::new();
    push_str(&mut id, "cwd:");
    push_str(&mut id, cwd);
    Resolved { id, detected_from: "cwd" }
}

// ---- encoding ids ------------------------------------------------------------------

/// RFC 3986's unreserved bytes: ASCII letters and digits, `-`, `.`, `_`, `~`.
pub open spec fn unreserved(b: u8) -> bool {
    (0x30 <= b <= 0x39) || (0x41 <= b <= 0x5a) || (0x61 <= b <= 0x7a) || b == 0x2d || b == 0x2e
        || b == 0x5f || b == 0x7e
}

/// An uppercase hexadecimal digit.
pub open spec fn hex_upper(d: u8) -> char {
    if d < 10 {
        ((d + 0x30) as u8) as char
    } else {
        ((d - 10 + 0x41) as u8) as char
    }
}

/// `%XX`, uppercase.
pub open spec fn pct_byte(b: u8) -> Seq<char> {
    seq!['%', hex_upper(b / 16), hex_upper(b % 16)]
}

/// Every byte outside the unreserved set written as `%XX`.
pub open spec fn pct_encode(bs: Seq<u8>) -> Seq<char>
    decreases bs.len(),
{
    if bs.len() == 0 {
        Seq::empty()
    } else {
        pct_encode(bs.drop_last()) + if unreserved(bs.last()) {
            seq![bs.last() as char]
        } else {
            pct_byte(bs.last())
        }
    }
}

/// `percent_encoding::percent_encode_byte`: the three-character `%XX` form of
/// a byte, uppercase hex, looked up from the crate's table.
pub assume_specification[ percent_encoding::percent_encode_byte ](byte: u8) -> (r: &'static str)
    ensures
        r@ == pct_byte(byte),
;

/// Session ids appear as URL path segments and as page file names, and the
/// cwd and tmux rungs produce ids containing `/` and `%`. Every UTF-8 byte
/// outside RFC 3986's unreserved set is encoded — over-encoding is harmless,
/// a raw slash is not, and the same encoding serving both uses means the file
/// for a session is recognizable from its URL.
pub fn encode(id: &str) -> (r: String)
    ensures
        r@ == pct_encode(encode_utf8(id@)),
{
    let bytes = id.as_bytes();
    let mut r = String::new();
    let mut i: usize = 0;
    while i < bytes.len()
        invariant
            i <= bytes.len(),
            bytes@ == encode_utf8(id@),
            r@ == pct_encode(bytes@.take(i as int)),
        decreases bytes.len() - i,
    {
        let b = bytes[i];
        assert(bytes@.take(i + 1).drop_last() =~= bytes@.take(i as int));
        if (0x30 <= b && b <= 0x39) || (0x41 <= b && b <= 0x5a) || (0x61 <= b && b <= 0x7a) || b
            == 0x2d || b == 0x2e || b == 0x5f || b == 0x7e {
            push_char(&mut r, b as char);
        } else {
            push_str(&mut r, percent_encoding::percent_encode_byte(b));
        }
        i = i + 1;
    }
    assert(bytes@.take(bytes.len() as int) =~= bytes@);
    r
}

/// A page or block id as a URL path segment: the same encoding as
/// `encode`, so a printed link and a page file name agree.
pub fn encode_id(id: &str) -> (r: String)
    ensures
        r@ == pct_encode(encode_utf8(id@)),
{
    encode(id)
}

/// Where the store lives, relative to the project root.
pub open spec fn dir_name() -> Seq<char> {
    ".sideview"@
}

/// The throwaway page file for a session, relative to the project root: a
/// pure function of the session id, findable with no registry at all.
pub open spec fn page_rel_path_spec(id: Seq<char>) -> Seq<char> {
    dir_name() + "/pages/"@ + pct_encode(encode_utf8(id)) + ".sv"@
}

pub fn page_rel_path(id: &str) -> (r: String)
    ensures
        r@ == page_rel_path_spec(id@),
{
    let mut r = String::new();
    push_str(&mut r, ".sideview");
    push_str(&mut r, "/pages/");
    push_str(&mut r, encode(id).as_str());
    push_str(&mut r, ".sv");
    r
}

// ---- encoding is reversible -------------------------------------------------------

/// The value of an uppercase hex digit.
pub open spec fn hex_value(c: char) -> int {
    if c as int <= 0x39 {
        c as int - 0x30
    } else {
        c as int - 0x41 + 10
    }
}

/// Reading an encoding back, from its end: `%XX` is the byte it spells, any
/// other character is its own byte.
pub open spec fn pct_decode_spec(s: Seq<char>) -> Seq<u8>
    decreases s.len(),
{
    if s.len() >= 3 && s[s.len() - 3] == '%' {
        pct_decode_spec(s.take(s.len() - 3)).push((hex_value(s[s.len() - 2]) * 16 + hex_value(s.last())) as u8)
    } else if s.len() > 0 {
        pct_decode_spec(s.drop_last()).push(s.last() as u8)
    } else {
        Seq::empty()
    }
}

proof fn lemma_hex_upper(d: u8)
    requires
        d < 16,
    ensures
        hex_value(hex_upper(d)) == d as int,
        hex_upper(d) != '%',
{
}

proof fn lemma_no_trailing_pct(bs: Seq<u8>)
    ensures
        pct_encode(bs).len() >= 1 ==> pct_encode(bs).last() != '%',
        pct_encode(bs).len() >= 2 ==> pct_encode(bs)[pct_encode(bs).len() - 2] != '%',
    decreases bs.len(),
{
    if bs.len() > 0 {
        lemma_no_trailing_pct(bs.drop_last());
        let b = bs.last();
        if !unreserved(b) {
            lemma_hex_upper(b / 16);
            lemma_hex_upper(b % 16);
        }
    }
}

/// Decoding an encoding gives back the bytes.
pub proof fn lemma_pct_round_trip(bs: Seq<u8>)
    ensures
        pct_decode_spec(pct_encode(bs)) == bs,
    decreases bs.len(),
{
    if bs.len() > 0 {
        let p = pct_encode(bs.drop_last());
        let b = bs.last();
        lemma_pct_round_trip(bs.drop_last());
        lemma_no_trailing_pct(bs.drop_last());
        let s = pct_encode(bs);
        if unreserved(b) {
            assert(s == p.push(b as char));
            assert(s.drop_last() =~= p);
            if s.len() >= 3 {
                assert(s[s.len() - 3] == p[p.len() - 2]);
            }
            assert((b as char) as u8 == b);
        } else {
            lemma_hex_upper(b / 16);
            lemma_hex_upper(b % 16);
            assert(s == p + pct_byte(b));
            assert(s[s.len() - 3] == '%');
            assert(s.take(s.len() - 3) =~= p);
            assert(((b / 16) as int) * 16 + ((b % 16) as int) == b as int);
        }
        assert(pct_decode_spec(s) =~= bs);
    }
}

/// Different session ids never share a page file: the encoding of an id
/// (its UTF-8 bytes, percent-encoded) reads back as that id alone, so the
/// file a session writes to is a pure, collision-free function of it.
pub proof fn lemma_page_paths_are_distinct(a: Seq<char>, b: Seq<char>)
    requires
        page_rel_path_spec(a) == page_rel_path_spec(b),
    ensures
        a == b,
{
    let ea = pct_encode(encode_utf8(a));
    let eb = pct_encode(encode_utf8(b));
    let pre = dir_name() + "/pages/"@;
    let suf = ".sv"@;
    assert(page_rel_path_spec(a) == pre + ea + suf);
    assert(page_rel_path_spec(b) == pre + eb + suf);
    assert((pre + ea + suf).len() == (pre + eb + suf).len());
    assert(ea.len() == eb.len());
    assert forall|i: int| 0 <= i < ea.len() implies ea[i] == eb[i] by {
        assert((pre + ea + suf)[pre.len() + i] == ea[i]);
        assert((pre + eb + suf)[pre.len() + i] == eb[i]);
    }
    assert(ea =~= eb);
    lemma_pct_round_trip(encode_utf8(a));
    lemma_pct_round_trip(encode_utf8(b));
    vstd::utf8::encode_utf8_decode_utf8(a);
    vstd::utf8::encode_utf8_decode_utf8(b);
}

/// A session's page file names its session: the file name's stem is the
/// id's encoding, and decoding that stem (percent escapes back to bytes,
/// the bytes read as UTF-8) gives the id back.
pub proof fn lemma_page_path_stem_decodes(id: Seq<char>)
    ensures
        ({
            let path = page_rel_path_spec(id);
            let start = (dir_name() + "/pages/"@).len() as int;
            let stem = path.subrange(start, path.len() - 3);
            &&& stem == pct_encode(encode_utf8(id))
            &&& vstd::utf8::decode_utf8(pct_decode_spec(stem)) == id
        }),
{
    let pre = dir_name() + "/pages/"@;
    let e = pct_encode(encode_utf8(id));
    let path = page_rel_path_spec(id);
    reveal_strlit(".sv");
    assert(path == pre + e + ".sv"@);
    assert(path.subrange(pre.len() as int, path.len() - 3) =~= e);
    lemma_pct_round_trip(encode_utf8(id));
    vstd::utf8::encode_utf8_decode_utf8(id);
}

} // verus!
