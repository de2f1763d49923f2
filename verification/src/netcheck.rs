//! Can a socket bound here be reached from outside? Never "am I in a
//! sandbox" — the property is directly observable: a namespace with no
//! non-loopback interface and no routes makes a daemon unreachable by
//! definition. The caller reads the system (`/proc`, the interface list);
//! what the readings mean is decided here. A false positive costs one
//! printed line, a false negative an afternoon, so the rules prefer refusing.

use vstd::prelude::*;

use crate::text::{
    chars_of, dec, is_ws, lines, lines_of, parse_unsigned, push_dec, push_str, trim, views,
};

verus! {

/// The kernel's boundary between the initial and dynamically-created
/// namespaces. Real, but an internal detail — never leaned on alone.
pub const DYNAMIC_NS_BOUNDARY: u64 = 4_026_531_840;

pub struct Verdict {
    /// The inode of the process's network namespace, recorded on the daemon
    /// row so a later invocation can tell whether the row describes a daemon
    /// in its own namespace.
    pub netns: Option<u64>,
    pub reachable: bool,
    /// Why not, when not — for the printed message.
    pub reasons: Vec<String>,
}

/// Every reason the readings give, in a fixed order.
pub open spec fn reasons_spec(
    netns: Option<u64>,
    non_loopback: Option<usize>,
    has_routes: Option<bool>,
    pid1_comm: Option<Seq<char>>,
    single_uid: bool,
) -> Seq<Seq<char>> {
    let r1: Seq<Seq<char>> = if non_loopback == Some(0usize) {
        seq!["no non-loopback network interface"@]
    } else {
        Seq::empty()
    };
    let r2 = if has_routes == Some(false) {
        r1.push("no routes"@)
    } else {
        r1
    };
    let r3 = match netns {
        Some(i) => if i >= DYNAMIC_NS_BOUNDARY {
            r2.push("dynamically-created network namespace ("@ + dec(i as nat) + ")"@)
        } else {
            r2
        },
        None => r2,
    };
    let r4 = match pid1_comm {
        Some(c) => if trim(c) == "bwrap"@ {
            r3.push("pid 1 is bwrap"@)
        } else {
            r3
        },
        None => r3,
    };
    if single_uid {
        r4.push("uid_map maps a single uid"@)
    } else {
        r4
    }
}

fn push_reason(reasons: &mut Vec<String>, text: &str)
    ensures
        crate::format::strs_view(final(reasons)@) == crate::format::strs_view(old(reasons)@).push(text@),
{
    let ghost prev = reasons@;
    let mut s = String::new();
    push_str(&mut s, text);
    reasons.push(s);
    assert(crate::format::strs_view(reasons@) =~= crate::format::strs_view(prev).push(text@));
}

/// The verdict from the readings: the namespace inode, the count of
/// non-loopback interfaces and whether any route exists (none where they
/// could not be read), `/proc/1/comm`, and whether the uid map maps a
/// single uid. Reachable exactly when no reason turned up.
pub fn verdict(
    netns: Option<u64>,
    non_loopback: Option<usize>,
    has_routes: Option<bool>,
    pid1_comm: Option<&str>,
    single_uid: bool,
) -> (v: Verdict)
    ensures
        v.netns == netns,
        crate::format::strs_view(v.reasons@) == reasons_spec(netns, non_loopback, has_routes, crate::session::opt_str(pid1_comm), single_uid),
        v.reachable == (v.reasons.len() == 0),
{
    let mut reasons: Vec<String> = Vec::new();
    assert(crate::format::strs_view(reasons@) =~= Seq::<Seq<char>>::empty());
    if non_loopback == Some(0usize) {
        push_reason(&mut reasons, "no non-loopback network interface");
        assert(crate::format::strs_view(reasons@) =~= seq!["no non-loopback network interface"@]);
    }
    if has_routes == Some(false) {
        push_reason(&mut reasons, "no routes");
    }
    match netns {
        Some(inode) => {
            if inode >= DYNAMIC_NS_BOUNDARY {
                let mut s = String::new();
                push_str(&mut s, "dynamically-created network namespace (");
                push_dec(&mut s, inode);
                push_str(&mut s, ")");
                push_reason(&mut reasons, s.as_str());
            }
        },
        None => {},
    }
    match pid1_comm {
        Some(c) => {
            let v = chars_of(c);
            let te = crate::text::trim_end_pos(&v, 0, v.len());
            let ts = crate::text::trim_start_pos(&v, 0, te);
            assert(v@.subrange(0, v@.len() as int) =~= v@);
            let t = crate::text::slice_of(&v, ts, te);
            let w = chars_of("bwrap");
            if crate::text::eq_chars(&t, &w) {
                push_reason(&mut reasons, "pid 1 is bwrap");
            }
        },
        None => {},
    }
    if single_uid {
        push_reason(&mut reasons, "uid_map maps a single uid");
    }
    let reachable = reasons.len() == 0;
    Verdict { netns, reachable, reasons }
}

// ---- readings ----------------------------------------------------------------------

/// The inode in a `net:[4026531833]` namespace link.
pub open spec fn netns_of_link(target: Seq<char>) -> Option<nat> {
    if target.len() >= 6 && target.take(5) == "net:["@ && target.last() == ']' {
        parse_unsigned(target.subrange(5, target.len() - 1), u64::MAX as nat)
    } else {
        None
    }
}

pub fn netns_inode(target: &str) -> (r: Option<u64>)
    ensures
        match r {
            Some(n) => netns_of_link(target@) == Some(n as nat),
            None => netns_of_link(target@) is None,
        },
{
    let v = chars_of(target);
    if v.len() < 6 || v[v.len() - 1] != ']' {
        return None;
    }
    let p = chars_of("net:[");
    if !crate::text::range_eq(&v, 0, 5, &p) {
        assert(v@.take(5) =~= v@.subrange(0, 5));
        return None;
    }
    assert(v@.take(5) =~= v@.subrange(0, 5));
    crate::text::parse_u64_range(&v, 5, v.len() - 1)
}

/// `/proc/net/route` is a header line plus one line per route: any
/// non-blank line after the first.
pub open spec fn routes_in(content: Seq<char>) -> bool {
    exists|i: int| 1 <= i < lines(content).len() && #[trigger] trim(lines(content)[i]).len() > 0
}

pub fn has_routes(content: &str) -> (r: bool)
    ensures
        r == routes_in(content@),
{
    let v = chars_of(content);
    let ls = lines_of(&v);
    let ghost lv = views(ls@);
    let mut i: usize = 1;
    while i < ls.len()
        invariant
            1 <= i,
            lv == views(ls@),
            lv == lines(content@),
            forall|k: int| 1 <= k < i && k < lv.len() ==> !(#[trigger] trim(lv[k]).len() > 0),
        decreases ls.len() - i,
    {
        let l = &ls[i];
        let te = crate::text::trim_end_pos(l, 0, l.len());
        let ts = crate::text::trim_start_pos(l, 0, te);
        assert(l@.subrange(0, l@.len() as int) =~= l@);
        if ts < te {
            assert(trim(lv[i as int]).len() > 0);
            return true;
        }
        i = i + 1;
    }
    false
}

/// Whitespace-separated words, read left to right: the words finished and
/// the one being read.
pub open spec fn words_acc(s: Seq<char>) -> (Seq<Seq<char>>, Seq<char>)
    decreases s.len(),
{
    if s.len() == 0 {
        (Seq::empty(), Seq::empty())
    } else {
        let (ws, cur) = words_acc(s.drop_last());
        if is_ws(s.last()) {
            if cur.len() > 0 {
                (ws.push(cur), Seq::empty())
            } else {
                (ws, cur)
            }
        } else {
            (ws, cur.push(s.last()))
        }
    }
}

/// `split_whitespace`.
pub open spec fn words(s: Seq<char>) -> Seq<Seq<char>> {
    let (ws, cur) = words_acc(s);
    if cur.len() > 0 {
        ws.push(cur)
    } else {
        ws
    }
}

pub fn words_of_chars(v: &Vec<char>) -> (r: Vec<Vec<char>>)
    ensures
        views(r@) == words(v@),
{
    let mut ws: Vec<Vec<char>> = Vec::new();
    let mut cur: Vec<char> = Vec::new();
    let mut i: usize = 0;
    assert(v@.take(0) =~= Seq::<char>::empty());
    while i < v.len()
        invariant
            i <= v.len(),
            (views(ws@), cur@) == words_acc(v@.take(i as int)),
        decreases v.len() - i,
    {
        assert(v@.take(i + 1).drop_last() =~= v@.take(i as int));
        let c = v[i];
        if crate::text::is_whitespace(c) {
            if cur.len() > 0 {
                let ghost prev = ws@;
                let mut done: Vec<char> = Vec::new();
                std::mem::swap(&mut done, &mut cur);
                ws.push(done);
                assert(views(ws@) =~= views(prev).push(views(ws@).last()));
                assert(cur@ =~= Seq::<char>::empty());
            }
        } else {
            cur.push(c);
        }
        i = i + 1;
    }
    assert(v@.take(v.len() as int) =~= v@);
    if cur.len() > 0 {
        let ghost prev = ws@;
        ws.push(cur);
        assert(views(ws@) =~= views(prev).push(views(ws@).last()));
    }
    ws
}

/// A uid map of exactly one line whose third field (the count) is `1`.
pub open spec fn single_uid_spec(map: Seq<char>) -> bool {
    lines(map).len() == 1 && words(lines(map)[0]).len() > 2 && words(lines(map)[0])[2] == seq!['1']
}

pub fn single_uid_map(map: &str) -> (r: bool)
    ensures
        r == single_uid_spec(map@),
{
    let v = chars_of(map);
    let ls = lines_of(&v);
    if ls.len() != 1 {
        return false;
    }
    let ws = words_of_chars(&ls[0]);
    if ws.len() <= 2 {
        return false;
    }
    let w = &ws[2];
    let r = w.len() == 1 && w[0] == '1';
    if r {
        assert(w@ =~= seq!['1']);
    }
    r
}

/// Tailscale's CGNAT range, 100.64.0.0/10.
pub open spec fn tailnet_v4(o: [u8; 4]) -> bool {
    o[0] == 100 && 64 <= o[1] < 128
}

/// Tailscale's v6 ULA, fd7a:115c:a1e0::/48.
pub open spec fn tailnet_v6(s: [u16; 8]) -> bool {
    s[0] == 0xfd7a && s[1] == 0x115c && s[2] == 0xa1e0
}

/// An address worth binding beyond loopback under `--bind auto` — detected
/// by address range, never by interface name.
pub fn is_tailnet_v4(o: [u8; 4]) -> (r: bool)
    ensures
        r == tailnet_v4(o),
{
    o[0] == 100 && 64 <= o[1] && o[1] < 128
}

pub fn is_tailnet_v6(s: [u16; 8]) -> (r: bool)
    ensures
        r == tailnet_v6(s),
{
    s[0] == 0xfd7a && s[1] == 0x115c && s[2] == 0xa1e0
}

} // verus!
