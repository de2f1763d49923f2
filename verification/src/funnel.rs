//! Reading what `tailscale funnel` printed, for `sideview share`. The
//! tailscale CLI is its only scriptable interface; the caller runs it (a
//! fixed argv, no shell, a few seconds at most) and hands what it printed
//! here. At each one-time consent gate the answer is the exact command or
//! admin URL to print — never a sudo, never an opened console.

use vstd::prelude::*;

use crate::text::{
    chars_of, contains_sub, has_sub, lines, lines_of, push_str, starts_with, string_of_range, trim,
    trim_end_pos, trim_start_pos, views,
};

verus! {

/// What the funnel check came back with.
pub enum Funnel {
    /// Serving: the public base URL, no trailing slash.
    Up(String),
    /// A gate the user must clear first — the instruction, ready to print.
    Blocked(String),
}

pub enum FunnelV {
    Up(Seq<char>),
    Blocked(Seq<char>),
}

pub open spec fn funnel_view(f: Funnel) -> FunnelV {
    match f {
        Funnel::Up(u) => FunnelV::Up(u@),
        Funnel::Blocked(m) => FunnelV::Blocked(m@),
    }
}

/// A line announcing the public URL.
pub open spec fn is_url_line(l: Seq<char>) -> bool {
    starts_with(l, "https://"@) && has_sub(l, ".ts.net"@)
}

/// The first trimmed line satisfying `is_url_line` (or, with `any_https`,
/// merely starting with `https://`), by index.
pub open spec fn first_line(ls: Seq<Seq<char>>, k: int, any_https: bool) -> bool {
    &&& 0 <= k < ls.len()
    &&& (if any_https { starts_with(trim(ls[k]), "https://"@) } else { is_url_line(trim(ls[k])) })
    &&& forall|j: int| 0 <= j < k ==> !(if any_https {
        starts_with(trim(#[trigger] ls[j]), "https://"@)
    } else {
        is_url_line(trim(ls[j]))
    })
}

/// `trim_end_matches('/')`.
pub open spec fn trim_slashes(s: Seq<char>) -> Seq<char>
    decreases s.len(),
{
    if s.len() > 0 && s.last() == '/' {
        trim_slashes(s.drop_last())
    } else {
        s
    }
}

pub open spec fn not_enabled_message(visit: Seq<char>) -> Seq<char> {
    "Funnel is not enabled on your tailnet (a one-time admin consent).\nEnable it at:\n  "@ + visit
        + "\nthen run this command again."@
}

pub open spec fn operator_message() -> Seq<char> {
    "tailscaled takes serve configs only from root or its operator (one-time):\n  sudo tailscale set --operator=$USER\nthen run this command again."@
}

pub open spec fn timeout_message() -> Seq<char> {
    "tailscale funnel did not come up within 5s — is tailscaled running and logged in? (`tailscale status`)"@
}

/// Reading of the command's output: a public URL when the share is live;
/// otherwise the consent step the output points at; otherwise a timeout
/// when the process never exited by itself; otherwise the raw output.
pub open spec fn judge_spec(text: Seq<char>, exited: bool) -> FunnelV {
    let ls = lines(text);
    if exists|k: int| first_line(ls, k, false) {
        FunnelV::Up(trim_slashes(trim(ls[choose|k: int| first_line(ls, k, false)])))
    } else if has_sub(text, "not enabled"@) {
        let visit = if exists|k: int| first_line(ls, k, true) {
            trim(ls[choose|k: int| first_line(ls, k, true)])
        } else {
            "the Tailscale admin console"@
        };
        FunnelV::Blocked(not_enabled_message(visit))
    } else if has_sub(text, "Access denied"@) || has_sub(text, "operator"@) {
        FunnelV::Blocked(operator_message())
    } else if !exited {
        FunnelV::Blocked(timeout_message())
    } else {
        FunnelV::Blocked("tailscale funnel answered unexpectedly:\n"@ + trim(text))
    }
}

fn trimmed_line(l: &Vec<char>) -> (r: Vec<char>)
    ensures
        r@ == trim(l@),
{
    let te = trim_end_pos(l, 0, l.len());
    let ts = trim_start_pos(l, 0, te);
    assert(l@.subrange(0, l@.len() as int) =~= l@);
    crate::text::slice_of(l, ts, te)
}

fn find_line(ls: &Vec<Vec<char>>, any_https: bool) -> (r: Option<Vec<char>>)
    ensures
        r matches Some(t) ==> exists|k: int| first_line(views(ls@), k, any_https) && t@ == trim(views(ls@)[k]),
        r is None ==> forall|k: int| !first_line(views(ls@), k, any_https),
{
    let https = chars_of("https://");
    let ts = chars_of(".ts.net");
    let mut i: usize = 0;
    while i < ls.len()
        invariant
            i <= ls.len(),
            https@ == "https://"@,
            ts@ == ".ts.net"@,
            forall|j: int| 0 <= j < i ==> !(if any_https {
                starts_with(trim(#[trigger] views(ls@)[j]), "https://"@)
            } else {
                is_url_line(trim(views(ls@)[j]))
            }),
        decreases ls.len() - i,
    {
        let t = trimmed_line(&ls[i]);
        let hit = if any_https {
            crate::text::has_prefix(&t, &https)
        } else {
            crate::text::has_prefix(&t, &https) && contains_sub(&t, &ts)
        };
        if hit {
            assert(first_line(views(ls@), i as int, any_https));
            return Some(t);
        }
        i = i + 1;
    }
    None
}

fn contains_str(v: &Vec<char>, p: &str) -> (r: bool)
    ensures
        r == has_sub(v@, p@),
{
    let pv = chars_of(p);
    contains_sub(v, &pv)
}

/// The pure half of the funnel check, testable against captured
/// output.
pub fn judge(text: &str, exited: bool) -> (r: Funnel)
    ensures
        funnel_view(r) == judge_spec(text@, exited),
{
    let v = chars_of(text);
    let ls = lines_of(&v);
    let ghost lv = views(ls@);
    match find_line(&ls, false) {
        Some(url) => {
            proof {
                let k = choose|k: int| first_line(lv, k, false);
                let w = choose|w: int| first_line(lv, w, false) && url@ == trim(lv[w]);
                assert(k == w) by {
                    if k < w {
                        assert(!is_url_line(trim(lv[k])));
                    } else if w < k {
                        assert(!is_url_line(trim(lv[w])));
                    }
                }
            }
            let mut n = url.len();
            assert(url@.subrange(0, url@.len() as int) =~= url@);
            while n > 0 && url[n - 1] == '/'
                invariant
                    n <= url.len(),
                    trim_slashes(url@) == trim_slashes(url@.subrange(0, n as int)),
                decreases n,
            {
                assert(url@.subrange(0, n as int).drop_last() =~= url@.subrange(0, n - 1));
                n = n - 1;
            }
            assert(url@.subrange(0, url@.len() as int) =~= url@);
            return Funnel::Up(string_of_range(&url, 0, n));
        },
        None => {},
    }
    if contains_str(&v, "not enabled") {
        let mut msg = String::new();
        push_str(&mut msg, "Funnel is not enabled on your tailnet (a one-time admin consent).\nEnable it at:\n  ");
        match find_line(&ls, true) {
            Some(u) => {
                proof {
                    let k = choose|k: int| first_line(lv, k, true);
                    let w = choose|w: int| first_line(lv, w, true) && u@ == trim(lv[w]);
                    assert(k == w) by {
                        if k < w {
                            assert(!starts_with(trim(lv[k]), "https://"@));
                        } else if w < k {
                            assert(!starts_with(trim(lv[w]), "https://"@));
                        }
                    }
                }
                push_str(&mut msg, crate::text::string_of(&u).as_str());
            },
            None => {
                push_str(&mut msg, "the Tailscale admin console");
            },
        }
        push_str(&mut msg, "\nthen run this command again.");
        return Funnel::Blocked(msg);
    }
    if contains_str(&v, "Access denied") || contains_str(&v, "operator") {
        let mut msg = String::new();
        push_str(
            &mut msg,
            "tailscaled takes serve configs only from root or its operator (one-time):\n  sudo tailscale set --operator=$USER\nthen run this command again.",
        );
        return Funnel::Blocked(msg);
    }
    if !exited {
        let mut msg = String::new();
        push_str(
            &mut msg,
            "tailscale funnel did not come up within 5s — is tailscaled running and logged in? (`tailscale status`)",
        );
        return Funnel::Blocked(msg);
    }
    let mut msg = String::new();
    push_str(&mut msg, "tailscale funnel answered unexpectedly:\n");
    let t = trimmed_line(&v);
    push_str(&mut msg, crate::text::string_of(&t).as_str());
    Funnel::Blocked(msg)
}

/// What `sideview share --off` reports: tailscale's own words, trimmed, or
/// a plain "funnel off" when it printed nothing.
pub fn off_report(stdout: &str, stderr: &str) -> (r: String)
    ensures
        r@ == if trim(stdout@ + stderr@).len() == 0 {
            "funnel off"@
        } else {
            trim(stdout@ + stderr@)
        },
{
    let mut all = String::new();
    push_str(&mut all, stdout);
    push_str(&mut all, stderr);
    let v = chars_of(all.as_str());
    let t = trimmed_line(&v);
    if t.len() == 0 {
        let mut r = String::new();
        push_str(&mut r, "funnel off");
        r
    } else {
        crate::text::string_of(&t)
    }
}

} // verus!
