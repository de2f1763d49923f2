//! Which agent harnesses the skill is installed for, where it goes in each,
//! and how its state is reported. The harness table (each harness's name
//! and its skills directory under `$HOME`) is the caller's, as is looking at
//! `$HOME`, `$PATH` and the files; it hands over what it found. The first
//! harness of the table is the default one, installed for even when absent.

use vstd::prelude::*;

use crate::format::strs_view;
use crate::text::{push_str, str_eq};

verus! {

/// Where a harness keeps the skill, relative to `$HOME`.
pub open spec fn skill_rel_spec(skills_dir: Seq<char>) -> Seq<char> {
    skills_dir + "/sideview/SKILL.md"@
}

pub fn skill_rel(skills_dir: &str) -> (r: String)
    ensures
        r@ == skill_rel_spec(skills_dir@),
{
    let mut r = String::new();
    push_str(&mut r, skills_dir);
    push_str(&mut r, "/sideview/SKILL.md");
    r
}

/// The refusal of a harness name the table does not hold.
pub open spec fn unknown_agent_message(name: Seq<char>, names: Seq<Seq<char>>) -> Seq<char> {
    "unknown agent "@ + crate::text::debug_str(name) + " — one of: "@ + crate::cli::join_comma(names)
}

/// Without a named harness: the default (first) one always, and every
/// other that is present, in table order.
pub open spec fn chosen(present: Seq<bool>, n: int) -> Seq<usize>
    decreases n,
{
    if n <= 0 {
        Seq::empty()
    } else {
        chosen(present, n - 1) + if n - 1 == 0 || present[n - 1] {
            seq![(n - 1) as usize]
        } else {
            Seq::empty()
        }
    }
}

/// The first index holding `name`.
pub open spec fn first_named(names: Seq<Seq<char>>, name: Seq<char>, k: int) -> bool {
    0 <= k < names.len() && names[k] == name && forall|j: int| 0 <= j < k ==> names[j] != name
}

fn position(names: &Vec<String>, name: &str) -> (r: Option<usize>)
    ensures
        match r {
            Some(k) => first_named(strs_view(names@), name@, k as int),
            None => forall|i: int| 0 <= i < names.len() ==> strs_view(names@)[i] != name@,
        },
{
    let ghost nv = strs_view(names@);
    let mut k: usize = 0;
    while k < names.len()
        invariant
            k <= names.len(),
            nv == strs_view(names@),
            forall|j: int| 0 <= j < k ==> nv[j] != name@,
        decreases names.len() - k,
    {
        assert(nv[k as int] == names@[k as int]@);
        if str_eq(names[k].as_str(), name) {
            return Some(k);
        }
        k = k + 1;
    }
    None
}

/// The harnesses an install or uninstall touches: the one named (or the
/// refusal of a name the table does not hold); else `chosen`.
pub fn targets(agent: Option<&str>, names: &Vec<String>, present: &Vec<bool>) -> (r: Result<Vec<usize>, String>)
    requires
        present.len() == names.len(),
    ensures
        match crate::session::opt_str(agent) {
            Some(name) => match r {
                Ok(v) => v@.len() == 1 && first_named(strs_view(names@), name, v@[0] as int),
                Err(e) => e@ == unknown_agent_message(name, strs_view(names@)) && forall|i: int|
                    0 <= i < names.len() ==> strs_view(names@)[i] != name,
            },
            None => match r {
                Ok(v) => v@ == chosen(present@, names.len() as int),
                Err(_) => false,
            },
        },
{
    let ghost nv = strs_view(names@);
    match agent {
        Some(name) => {
            if let Some(k) = position(names, name) {
                let mut v: Vec<usize> = Vec::new();
                v.push(k);
                assert(v@[0] == k);
                return Ok(v);
            }
            let mut joined = String::new();
            let mut i: usize = 0;
            assert(nv.take(0) =~= Seq::<Seq<char>>::empty());
            while i < names.len()
                invariant
                    i <= names.len(),
                    nv == strs_view(names@),
                    joined@ == crate::cli::join_comma(nv.take(i as int)),
                decreases names.len() - i,
            {
                assert(nv.take(i + 1).drop_last() =~= nv.take(i as int));
                assert(nv.take(i + 1).last() == names@[i as int]@);
                if i > 0 {
                    push_str(&mut joined, ", ");
                } else {
                    assert(nv.take(1) =~= seq![nv[0]]);
                }
                push_str(&mut joined, names[i].as_str());
                i = i + 1;
            }
            assert(nv.take(names.len() as int) =~= nv);
            let mut e = String::new();
            push_str(&mut e, "unknown agent ");
            push_str(&mut e, crate::text::debug_quoted(name).as_str());
            push_str(&mut e, " — one of: ");
            push_str(&mut e, joined.as_str());
            Err(e)
        },
        None => {
            let mut v: Vec<usize> = Vec::new();
            let mut i: usize = 0;
            while i < names.len()
                invariant
                    i <= names.len(),
                    present.len() == names.len(),
                    v@ == chosen(present@, i as int),
                decreases names.len() - i,
            {
                if i == 0 || present[i] {
                    v.push(i);
                }
                i = i + 1;
            }
            Ok(v)
        },
    }
}

/// What a harness's installed skill is, against the skill this build
/// carries.
pub open spec fn skill_state_spec(installed: Option<Seq<char>>, current: Seq<char>) -> Seq<char> {
    match installed {
        None => "not installed"@,
        Some(t) => if t == current {
            "current"@
        } else {
            "STALE — re-run `sideview skill install`"@
        },
    }
}

pub fn skill_state(installed: Option<&str>, current: &str) -> (r: &'static str)
    ensures
        r@ == skill_state_spec(crate::session::opt_str(installed), current@),
{
    match installed {
        None => "not installed",
        Some(t) => if str_eq(t, current) {
            "current"
        } else {
            "STALE — re-run `sideview skill install`"
        },
    }
}

/// `status`'s skill line: each listed harness with its skill's state,
/// joined with `, `.
pub fn status_line(states: &Vec<(&str, &str)>) -> (r: String)
    ensures
        r@ == crate::cli::join_comma(Seq::new(states@.len(), |k: int| states@[k].0@ + ": "@ + states@[k].1@)),
{
    let ghost parts = Seq::new(states@.len(), |k: int| states@[k].0@ + ": "@ + states@[k].1@);
    let mut r = String::new();
    let mut k: usize = 0;
    assert(parts.take(0) =~= Seq::<Seq<char>>::empty());
    while k < states.len()
        invariant
            k <= states.len(),
            parts == Seq::new(states@.len(), |m: int| states@[m].0@ + ": "@ + states@[m].1@),
            r@ == crate::cli::join_comma(parts.take(k as int)),
        decreases states.len() - k,
    {
        assert(parts.take(k + 1).drop_last() =~= parts.take(k as int));
        if k > 0 {
            push_str(&mut r, ", ");
        } else {
            assert(parts.take(1) =~= seq![parts[0]]);
        }
        let (name, s) = states[k];
        push_str(&mut r, name);
        push_str(&mut r, ": ");
        push_str(&mut r, s);
        k = k + 1;
    }
    assert(parts.take(states.len() as int) =~= parts);
    r
}

} // verus!
