//! The command line's decisions: what bare `sideview` does about a recorded
//! daemon, what a write does about a missing one, how a comment command's
//! arguments combine, and the lines the commands print. Reading stdin, the
//! store and the network namespace is the caller's; each function here
//! takes what was read and says what to do.

use vstd::prelude::*;

use crate::format::{attr_lookup, parse, parse_spec};
use crate::store::DaemonRow;
use crate::text::{dec, int_dec, push_dec, push_i64, push_str, str_eq};

verus! {

/// The line a version mismatch prints.
pub open spec fn skew_message(running: Seq<char>, mine: Seq<char>) -> Seq<char> {
    "daemon is running v"@ + running + ", this is v"@ + mine + " — Ctrl-C it and run `sideview` again"@
}

fn skew_text(running: &str, mine: &str) -> (r: String)
    ensures
        r@ == skew_message(running@, mine@),
{
    let mut r = String::new();
    push_str(&mut r, "daemon is running v");
    push_str(&mut r, running);
    push_str(&mut r, ", this is v");
    push_str(&mut r, mine);
    push_str(&mut r, " — Ctrl-C it and run `sideview` again");
    r
}

/// What bare `sideview` does about the daemon row it found.
#[derive(Debug)]
pub enum OpenStep {
    /// A reachable daemon of another version: say so and exit nonzero.
    Skew(String),
    /// A reachable daemon of this version on this port: open the tab.
    Running(u16),
    /// A recorded daemon no browser can reach: take its row over.
    Claim,
    /// Nothing recorded: start one.
    Start,
}

pub enum OpenStepV {
    Skew(Seq<char>),
    Running(u16),
    Claim,
    Start,
}

pub open spec fn open_step_view(s: OpenStep) -> OpenStepV {
    match s {
        OpenStep::Skew(m) => OpenStepV::Skew(m@),
        OpenStep::Running(p) => OpenStepV::Running(p),
        OpenStep::Claim => OpenStepV::Claim,
        OpenStep::Start => OpenStepV::Start,
    }
}

/// Bare `sideview` is idempotent: a live reachable daemon means open the
/// tab; one in an unreachable namespace is claimed; none is started.
pub open spec fn open_step_spec(alive: Option<(bool, Seq<char>, u16)>, mine: Seq<char>) -> OpenStepV {
    match alive {
        Some((reachable, version, port)) => if reachable {
            if version != mine {
                OpenStepV::Skew(skew_message(version, mine))
            } else {
                OpenStepV::Running(port)
            }
        } else {
            OpenStepV::Claim
        },
        None => OpenStepV::Start,
    }
}

pub open spec fn row_seen(d: Option<&DaemonRow>) -> Option<(bool, Seq<char>, u16)> {
    match d {
        Some(r) => Some((r.reachable, r.version@, r.port)),
        None => None,
    }
}

pub fn open_step(alive: Option<&DaemonRow>, mine: &str) -> (r: OpenStep)
    ensures
        open_step_view(r) == open_step_spec(row_seen(alive), mine@),
{
    match alive {
        Some(d) => if d.reachable {
            if !str_eq(d.version.as_str(), mine) {
                OpenStep::Skew(skew_text(d.version.as_str(), mine))
            } else {
                OpenStep::Running(d.port)
            }
        } else {
            OpenStep::Claim
        },
        None => OpenStep::Start,
    }
}

/// What a write does about the daemon once the block is on disk — nothing
/// is ever lost either way.
#[derive(Debug)]
pub enum EnsureStep {
    /// A reachable daemon of this version is serving.
    Serving,
    /// A reachable daemon of another version: a note, nothing more.
    SkewNote(String),
    /// None reachable: start one, unless this namespace could never be
    /// reached, which the caller checks next.
    SpawnIfReachable,
}

pub enum EnsureStepV {
    Serving,
    SkewNote(Seq<char>),
    SpawnIfReachable,
}

pub open spec fn ensure_step_view(s: EnsureStep) -> EnsureStepV {
    match s {
        EnsureStep::Serving => EnsureStepV::Serving,
        EnsureStep::SkewNote(m) => EnsureStepV::SkewNote(m@),
        EnsureStep::SpawnIfReachable => EnsureStepV::SpawnIfReachable,
    }
}

/// A daemon alive but namespaced is useless to any browser: the write falls
/// through to a spawn, which claims the row, and the old daemon evicts
/// itself.
pub open spec fn ensure_step_spec(alive: Option<(bool, Seq<char>, u16)>, mine: Seq<char>) -> EnsureStepV {
    match alive {
        Some((true, version, _)) => if version != mine {
            EnsureStepV::SkewNote(skew_message(version, mine))
        } else {
            EnsureStepV::Serving
        },
        _ => EnsureStepV::SpawnIfReachable,
    }
}

pub fn ensure_step(alive: Option<&DaemonRow>, mine: &str) -> (r: EnsureStep)
    ensures
        ensure_step_view(r) == ensure_step_spec(row_seen(alive), mine@),
{
    match alive {
        Some(d) => if d.reachable {
            if !str_eq(d.version.as_str(), mine) {
                EnsureStep::SkewNote(skew_text(d.version.as_str(), mine))
            } else {
                EnsureStep::Serving
            }
        } else {
            EnsureStep::SpawnIfReachable
        },
        None => EnsureStep::SpawnIfReachable,
    }
}

/// The one line a write prints when a daemon started here could never be
/// reached: where to run `sideview` instead.
pub open spec fn no_daemon_note(root: Seq<char>) -> Seq<char> {
    "no daemon running — run `sideview` in "@ + root + " to see this."@
}

pub fn no_daemon_text(root: &str) -> (r: String)
    ensures
        r@ == no_daemon_note(root@),
{
    let mut r = String::new();
    push_str(&mut r, "no daemon running — run `sideview` in ");
    push_str(&mut r, root);
    push_str(&mut r, " to see this.");
    r
}

/// `reasons` joined with `, `.
pub open spec fn join_comma(rs: Seq<Seq<char>>) -> Seq<char>
    decreases rs.len(),
{
    if rs.len() == 0 {
        Seq::empty()
    } else if rs.len() == 1 {
        rs[0]
    } else {
        join_comma(rs.drop_last()) + ", "@ + rs.last()
    }
}

/// Why bare `sideview` refuses to start a daemon here.
pub open spec fn unreachable_message(reasons: Seq<Seq<char>>, root: Seq<char>) -> Seq<char> {
    "a daemon started here could never be reached by a browser ("@ + join_comma(reasons)
        + ").\nRun `sideview` in "@ + root + " from outside the sandbox."@
}

pub fn unreachable_text(reasons: &Vec<String>, root: &str) -> (r: String)
    ensures
        r@ == unreachable_message(crate::format::strs_view(reasons@), root@),
{
    let ghost rv = crate::format::strs_view(reasons@);
    let mut joined = String::new();
    let mut i: usize = 0;
    assert(rv.take(0) =~= Seq::<Seq<char>>::empty());
    while i < reasons.len()
        invariant
            i <= reasons.len(),
            rv == crate::format::strs_view(reasons@),
            joined@ == join_comma(rv.take(i as int)),
        decreases reasons.len() - i,
    {
        assert(rv.take(i + 1).drop_last() =~= rv.take(i as int));
        assert(rv.take(i + 1).last() == reasons@[i as int]@);
        if i > 0 {
            push_str(&mut joined, ", ");
        } else {
            assert(rv.take(1) =~= seq![rv[0]]);
        }
        push_str(&mut joined, reasons[i].as_str());
        i = i + 1;
    }
    assert(rv.take(reasons.len() as int) =~= rv);
    let mut r = String::new();
    push_str(&mut r, "a daemon started here could never be reached by a browser (");
    push_str(&mut r, joined.as_str());
    push_str(&mut r, ").\nRun `sideview` in ");
    push_str(&mut r, root);
    push_str(&mut r, " from outside the sandbox.");
    r
}

// ---- comments and resolutions --------------------------------------------------------

/// What a comment command does.
#[derive(Debug)]
pub enum CommentPlan {
    /// Reply on this thread.
    Reply(i64),
    /// Start a thread on this block, at this anchor (empty: the block's tail).
    Start(String, String),
}

pub enum CommentPlanV {
    Reply(i64),
    Start(Seq<char>, Seq<char>),
}

/// `str::trim_end_matches('\n')`.
pub open spec fn trim_newlines_end(s: Seq<char>) -> Seq<char>
    decreases s.len(),
{
    if s.len() > 0 && s.last() == '\n' {
        trim_newlines_end(s.drop_last())
    } else {
        s
    }
}

/// How a comment command's arguments combine: a body is required; a block
/// starts a thread (at `--at`, else the block's tail); `--thread` replies,
/// and a reply inherits its thread's anchor; never both, never neither.
pub open spec fn comment_plan_spec(
    body: Seq<char>,
    block: Option<Seq<char>>,
    at: Option<Seq<char>>,
    thread: Option<i64>,
) -> Result<(Seq<char>, CommentPlanV), Seq<char>> {
    let b = trim_newlines_end(body);
    if b.len() == 0 {
        Err("empty comment (body arrives on stdin)"@)
    } else {
        match (thread, block) {
            (Some(_), Some(_)) => Err("pass a block to start a thread, or --thread to reply — not both"@),
            (Some(t), None) => if at is Some {
                Err("--at places a new thread; a reply inherits its thread's anchor"@)
            } else {
                Ok((b, CommentPlanV::Reply(t)))
            },
            (None, Some(target)) => Ok(
                (
                    b,
                    CommentPlanV::Start(
                        target,
                        match at {
                            Some(a) => a,
                            None => Seq::empty(),
                        },
                    ),
                ),
            ),
            (None, None) => Err("name a block to comment on, or --thread to reply"@),
        }
    }
}

pub open spec fn plan_view(r: Result<(String, CommentPlan), String>) -> Result<(Seq<char>, CommentPlanV), Seq<char>> {
    match r {
        Ok((b, CommentPlan::Reply(t))) => Ok((b@, CommentPlanV::Reply(t))),
        Ok((b, CommentPlan::Start(x, a))) => Ok((b@, CommentPlanV::Start(x@, a@))),
        Err(e) => Err(e@),
    }
}

fn err_text(s: &str) -> (r: String)
    ensures
        r@ == s@,
{
    let mut r = String::new();
    push_str(&mut r, s);
    r
}

pub fn comment_plan(body: &str, block: Option<&str>, at: Option<&str>, thread: Option<i64>) -> (r: Result<(String, CommentPlan), String>)
    ensures
        plan_view(r) == comment_plan_spec(body@, crate::session::opt_str(block), crate::session::opt_str(at), thread),
{
    let v = crate::text::chars_of(body);
    let mut n: usize = v.len();
    assert(v@.subrange(0, n as int) =~= body@);
    while n > 0 && v[n - 1] == '\n'
        invariant
            n <= v.len(),
            v@ == body@,
            trim_newlines_end(body@) == trim_newlines_end(v@.subrange(0, n as int)),
        decreases n,
    {
        assert(v@.subrange(0, n as int).drop_last() =~= v@.subrange(0, n - 1));
        n = n - 1;
    }
    let b = crate::text::string_of_range(&v, 0, n);
    if n == 0 {
        return Err(err_text("empty comment (body arrives on stdin)"));
    }
    match (thread, block) {
        (Some(_), Some(_)) => Err(err_text("pass a block to start a thread, or --thread to reply — not both")),
        (Some(t), None) => if at.is_some() {
            Err(err_text("--at places a new thread; a reply inherits its thread's anchor"))
        } else {
            Ok((b, CommentPlan::Reply(t)))
        },
        (None, Some(target)) => {
            let a = match at {
                Some(a) => err_text(a),
                None => String::new(),
            };
            Ok((b, CommentPlan::Start(err_text(target), a)))
        },
        (None, None) => Err(err_text("name a block to comment on, or --thread to reply")),
    }
}

/// The line `resolve` prints: the change made, or — not an error, since the
/// desired end state holds — the state the thread was already in.
pub open spec fn resolve_line_spec(thread: i64, undo: bool, changed: bool, page: Seq<char>, target: Seq<char>) -> Seq<char> {
    if !changed {
        "thread "@ + int_dec(thread as int) + " is already "@ + (if undo { "open"@ } else { "resolved"@ })
    } else {
        (if undo { "reopened"@ } else { "resolved"@ }) + " thread "@ + int_dec(thread as int) + " on "@
            + page + " ("@ + target + ")"@
    }
}

pub fn resolve_line(thread: i64, undo: bool, changed: bool, page: &str, target: &str) -> (r: String)
    ensures
        r@ == resolve_line_spec(thread, undo, changed, page@, target@),
{
    let mut r = String::new();
    if !changed {
        push_str(&mut r, "thread ");
        push_i64(&mut r, thread);
        push_str(&mut r, " is already ");
        push_str(&mut r, if undo { "open" } else { "resolved" });
    } else {
        push_str(&mut r, if undo { "reopened" } else { "resolved" });
        push_str(&mut r, " thread ");
        push_i64(&mut r, thread);
        push_str(&mut r, " on ");
        push_str(&mut r, page);
        push_str(&mut r, " (");
        push_str(&mut r, target);
        push_str(&mut r, ")");
    }
    r
}

// ---- pages ---------------------------------------------------------------------------------

/// `page promote` only moves a page to a relative path inside the project.
pub fn check_promote_dest(dest: &str) -> (r: Result<(), String>)
    ensures
        r is Ok <==> !crate::poll::outside_project(dest@),
        r matches Err(e) ==> e@ == "destination must be a relative path inside the project"@,
{
    let v = crate::text::chars_of(dest);
    let mut i: usize = 0;
    let absolute = v.len() > 0 && v[0] == '/';
    let mut dotdot = false;
    while i < v.len()
        invariant
            i <= v.len(),
            v@ == dest@,
            dotdot == exists|k: int| 0 <= k < i && #[trigger] crate::models::dotdot_at(v@, k),
        decreases v.len() - i,
    {
        let start = i == 0 || v[i - 1] == '/';
        if start && v.len() - i >= 2 && v[i] == '.' && v[i + 1] == '.' && (v.len() - i == 2 || v[i
            + 2] == '/') {
            assert(crate::models::dotdot_at(v@, i as int));
            dotdot = true;
        } else {
            assert(!crate::models::dotdot_at(v@, i as int));
        }
        i = i + 1;
    }
    proof {
        assert forall|k: int| #[trigger] crate::models::dotdot_at(v@, k) implies 0 <= k < v@.len() by {}
    }
    if absolute || dotdot {
        Err(err_text("destination must be a relative path inside the project"))
    } else {
        Ok(())
    }
}

/// The page file `page rm` removes: the binding's path when one exists,
/// else the deterministic throwaway location — so `rm` works even after a
/// reset dropped the db.
pub fn page_file_for(binding_path: Option<&str>, target: &str) -> (r: String)
    ensures
        r@ == match binding_path {
            Some(p) => p@,
            None => crate::session::page_rel_path_spec(target@),
        },
{
    match binding_path {
        Some(p) => err_text(p),
        None => crate::session::page_rel_path(target),
    }
}

/// A page's label in listings: the file's own `label` prop, else its id.
pub open spec fn session_label_spec(text: Option<Seq<char>>, id: Seq<char>) -> Seq<char> {
    match text {
        Some(t) => match attr_lookup(parse_spec(t).props, "label"@) {
            Some(l) => l,
            None => id,
        },
        None => id,
    }
}

pub fn session_label(text: Option<&str>, id: &str) -> (r: String)
    ensures
        r@ == session_label_spec(crate::session::opt_str(text), id@),
{
    match text {
        Some(t) => {
            let page = parse(t);
            match page.prop("label") {
                Some(l) => err_text(l),
                None => err_text(id),
            }
        },
        None => err_text(id),
    }
}

/// One line of `sessions`: label, file, and the page URL when a daemon
/// serves it.
pub open spec fn session_line_spec(label: Seq<char>, path: Seq<char>, id: Seq<char>, port: Option<u16>) -> Seq<char> {
    match port {
        Some(p) => label + "  "@ + path + "  http://127.0.0.1:"@ + dec(p as nat) + "/s/"@
            + crate::session::pct_encode(vstd::utf8::encode_utf8(id)),
        None => label + "  "@ + path + "  (no daemon running)"@,
    }
}

pub fn session_line(label: &str, path: &str, id: &str, port: Option<u16>) -> (r: String)
    ensures
        r@ == session_line_spec(label@, path@, id@, port),
{
    let mut r = String::new();
    push_str(&mut r, label);
    push_str(&mut r, "  ");
    push_str(&mut r, path);
    match port {
        Some(p) => {
            push_str(&mut r, "  http://127.0.0.1:");
            push_dec(&mut r, p as u64);
            push_str(&mut r, "/s/");
            push_str(&mut r, crate::session::encode(id).as_str());
        },
        None => push_str(&mut r, "  (no daemon running)"),
    }
    r
}

/// The URLs to announce: those the daemon recorded, else its loopback one.
/// The browser opens the first.
pub fn urls_to_print(recorded: Vec<String>, port: u16) -> (r: Vec<String>)
    ensures
        r.len() > 0,
        recorded.len() > 0 ==> crate::format::strs_view(r@) == crate::format::strs_view(recorded@),
        recorded.len() == 0 ==> crate::format::strs_view(r@) == seq![crate::daemon::local_url_spec(port)],
{
    if recorded.len() > 0 {
        recorded
    } else {
        let mut r: Vec<String> = Vec::new();
        r.push(crate::daemon::local_url(port));
        assert(crate::format::strs_view(r@) =~= seq![crate::daemon::local_url_spec(port)]);
        r
    }
}

/// `status`'s daemon line: whether the row answered a ping, then what it
/// records.
pub open spec fn status_line_spec(answered: bool, version: Seq<char>, port: u16, pid: i64, reachable: bool) -> Seq<char> {
    "daemon:  "@ + (if answered { "alive (answered ping)"@ } else { "NOT answering (stale row?)"@ })
        + " — v"@ + version + ", port "@ + dec(port as nat) + ", pid "@ + int_dec(pid as int)
        + ", reachable="@ + (if reachable { "true"@ } else { "false"@ })
}

pub fn status_line(answered: bool, d: &DaemonRow) -> (r: String)
    ensures
        r@ == status_line_spec(answered, d.version@, d.port, d.pid, d.reachable),
{
    let mut r = String::new();
    push_str(&mut r, "daemon:  ");
    push_str(&mut r, if answered { "alive (answered ping)" } else { "NOT answering (stale row?)" });
    push_str(&mut r, " — v");
    push_str(&mut r, d.version.as_str());
    push_str(&mut r, ", port ");
    push_dec(&mut r, d.port as u64);
    push_str(&mut r, ", pid ");
    push_i64(&mut r, d.pid);
    push_str(&mut r, ", reachable=");
    push_str(&mut r, if d.reachable { "true" } else { "false" });
    r
}

} // verus!
