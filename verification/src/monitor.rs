//! The Codex feedback monitor's decisions: what message a comment or a
//! resolution change becomes, which events are delivered at all, how the
//! recorded process is recognized, and how retries back off. The queue
//! command, the state file and the locks are the caller's.

use vstd::prelude::*;

use crate::models::{Comment, Thread};
use crate::netcheck::{words, words_acc};
use crate::text::{
    chars_of, int_dec, push_dec, push_i64, push_str, push_usize, str_eq, dec, trim,
};

verus! {

pub open spec fn opt_view(o: Option<String>) -> Option<Seq<char>> {
    crate::diff::opt_string(o)
}

/// The label a comment's kind leads with.
pub open spec fn kind_label(kind: Seq<char>) -> Seq<char> {
    if kind == "edit"@ {
        "Sideview edit request"@
    } else if kind == "edited"@ {
        "Sideview block edit notice"@
    } else {
        "Sideview comment"@
    }
}

/// The parts of a comment's message, joined by blank lines: the label;
/// where it is; the quoted text, when there is one; the feedback, when
/// there is any; the attachment count, when there are attachments; and the
/// standing instruction.
pub open spec fn comment_parts(c: Comment, t: Thread, attachments: nat) -> Seq<Seq<char>> {
    let p1 = seq![
        kind_label(c.kind@),
        "Page "@ + t.page@ + " · thread "@ + int_dec(t.id as int) + " · event "@ + int_dec(c.id as int),
    ];
    let p2 = match opt_view(t.quote) {
        Some(q) => if q.len() > 0 {
            p1.push("Quoted text: “"@ + q + "”"@)
        } else {
            p1
        },
        None => p1,
    };
    let p3 = if c.body@.len() > 0 {
        p2.push("Feedback:\n"@ + c.body@)
    } else {
        p2
    };
    let p4 = if attachments > 0 {
        p3.push(
            "Attachments: "@ + dec(attachments)
                + " (inspect the Sideview event/thread before reading any bytes)"@,
        )
    } else {
        p3
    };
    p4.push(
        "Respond in context. For a comment, reply on the named Sideview thread with the page guard and do not resolve it. For an edit request, follow the Sideview edit workflow."@,
    )
}

/// Parts joined with a blank line between each.
pub open spec fn join_blank(ps: Seq<Seq<char>>) -> Seq<char>
    decreases ps.len(),
{
    if ps.len() == 0 {
        Seq::empty()
    } else if ps.len() == 1 {
        ps[0]
    } else {
        join_blank(ps.drop_last()) + seq!['\n', '\n'] + ps.last()
    }
}

fn push_part(out: &mut String, first: bool, part: &str)
    ensures
        final(out)@ == old(out)@ + (if first { Seq::empty() } else { seq!['\n', '\n'] }) + part@,
{
    if !first {
        crate::text::push_char(out, '\n');
        crate::text::push_char(out, '\n');
        assert(out@ =~= old(out)@ + seq!['\n', '\n']);
    }
    push_str(out, part);
}

/// A comment as the message queued into the agent's thread: readable
/// prose, never raw JSON.
pub fn comment_message(comment: &Comment, thread: &Thread, attachment_count: usize) -> (r: String)
    ensures
        r@ == join_blank(comment_parts(*comment, *thread, attachment_count as nat)),
{
    let ghost parts = comment_parts(*comment, *thread, attachment_count as nat);
    let label = if str_eq(comment.kind.as_str(), "edit") {
        "Sideview edit request"
    } else if str_eq(comment.kind.as_str(), "edited") {
        "Sideview block edit notice"
    } else {
        "Sideview comment"
    };
    let mut r = String::new();
    push_part(&mut r, true, label);
    let mut place = String::new();
    push_str(&mut place, "Page ");
    push_str(&mut place, thread.page.as_str());
    push_str(&mut place, " · thread ");
    push_i64(&mut place, thread.id);
    push_str(&mut place, " · event ");
    push_i64(&mut place, comment.id);
    push_part(&mut r, false, place.as_str());
    let ghost p1 = seq![kind_label(comment.kind@), place@];
    assert(r@ =~= join_blank(p1)) by {
        reveal_with_fuel(join_blank, 2);
        assert(p1.drop_last() =~= seq![kind_label(comment.kind@)]);
        assert(label@ == kind_label(comment.kind@));
    }
    let ghost mut acc = p1;
    match &thread.quote {
        Some(q) => {
            if !q.as_str().is_empty() {
                let mut part = String::new();
                push_str(&mut part, "Quoted text: “");
                push_str(&mut part, q.as_str());
                push_str(&mut part, "”");
                push_part(&mut r, false, part.as_str());
                proof {
                    let prev = acc;
                    acc = acc.push(part@);
                    assert(acc.drop_last() =~= prev);
                    assert(r@ =~= join_blank(acc));
                }
            }
        },
        None => {},
    }
    if !comment.body.as_str().is_empty() {
        let mut part = String::new();
        push_str(&mut part, "Feedback:\n");
        push_str(&mut part, comment.body.as_str());
        push_part(&mut r, false, part.as_str());
        proof {
            let prev = acc;
            acc = acc.push(part@);
            assert(acc.drop_last() =~= prev);
            assert(r@ =~= join_blank(acc));
        }
    }
    if attachment_count > 0 {
        let mut part = String::new();
        push_str(&mut part, "Attachments: ");
        push_usize(&mut part, attachment_count);
        push_str(&mut part, " (inspect the Sideview event/thread before reading any bytes)");
        push_part(&mut r, false, part.as_str());
        proof {
            let prev = acc;
            acc = acc.push(part@);
            assert(acc.drop_last() =~= prev);
            assert(r@ =~= join_blank(acc));
        }
    }
    let closing = "Respond in context. For a comment, reply on the named Sideview thread with the page guard and do not resolve it. For an edit request, follow the Sideview edit workflow.";
    push_part(&mut r, false, closing);
    proof {
        let prev = acc;
        acc = acc.push(closing@);
        assert(acc.drop_last() =~= prev);
        assert(r@ =~= join_blank(acc));
        assert(acc =~= parts);
    }
    r
}

/// A resolution change as the message queued into the agent's thread.
pub open spec fn resolution_message_spec(id: i64, page: Seq<char>, resolved: bool) -> Seq<char> {
    if resolved {
        "Sideview thread resolved by the user\n\nPage "@ + page + " · thread "@ + int_dec(id as int)
            + "\n\nLeave it resolved; no Sideview reply is needed. Keep monitoring."@
    } else {
        "Sideview thread reopened by the user\n\nPage "@ + page + " · thread "@ + int_dec(id as int)
            + "\n\nReview the thread in context and respond if action is needed."@
    }
}

pub fn resolution_message(id: i64, page: &str, resolved: bool) -> (r: String)
    ensures
        r@ == resolution_message_spec(id, page@, resolved),
{
    let mut r = String::new();
    if resolved {
        push_str(&mut r, "Sideview thread resolved by the user\n\nPage ");
    } else {
        push_str(&mut r, "Sideview thread reopened by the user\n\nPage ");
    }
    push_str(&mut r, page);
    push_str(&mut r, " · thread ");
    push_i64(&mut r, id);
    if resolved {
        push_str(&mut r, "\n\nLeave it resolved; no Sideview reply is needed. Keep monitoring.");
    } else {
        push_str(&mut r, "\n\nReview the thread in context and respond if action is needed.");
    }
    r
}

// ---- what gets delivered -----------------------------------------------------------

/// A comment the agent wrote is not fed back to it: the cursor passes it
/// without a delivery.
pub open spec fn delivers_comment(author: Option<Seq<char>>) -> bool {
    author != Some("agent"@)
}

pub fn is_delivered(comment: &Comment) -> (r: bool)
    ensures
        r == delivers_comment(opt_view(comment.author)),
{
    match &comment.author {
        Some(a) => !str_eq(a.as_str(), "agent"),
        None => true,
    }
}

/// A thread's resolution state as the monitor remembers it.
pub struct ResolutionState {
    pub resolved_at: Option<i64>,
    pub resolved_by: Option<String>,
}

/// What a thread's current resolution means against the remembered one.
pub enum ResolutionAction {
    /// Remember it; nothing to say (a new thread announces itself through
    /// its first comment; an agent's own resolve is not fed back).
    Remember,
    /// Unchanged: nothing to do.
    Unchanged,
    /// A user's resolve or reopen: deliver this message under this key,
    /// then remember.
    Deliver(String, String),
}

pub open spec fn same_state(a: ResolutionState, b: ResolutionState) -> bool {
    a.resolved_at == b.resolved_at && opt_view(a.resolved_by) == opt_view(b.resolved_by)
}

pub enum ResolutionActionV {
    Remember,
    Unchanged,
    Deliver(Seq<char>, Seq<char>),
}

pub open spec fn action_view(a: ResolutionAction) -> ResolutionActionV {
    match a {
        ResolutionAction::Remember => ResolutionActionV::Remember,
        ResolutionAction::Unchanged => ResolutionActionV::Unchanged,
        ResolutionAction::Deliver(k, m) => ResolutionActionV::Deliver(k@, m@),
    }
}

pub open spec fn resolution_action_spec(
    id: i64,
    page: Seq<char>,
    previous: Option<ResolutionState>,
    current: ResolutionState,
) -> ResolutionActionV {
    match previous {
        None => ResolutionActionV::Remember,
        Some(p) => if same_state(p, current) {
            ResolutionActionV::Unchanged
        } else if opt_view(current.resolved_by) == Some("agent"@) {
            ResolutionActionV::Remember
        } else {
            let resolved = current.resolved_at is Some;
            ResolutionActionV::Deliver(
                (if resolved { "resolve:"@ } else { "unresolve:"@ }) + int_dec(id as int),
                resolution_message_spec(id, page, resolved),
            )
        },
    }
}

fn same_opt(a: &Option<String>, b: &Option<String>) -> (r: bool)
    ensures
        r == (opt_view(*a) == opt_view(*b)),
{
    match (a, b) {
        (Some(x), Some(y)) => str_eq(x.as_str(), y.as_str()),
        (None, None) => true,
        _ => false,
    }
}

pub fn resolution_action(id: i64, page: &str, previous: Option<&ResolutionState>, current: &ResolutionState) -> (r: ResolutionAction)
    ensures
        action_view(r) == resolution_action_spec(
            id,
            page@,
            match previous {
                Some(p) => Some(*p),
                None => None,
            },
            *current,
        ),
{
    match previous {
        None => ResolutionAction::Remember,
        Some(p) => {
            if p.resolved_at == current.resolved_at && same_opt(&p.resolved_by, &current.resolved_by) {
                return ResolutionAction::Unchanged;
            }
            let by_agent = match &current.resolved_by {
                Some(b) => str_eq(b.as_str(), "agent"),
                None => false,
            };
            if by_agent {
                return ResolutionAction::Remember;
            }
            let resolved = current.resolved_at.is_some();
            let mut key = String::new();
            if resolved {
                push_str(&mut key, "resolve:");
            } else {
                push_str(&mut key, "unresolve:");
            }
            push_i64(&mut key, id);
            ResolutionAction::Deliver(key, resolution_message(id, page, resolved))
        },
    }
}

// ---- the recorded process ----------------------------------------------------------

/// The start time in a `/proc/<pid>/stat` line: after the last `)` (the
/// command name may hold anything), trimmed, the twentieth
/// whitespace-separated field (field 22 of the line).
pub open spec fn pid_start_spec(stat: Seq<char>) -> Option<nat> {
    if exists|i: int| last_paren(stat, i) {
        let i = choose|i: int| last_paren(stat, i);
        let ws = words(trim(stat.skip(i + 1)));
        if ws.len() > 19 {
            crate::text::parse_unsigned(ws[19], u64::MAX as nat)
        } else {
            None
        }
    } else {
        None
    }
}

pub open spec fn last_paren(s: Seq<char>, i: int) -> bool {
    0 <= i < s.len() && s[i] == ')' && forall|j: int| i < j < s.len() ==> #[trigger] s[j] != ')'
}

pub fn pid_start(stat: &str) -> (r: Option<u64>)
    ensures
        match r {
            Some(n) => pid_start_spec(stat@) == Some(n as nat),
            None => pid_start_spec(stat@) is None,
        },
{
    let v = chars_of(stat);
    let mut i: usize = v.len();
    while i > 0 && v[i - 1] != ')'
        invariant
            i <= v.len(),
            forall|j: int| i <= j < v.len() ==> #[trigger] v@[j] != ')',
        decreases i,
    {
        i = i - 1;
    }
    if i == 0 {
        assert forall|x: int| !last_paren(v@, x) by {}
        return None;
    }
    let p = i - 1;
    assert(last_paren(v@, p as int));
    assert(forall|x: int| last_paren(v@, x) ==> x == p);
    let te = crate::text::trim_end_pos(&v, i, v.len());
    let ts = crate::text::trim_start_pos(&v, i, te);
    assert(v@.skip(p + 1) =~= v@.subrange(i as int, v.len() as int));
    let t = crate::text::slice_of(&v, ts, te);
    let ws = crate::netcheck::words_of_chars(&t);
    if ws.len() <= 19 {
        return None;
    }
    let w = &ws[19];
    assert(w@.subrange(0, w@.len() as int) =~= w@);
    crate::text::parse_u64_range(w, 0, w.len())
}

/// The recorded process is the running one: alive, and — when a start time
/// was recorded — started when it did (a recycled pid is not a match).
pub fn pid_matches(alive: bool, recorded_start: Option<u64>, current_start: Option<u64>) -> (r: bool)
    ensures
        r == (alive && match recorded_start {
            Some(e) => current_start == Some(e),
            None => true,
        }),
{
    if !alive {
        return false;
    }
    match recorded_start {
        Some(expected) => current_start == Some(expected),
        None => true,
    }
}

/// Retries back off by doubling, to at most thirty seconds.
pub fn next_retry(secs: u64) -> (r: u64)
    ensures
        r == if 2 * secs > 30 { 30 } else { 2 * secs },
{
    if secs > 15 {
        30
    } else {
        secs * 2
    }
}

// ---- the Codex thread ------------------------------------------------------------------

/// Names the canonical text `uuid::Uuid::parse_str(s)` yields, when it parses.
pub uninterp spec fn uuid_text(s: Seq<char>) -> Option<Seq<char>>;

pub open spec fn hyphenated_lower(t: Seq<char>) -> bool {
    t.len() == 36 && forall|i: int| 0 <= i < 36 ==> if i == 8 || i == 13 || i == 18 || i == 23 {
        #[trigger] t[i] == '-'
    } else {
        crate::daemon::is_lower_hex(t[i])
    }
}

/// `uuid::Uuid::parse_str(s)`, written back with `to_string()`: the
/// hyphenated lower-case form, whichever of the crate's forms was parsed.
#[verifier::external_body]
fn parse_uuid(s: &str) -> (r: Option<String>)
    ensures
        match r {
            Some(t) => uuid_text(s@) == Some(t@) && hyphenated_lower(t@),
            None => uuid_text(s@) is None,
        },
{
    uuid::Uuid::parse_str(s).ok().map(|u| u.to_string())
}

pub open spec fn blank(s: Seq<char>) -> bool {
    trim(s).len() == 0
}

/// The refusal when no Codex thread is known: the monitor never guesses.
pub open spec fn no_thread_message() -> Seq<char> {
    "no Codex thread id — run from Codex (where CODEX_THREAD_ID is available) or pass `--thread <uuid>`; the monitor never guesses the latest thread"@
}

/// The thread the monitor queues into: `--thread`, else `$CODEX_THREAD_ID`
/// (blank counts as unset), which must be a UUID.
pub open spec fn codex_thread_spec(explicit: Option<Seq<char>>, env: Option<Seq<char>>) -> Result<Seq<char>, Seq<char>> {
    let value = match explicit {
        Some(e) if !blank(e) => Some(e),
        _ => match env {
            Some(v) if !blank(v) => Some(v),
            _ => None,
        },
    };
    match value {
        None => Err(no_thread_message()),
        Some(v) => match uuid_text(trim(v)) {
            Some(t) => Ok(t),
            None => Err("Codex thread id "@ + crate::text::debug_str(v) + " is not a UUID"@),
        },
    }
}

fn is_blank(s: &str) -> (r: bool)
    ensures
        r == blank(s@),
{
    let v = chars_of(s);
    crate::text::trim_chars(&v).len() == 0
}

pub fn codex_thread(explicit: Option<&str>, env: Option<&str>) -> (r: Result<String, String>)
    ensures
        match (r, codex_thread_spec(crate::session::opt_str(explicit), crate::session::opt_str(env))) {
            (Ok(a), Ok(b)) => a@ == b,
            (Err(a), Err(b)) => a@ == b,
            _ => false,
        },
{
    let value: Option<&str> = match explicit {
        Some(e) if !is_blank(e) => Some(e),
        _ => match env {
            Some(v) if !is_blank(v) => Some(v),
            _ => None,
        },
    };
    match value {
        None => {
            let mut e = String::new();
            push_str(
                &mut e,
                "no Codex thread id — run from Codex (where CODEX_THREAD_ID is available) or pass `--thread <uuid>`; the monitor never guesses the latest thread",
            );
            Err(e)
        },
        Some(v) => {
            let vv = chars_of(v);
            let t = crate::text::string_of(&crate::text::trim_chars(&vv));
            match parse_uuid(t.as_str()) {
                Some(u) => Ok(u),
                None => {
                    let mut e = String::new();
                    push_str(&mut e, "Codex thread id ");
                    push_str(&mut e, crate::text::debug_quoted(v).as_str());
                    push_str(&mut e, " is not a UUID");
                    Err(e)
                },
            }
        },
    }
}

// ---- finding a Codex binary --------------------------------------------------------------

/// A binary is a usable Codex when `queue --help` succeeds and mentions
/// both flags the monitor passes.
pub fn compatible_queue(success: bool, help: &str) -> (r: bool)
    ensures
        r == (success && crate::text::has_sub(help@, "--thread"@) && crate::text::has_sub(help@, "--message"@)),
{
    if !success {
        return false;
    }
    let v = chars_of(help);
    let a = chars_of("--thread");
    let b = chars_of("--message");
    crate::text::contains_sub(&v, &a) && crate::text::contains_sub(&v, &b)
}

/// Candidate binaries, first occurrence of each path kept, in order.
pub open spec fn first_seen(paths: Seq<Seq<char>>, i: int) -> bool {
    forall|j: int| 0 <= j < i ==> paths[j] != paths[i]
}

pub open spec fn dedupe_spec(c: Seq<(Seq<char>, Seq<char>)>) -> Seq<(Seq<char>, Seq<char>)>
    decreases c.len(),
{
    if c.len() == 0 {
        Seq::empty()
    } else {
        let rest = dedupe_spec(c.drop_last());
        if exists|j: int| 0 <= j < c.len() - 1 && #[trigger] c[j].1 == c.last().1 {
            rest
        } else {
            rest.push(c.last())
        }
    }
}

/// The candidates to try, each path once (its first source named).
pub fn dedupe_candidates(c: &Vec<(String, String)>) -> (r: Vec<(String, String)>)
    ensures
        crate::format::attrs_view(r@) == dedupe_spec(crate::format::attrs_view(c@)),
{
    let ghost cv = crate::format::attrs_view(c@);
    let mut r: Vec<(String, String)> = Vec::new();
    let mut i: usize = 0;
    assert(cv.take(0) =~= Seq::<(Seq<char>, Seq<char>)>::empty());
    while i < c.len()
        invariant
            i <= c.len(),
            cv == crate::format::attrs_view(c@),
            crate::format::attrs_view(r@) == dedupe_spec(cv.take(i as int)),
        decreases c.len() - i,
    {
        let ghost t = cv.take(i + 1);
        assert(t.drop_last() =~= cv.take(i as int));
        assert(t.last() == cv[i as int]);
        let mut seen = false;
        let mut j: usize = 0;
        while j < i
            invariant
                j <= i < c.len(),
                cv == crate::format::attrs_view(c@),
                t == cv.take(i + 1),
                seen == exists|k: int| 0 <= k < j && #[trigger] t[k].1 == t.last().1,
            decreases i - j,
        {
            assert(t[j as int] == cv[j as int]);
            assert(cv[j as int] == (c@[j as int].0@, c@[j as int].1@));
            assert(t.last() == cv[i as int]);
            assert(cv[i as int] == (c@[i as int].0@, c@[i as int].1@));
            if str_eq(c[j].1.as_str(), c[i].1.as_str()) {
                seen = true;
                assert(t[j as int].1 == t.last().1);
            }
            j = j + 1;
        }
        if !seen {
            let mut a = String::new();
            push_str(&mut a, c[i].0.as_str());
            let mut b = String::new();
            push_str(&mut b, c[i].1.as_str());
            let ghost before = r@;
            r.push((a, b));
            assert(crate::format::attrs_view(r@) =~= crate::format::attrs_view(before).push(cv[i as int]));
        }
        i = i + 1;
    }
    assert(cv.take(c.len() as int) =~= cv);
    r
}

/// Why no Codex binary was found: every candidate checked, and what to do.
pub open spec fn discover_failure_spec(checked: Seq<Seq<char>>) -> Seq<char> {
    "could not find a compatible Codex CLI binary. Checked:\n"@ + (if checked.len() == 0 {
        "- no candidates"@
    } else {
        crate::text::join_lines(checked)
    }) + "\nPoint Sideview at one with `--codex-path <path>` or SIDEVIEW_CODEX_PATH, or install the official Codex CLI; Sideview will not install it silently."@
}

pub fn discover_failure(checked: &Vec<String>) -> (r: String)
    ensures
        r@ == discover_failure_spec(crate::format::strs_view(checked@)),
{
    let mut r = String::new();
    push_str(&mut r, "could not find a compatible Codex CLI binary. Checked:\n");
    if checked.len() == 0 {
        push_str(&mut r, "- no candidates");
    } else {
        let mut ls: Vec<Vec<char>> = Vec::new();
        let mut i: usize = 0;
        while i < checked.len()
            invariant
                i <= checked.len(),
                ls.len() == i,
                forall|k: int| 0 <= k < i ==> #[trigger] ls@[k]@ == checked@[k]@,
            decreases checked.len() - i,
        {
            ls.push(chars_of(checked[i].as_str()));
            i = i + 1;
        }
        assert(crate::text::views(ls@) =~= crate::format::strs_view(checked@));
        let joined = crate::text::join_lines_of(&ls, 0, ls.len());
        assert(crate::text::views(ls@).subrange(0, ls@.len() as int) =~= crate::text::views(ls@));
        crate::text::push_range(&mut r, &joined, 0, joined.len());
        assert(joined@.subrange(0, joined@.len() as int) =~= joined@);
    }
    push_str(
        &mut r,
        "\nPoint Sideview at one with `--codex-path <path>` or SIDEVIEW_CODEX_PATH, or install the official Codex CLI; Sideview will not install it silently.",
    );
    r
}

/// One checked candidate: where it came from, where it is, why not.
pub fn checked_line(source: &str, path: &str, why: &str) -> (r: String)
    ensures
        r@ == "- "@ + source@ + ": "@ + path@ + " ("@ + why@ + ")"@,
{
    let mut r = String::new();
    push_str(&mut r, "- ");
    push_str(&mut r, source);
    push_str(&mut r, ": ");
    push_str(&mut r, path);
    push_str(&mut r, " (");
    push_str(&mut r, why);
    push_str(&mut r, ")");
    r
}

/// The error a failed `codex queue` becomes: its exit status, its stderr,
/// and its stdout in parentheses when there was any (both trimmed).
pub open spec fn queue_failure_spec(status: Seq<char>, stderr: Seq<char>, stdout: Seq<char>) -> Seq<char> {
    "codex queue exited "@ + status + ": "@ + trim(stderr) + if trim(stdout).len() == 0 {
        Seq::empty()
    } else {
        " ("@ + trim(stdout) + ")"@
    }
}

pub fn queue_failure(status: &str, stderr: &str, stdout: &str) -> (r: String)
    ensures
        r@ == queue_failure_spec(status@, stderr@, stdout@),
{
    let e = crate::text::trim_chars(&chars_of(stderr));
    let o = crate::text::trim_chars(&chars_of(stdout));
    let mut r = String::new();
    push_str(&mut r, "codex queue exited ");
    push_str(&mut r, status);
    push_str(&mut r, ": ");
    crate::text::push_range(&mut r, &e, 0, e.len());
    assert(e@.subrange(0, e@.len() as int) =~= e@);
    if o.len() > 0 {
        push_str(&mut r, " (");
        crate::text::push_range(&mut r, &o, 0, o.len());
        assert(o@.subrange(0, o@.len() as int) =~= o@);
        push_str(&mut r, ")");
    }
    r
}

// ---- delivery state -------------------------------------------------------------------------

/// What the monitor persists about delivery: the last comment handled, the
/// event in flight, and what the last queue call said.
#[derive(Debug)]
pub struct Delivery {
    pub cursor: i64,
    pub pending_event: Option<String>,
    pub last_event_at: Option<i64>,
    pub last_queued_at: Option<i64>,
    pub last_queue_output: Option<String>,
    pub last_error: Option<String>,
}

pub struct DeliveryV {
    pub cursor: i64,
    pub pending_event: Option<Seq<char>>,
    pub last_event_at: Option<i64>,
    pub last_queued_at: Option<i64>,
    pub last_queue_output: Option<Seq<char>>,
    pub last_error: Option<Seq<char>>,
}

impl View for Delivery {
    type V = DeliveryV;

    open spec fn view(&self) -> DeliveryV {
        DeliveryV {
            cursor: self.cursor,
            pending_event: opt_view(self.pending_event),
            last_event_at: self.last_event_at,
            last_queued_at: self.last_queued_at,
            last_queue_output: opt_view(self.last_queue_output),
            last_error: opt_view(self.last_error),
        }
    }
}

/// What a comment past the cursor asks of the monitor: the agent's own
/// echo only moves the cursor; anything else is delivered under
/// `comment:<id>` as its readable prompt.
pub open spec fn comment_delivery_spec(c: Comment, t: Thread, attachments: nat) -> Option<(Seq<char>, Seq<char>)> {
    if opt_view(c.author) == Some("agent"@) {
        None
    } else {
        Some(("comment:"@ + int_dec(c.id as int), join_blank(comment_parts(c, t, attachments))))
    }
}

pub fn comment_delivery(c: &Comment, t: &Thread, attachments: usize) -> (r: Option<(String, String)>)
    ensures
        match r {
            Some((k, m)) => comment_delivery_spec(*c, *t, attachments as nat) == Some((k@, m@)),
            None => comment_delivery_spec(*c, *t, attachments as nat) is None,
        },
{
    let agent = match &c.author {
        Some(a) => str_eq(a.as_str(), "agent"),
        None => false,
    };
    if agent {
        return None;
    }
    let mut k = String::new();
    push_str(&mut k, "comment:");
    push_i64(&mut k, c.id);
    Some((k, comment_message(c, t, attachments)))
}

/// Before the queue call: the event is recorded as in flight (and the last
/// error cleared), so a crash mid-call leaves it visible.
pub open spec fn begin_spec(d: DeliveryV, key: Seq<char>, now: i64) -> DeliveryV {
    DeliveryV { pending_event: Some(key), last_event_at: Some(now), last_error: None, ..d }
}

/// The queue took it: nothing in flight, what it printed kept (when it
/// printed anything).
pub open spec fn queued_spec(d: DeliveryV, output: Seq<char>, now: i64) -> DeliveryV {
    DeliveryV {
        pending_event: None,
        last_queued_at: Some(now),
        last_queue_output: if output.len() == 0 { None } else { Some(output) },
        last_error: None,
        ..d
    }
}

/// The queue refused: the event stays in flight for the retry.
pub open spec fn failed_spec(d: DeliveryV, err: Seq<char>) -> DeliveryV {
    DeliveryV { last_error: Some(err), ..d }
}

/// A comment handled (delivered, or the agent's echo): the cursor moves past it.
pub open spec fn advance_spec(d: DeliveryV, id: i64) -> DeliveryV {
    DeliveryV { cursor: id, ..d }
}

impl Delivery {
    pub fn begin(&mut self, key: &str, now: i64)
        ensures
            final(self)@ == begin_spec(old(self)@, key@, now),
    {
        let mut k = String::new();
        push_str(&mut k, key);
        self.pending_event = Some(k);
        self.last_event_at = Some(now);
        self.last_error = None;
    }

    pub fn queued(&mut self, output: &str, now: i64)
        ensures
            final(self)@ == queued_spec(old(self)@, output@, now),
    {
        self.pending_event = None;
        self.last_queued_at = Some(now);
        if output.unicode_len() == 0 {
            self.last_queue_output = None;
        } else {
            let mut o = String::new();
            push_str(&mut o, output);
            self.last_queue_output = Some(o);
        }
        self.last_error = None;
    }

    pub fn failed(&mut self, err: &str)
        ensures
            final(self)@ == failed_spec(old(self)@, err@),
    {
        let mut e = String::new();
        push_str(&mut e, err);
        self.last_error = Some(e);
    }

    pub fn advance(&mut self, id: i64)
        ensures
            final(self)@ == advance_spec(old(self)@, id),
    {
        self.cursor = id;
    }
}

/// What one comment of a generation asks the monitor to do, before any
/// queue call: the agent's own echo only moves the cursor; anything else is
/// marked in flight and its prompt handed to the queue.
pub enum CommentStep {
    /// Nothing to deliver; the cursor has moved past the comment.
    Skipped,
    /// Queue this message; the event is recorded as in flight.
    Queue(String),
}

/// The first half of a generation's step for one comment past the cursor.
pub fn comment_step(d: &mut Delivery, c: &Comment, t: &Thread, attachments: usize, now: i64) -> (r: CommentStep)
    ensures
        match comment_delivery_spec(*c, *t, attachments as nat) {
            None => r is Skipped && final(d)@ == advance_spec(old(d)@, c.id),
            Some((key, message)) => r matches CommentStep::Queue(m) && m@ == message
                && final(d)@ == begin_spec(old(d)@, key, now),
        },
{
    match comment_delivery(c, t, attachments) {
        None => {
            d.advance(c.id);
            CommentStep::Skipped
        },
        Some((key, message)) => {
            d.begin(key.as_str(), now);
            CommentStep::Queue(message)
        },
    }
}

/// The second half, with what the queue call did: on success the event
/// clears, the cursor moves past the comment and its receipt is owed
/// (`Ok`); on failure the error is kept beside the event still in flight,
/// the cursor stays, no receipt is stamped, and the generation stops with
/// the error, so the next one retries the same comment.
pub fn comment_queued(d: &mut Delivery, id: i64, queued: Result<String, String>, now: i64) -> (r: Result<(), String>)
    ensures
        match queued {
            Ok(out) => r is Ok && final(d)@ == advance_spec(queued_spec(old(d)@, out@, now), id),
            Err(e) => (r matches Err(e2) && e2@ == e@) && final(d)@ == failed_spec(old(d)@, e@),
        },
{
    match queued {
        Ok(out) => {
            d.queued(out.as_str(), now);
            d.advance(id);
            Ok(())
        },
        Err(e) => {
            d.failed(e.as_str());
            Err(e)
        },
    }
}

/// A failed queue call keeps the cursor where it was and the event in
/// flight, with the error beside it: nothing is lost and the next pass
/// retries the same event.
pub proof fn lemma_failed_delivery_keeps_cursor_and_pending(d: DeliveryV, key: Seq<char>, now: i64, err: Seq<char>)
    ensures
        failed_spec(begin_spec(d, key, now), err).cursor == d.cursor,
        failed_spec(begin_spec(d, key, now), err).pending_event == Some(key),
        failed_spec(begin_spec(d, key, now), err).last_error == Some(err),
{
}

/// A successful delivery of comment `id` clears the event in flight and
/// moves the cursor to `id`, so it is never delivered twice.
pub proof fn lemma_delivery_advances_and_clears(d: DeliveryV, key: Seq<char>, now: i64, output: Seq<char>, later: i64, id: i64)
    ensures
        advance_spec(queued_spec(begin_spec(d, key, now), output, later), id).cursor == id,
        advance_spec(queued_spec(begin_spec(d, key, now), output, later), id).pending_event is None,
        advance_spec(queued_spec(begin_spec(d, key, now), output, later), id).last_error is None,
{
}

/// Whether a previous run's state carries over: same state version, same
/// Codex thread, and a cursor the store has not gone behind (a reset store).
pub fn reuse_previous(prev_version: u32, prev_thread: &str, prev_cursor: i64, thread: &str, current_max: i64) -> (r: bool)
    ensures
        r == (prev_version == STATE_VERSION && prev_thread@ == thread@ && prev_cursor <= current_max),
{
    prev_version == STATE_VERSION && str_eq(prev_thread, thread) && prev_cursor <= current_max
}

pub const STATE_VERSION: u32 = 1;

/// `monitor status`'s verdict on the recorded monitor.
pub fn monitor_status(lock_held: bool, identity_matches: bool) -> (r: &'static str)
    ensures
        r@ == if lock_held && identity_matches {
            "running"@
        } else if lock_held {
            "ownership mismatch"@
        } else {
            "stopped"@
        },
{
    if lock_held && identity_matches {
        "running"
    } else if lock_held {
        "ownership mismatch"
    } else {
        "stopped"
    }
}

} // verus!
