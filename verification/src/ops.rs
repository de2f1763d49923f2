//! The conversation operations' decisions: what a posted comment must be,
//! which guard a reply or resolve passes, and the watch loop — one poll tick
//! from the store's readings to the events a watcher is owed. Reading and
//! writing the store, and serializing events, are the caller's.

use vstd::prelude::*;

use std::collections::HashMap;

use crate::models::{is_attachment_path, is_attachment_path_spec, NewAttachment};
use crate::text::{chars_of, debug_quoted, debug_str, push_dec, push_str, str_eq, trim};

verus! {

broadcast use vstd::std_specs::hash::group_hash_axioms;

/// Where a new comment lands: a fresh thread on a block, or a reply.
pub enum CommentTarget<'a> {
    NewThread {
        page: &'a str,
        target: &'a str,
        anchor: &'a str,
        quote: Option<&'a str>,
        context: Option<&'a str>,
    },
    Reply { thread: i64 },
}

// ---- posting -----------------------------------------------------------------------

/// Why a comment cannot be posted, or none: an empty body; a kind other than
/// `comment` or `edit` (`edited` is the splice endpoint's receipt, never
/// postable — accepting it would let a request forge a "the file changed"
/// record); an attachment that is not an uploaded file in the attachments
/// home (the first such, in order).
pub open spec fn post_problem(
    body: Seq<char>,
    kind: Seq<char>,
    paths: Seq<Seq<char>>,
    is_file: Seq<bool>,
) -> Option<Seq<char>> {
    if trim(body).len() == 0 {
        Some("empty comment body"@)
    } else if !(kind == "comment"@ || kind == "edit"@) {
        Some("kind "@ + debug_str(kind) + " is not postable"@)
    } else if exists|i: int| first_bad_attachment(paths, is_file, i) {
        let i = choose|i: int| first_bad_attachment(paths, is_file, i);
        Some("attachment "@ + debug_str(paths[i]) + " is not an uploaded file"@)
    } else {
        None
    }
}

pub open spec fn bad_attachment(path: Seq<char>, is_file: bool) -> bool {
    !is_attachment_path_spec(path) || !is_file
}

pub open spec fn first_bad_attachment(paths: Seq<Seq<char>>, is_file: Seq<bool>, i: int) -> bool {
    0 <= i < paths.len() && bad_attachment(paths[i], is_file[i]) && forall|j: int|
        0 <= j < i ==> !bad_attachment(#[trigger] paths[j], is_file[j])
}

/// Check a comment before it is posted. `is_file[i]` says whether the
/// project file `attachments[i].path` is a regular file — a row is a future
/// deletion, so each claimed attachment is verified before binding.
pub fn check_post(body: &str, kind: &str, attachments: &[NewAttachment], is_file: &Vec<bool>) -> (r: Result<(), String>)
    requires
        is_file.len() == attachments.len(),
    ensures
        match (r, post_problem(body@, kind@, attachments@.map_values(|a: NewAttachment| a.path@), is_file@)) {
            (Ok(()), None) => true,
            (Err(e), Some(p)) => e@ == p,
            _ => false,
        },
{
    let ghost paths = attachments@.map_values(|a: NewAttachment| a.path@);
    let bv = chars_of(body);
    let te = crate::text::trim_end_pos(&bv, 0, bv.len());
    let ts = crate::text::trim_start_pos(&bv, 0, te);
    assert(bv@.subrange(0, bv@.len() as int) =~= bv@);
    if ts == te {
        let mut e = String::new();
        push_str(&mut e, "empty comment body");
        return Err(e);
    }
    if !(str_eq(kind, "comment") || str_eq(kind, "edit")) {
        let mut e = String::new();
        push_str(&mut e, "kind ");
        push_str(&mut e, debug_quoted(kind).as_str());
        push_str(&mut e, " is not postable");
        return Err(e);
    }
    let mut i: usize = 0;
    while i < attachments.len()
        invariant
            i <= attachments.len(),
            is_file.len() == attachments.len(),
            paths == attachments@.map_values(|a: NewAttachment| a.path@),
            forall|j: int| 0 <= j < i ==> !bad_attachment(#[trigger] paths[j], is_file@[j]),
            trim(body@).len() > 0,
            kind@ == "comment"@ || kind@ == "edit"@,
        decreases attachments.len() - i,
    {
        let p = attachments[i].path.as_str();
        if !is_attachment_path(p) || !is_file[i] {
            proof {
                assert(first_bad_attachment(paths, is_file@, i as int));
                let c = choose|c: int| first_bad_attachment(paths, is_file@, c);
                assert(c == i);
            }
            let mut e = String::new();
            push_str(&mut e, "attachment ");
            push_str(&mut e, debug_quoted(p).as_str());
            push_str(&mut e, " is not an uploaded file");
            return Err(e);
        }
        i = i + 1;
    }
    assert forall|c: int| !first_bad_attachment(paths, is_file@, c) by {}
    Ok(())
}

pub open spec fn guard_message(thread: i64, page: Seq<char>, guard: Seq<char>) -> Seq<char> {
    "thread "@ + crate::text::int_dec(thread as int) + " is on page "@ + debug_str(page) + ", not "@
        + debug_str(guard) + " — wrong project?"@
}

/// The page guard on replies, resolves and work marks: watch events hand the
/// agent page and thread together, so asserting the pair catches the
/// cross-project id collision a foreign key cannot.
pub fn check_guard(thread: i64, thread_page: &str, guard: Option<&str>) -> (r: Result<(), String>)
    ensures
        match guard {
            Some(p) => if thread_page@ == p@ {
                r is Ok
            } else {
                r matches Err(e) && e@ == guard_message(thread, thread_page@, p@)
            },
            None => r is Ok,
        },
{
    match guard {
        Some(p) => {
            if str_eq(thread_page, p) {
                Ok(())
            } else {
                let mut e = String::new();
                push_str(&mut e, "thread ");
                crate::text::push_i64(&mut e, thread);
                push_str(&mut e, " is on page ");
                push_str(&mut e, debug_quoted(thread_page).as_str());
                push_str(&mut e, ", not ");
                push_str(&mut e, debug_quoted(p).as_str());
                push_str(&mut e, " — wrong project?");
                Err(e)
            }
        },
        None => Ok(()),
    }
}

// ---- watch -------------------------------------------------------------------------

/// What a watcher wants: an author to skip, and — both optional — pages
/// and categories to keep. No pages and no categories means everything.
pub struct WatchFilter {
    pub skip_author: Option<String>,
    pub pages: Vec<String>,
    pub categories: Vec<String>,
}

/// A watcher's position: comment cursor, known resolution states (thread id
/// to when it was resolved, none for open), and the generation its last
/// read saw.
pub struct WatchState {
    pub cursor: i64,
    pub resolutions: HashMap<i64, Option<i64>>,
    pub generation: i64,
}

/// A comment after the cursor, as the watch reads it with its thread.
pub struct CommentRow {
    pub id: i64,
    pub author: Option<String>,
    pub page: String,
}

/// A thread's resolution state.
pub struct ResolutionRow {
    pub thread: i64,
    pub page: String,
    pub resolved_at: Option<i64>,
    pub resolved_by: Option<String>,
}

/// What one tick owes the watcher, in order.
pub enum WatchEvent {
    /// The comment at this index of the tick's comment rows (acked, when
    /// the watcher acks, and emitted).
    Comment(usize),
    Resolve { thread: i64, page: String, by: Option<String>, at: i64 },
    Unresolve { thread: i64, page: String },
}

pub enum WatchEventV {
    Comment(nat),
    Resolve(i64, Seq<char>, Option<Seq<char>>, i64),
    Unresolve(i64, Seq<char>),
}

pub open spec fn event_view(e: WatchEvent) -> WatchEventV {
    match e {
        WatchEvent::Comment(k) => WatchEventV::Comment(k as nat),
        WatchEvent::Resolve { thread, page, by, at } => WatchEventV::Resolve(
            thread,
            page@,
            crate::diff::opt_string(by),
            at,
        ),
        WatchEvent::Unresolve { thread, page } => WatchEventV::Unresolve(thread, page@),
    }
}

pub open spec fn events_view(v: Seq<WatchEvent>) -> Seq<WatchEventV> {
    v.map_values(|e: WatchEvent| event_view(e))
}

pub open spec fn skipped_by(skip: Option<Seq<char>>, author: Option<Seq<char>>) -> bool {
    skip is Some && author == skip
}

pub open spec fn kept(keep: Option<Seq<Seq<char>>>, page: Seq<char>) -> bool {
    keep is None || keep->0.contains(page)
}

pub open spec fn comment_rows_view(v: Seq<CommentRow>) -> Seq<(i64, Option<Seq<char>>, Seq<char>)> {
    v.map_values(|c: CommentRow| (c.id, crate::diff::opt_string(c.author), c.page@))
}

pub open spec fn resolution_rows_view(v: Seq<ResolutionRow>) -> Seq<(i64, Seq<char>, Option<i64>, Option<Seq<char>>)> {
    v.map_values(|r: ResolutionRow| (r.thread, r.page@, r.resolved_at, crate::diff::opt_string(r.resolved_by)))
}

/// Comments: the cursor advances over every one — skipped is
/// delivered-elsewhere, not pending — and the kept ones are emitted.
pub open spec fn comment_fold(
    cursor: i64,
    skip: Option<Seq<char>>,
    keep: Option<Seq<Seq<char>>>,
    cs: Seq<(i64, Option<Seq<char>>, Seq<char>)>,
) -> (i64, Seq<WatchEventV>)
    decreases cs.len(),
{
    if cs.len() == 0 {
        (cursor, Seq::empty())
    } else {
        let (cur, evs) = comment_fold(cursor, skip, keep, cs.drop_last());
        let (id, author, page) = cs.last();
        let cur2 = if id > cur { id } else { cur };
        if skipped_by(skip, author) || !kept(keep, page) {
            (cur2, evs)
        } else {
            (cur2, evs.push(WatchEventV::Comment((cs.len() - 1) as nat)))
        }
    }
}

/// Resolutions: every state is remembered; a transition from open to
/// resolved, or back, is an event unless filtered. A thread never seen
/// before announces itself through its first comment, so it is no event.
pub open spec fn resolution_fold(
    known: Map<i64, Option<i64>>,
    skip: Option<Seq<char>>,
    keep: Option<Seq<Seq<char>>>,
    rs: Seq<(i64, Seq<char>, Option<i64>, Option<Seq<char>>)>,
) -> (Map<i64, Option<i64>>, Seq<WatchEventV>)
    decreases rs.len(),
{
    if rs.len() == 0 {
        (known, Seq::empty())
    } else {
        let (m, evs) = resolution_fold(known, skip, keep, rs.drop_last());
        let (id, page, at, by) = rs.last();
        let m2 = m.insert(id, at);
        if skipped_by(skip, by) || !kept(keep, page) {
            (m2, evs)
        } else if m.contains_key(id) && m[id] is None && at is Some {
            (m2, evs.push(WatchEventV::Resolve(id, page, by, at->0)))
        } else if m.contains_key(id) && m[id] is Some && at is None {
            (m2, evs.push(WatchEventV::Unresolve(id, page)))
        } else {
            (m2, evs)
        }
    }
}

fn same_opt(a: &Option<String>, b: &Option<String>) -> (r: bool)
    ensures
        r == (crate::diff::opt_string(*a) == crate::diff::opt_string(*b)),
{
    match (a, b) {
        (Some(x), Some(y)) => str_eq(x.as_str(), y.as_str()),
        (None, None) => true,
        _ => false,
    }
}

fn in_list(v: &Vec<String>, x: &str) -> (r: bool)
    ensures
        r == crate::format::strs_view(v@).contains(x@),
{
    let ghost sv = crate::format::strs_view(v@);
    let mut i: usize = 0;
    while i < v.len()
        invariant
            i <= v.len(),
            sv == crate::format::strs_view(v@),
            forall|j: int| 0 <= j < i ==> sv[j] != x@,
        decreases v.len() - i,
    {
        if str_eq(v[i].as_str(), x) {
            assert(sv[i as int] == x@);
            return true;
        }
        i = i + 1;
    }
    false
}

fn kept_exec(keep: &Option<Vec<String>>, page: &str) -> (r: bool)
    ensures
        r == kept(
            match keep {
                Some(v) => Some(crate::format::strs_view(v@)),
                None => None,
            },
            page@,
        ),
{
    match keep {
        Some(v) => in_list(v, page),
        None => true,
    }
}

pub open spec fn keep_view(keep: Option<Vec<String>>) -> Option<Seq<Seq<char>>> {
    match keep {
        Some(v) => Some(crate::format::strs_view(v@)),
        None => None,
    }
}

/// One poll tick. `generation` is the store's conversation generation now;
/// when it has not moved since the last read, nothing is owed. Otherwise
/// the comments after the cursor and every thread's resolution state are
/// folded into the events the filter keeps (`keep` is the set of pages the
/// filter resolves to, none for no filter).
pub fn watch_tick(
    st: &mut WatchState,
    generation: i64,
    comments: &Vec<CommentRow>,
    resolutions: &Vec<ResolutionRow>,
    skip_author: &Option<String>,
    keep: &Option<Vec<String>>,
) -> (events: Vec<WatchEvent>)
    ensures
        generation == old(st).generation ==> events@.len() == 0 && final(st).cursor == old(st).cursor
            && final(st).resolutions@ == old(st).resolutions@ && final(st).generation == old(st).generation,
        generation != old(st).generation ==> ({
            let skip = crate::diff::opt_string(*skip_author);
            let kv = keep_view(*keep);
            let (cur, cevs) = comment_fold(old(st).cursor, skip, kv, comment_rows_view(comments@));
            let (m, revs) = resolution_fold(old(st).resolutions@, skip, kv, resolution_rows_view(resolutions@));
            &&& final(st).generation == generation
            &&& final(st).cursor == cur
            &&& final(st).resolutions@ == m
            &&& events_view(events@) == cevs + revs
        }),
{
    let mut events: Vec<WatchEvent> = Vec::new();
    if generation == st.generation {
        return events;
    }
    st.generation = generation;
    let ghost skip = crate::diff::opt_string(*skip_author);
    let ghost kv = keep_view(*keep);
    let ghost cv = comment_rows_view(comments@);
    let ghost rv = resolution_rows_view(resolutions@);
    let mut i: usize = 0;
    assert(cv.take(0) =~= Seq::<(i64, Option<Seq<char>>, Seq<char>)>::empty());
    assert(events_view(events@) =~= Seq::<WatchEventV>::empty());
    while i < comments.len()
        invariant
            i <= comments.len(),
            cv == comment_rows_view(comments@),
            skip == crate::diff::opt_string(*skip_author),
            kv == keep_view(*keep),
            (st.cursor, events_view(events@)) == comment_fold(old(st).cursor, skip, kv, cv.take(i as int)),
            st.generation == generation,
            st.resolutions@ == old(st).resolutions@,
        decreases comments.len() - i,
    {
        assert(cv.take(i + 1).drop_last() =~= cv.take(i as int));
        let c = &comments[i];
        if c.id > st.cursor {
            st.cursor = c.id;
        }
        let skipped = match skip_author {
            Some(_) => same_opt(&c.author, skip_author),
            None => false,
        };
        if !(skipped || !kept_exec(keep, c.page.as_str())) {
            let ghost prev = events@;
            events.push(WatchEvent::Comment(i));
            assert(events_view(events@) =~= events_view(prev).push(WatchEventV::Comment(i as nat)));
        }
        i = i + 1;
    }
    assert(cv.take(comments.len() as int) =~= cv);
    let ghost after_comments = events_view(events@);
    assert(st.resolutions@ == old(st).resolutions@);
    let mut revents: Vec<WatchEvent> = Vec::new();
    let mut k: usize = 0;
    assert(rv.take(0) =~= Seq::<(i64, Seq<char>, Option<i64>, Option<Seq<char>>)>::empty());
    assert(events_view(revents@) =~= Seq::<WatchEventV>::empty());
    while k < resolutions.len()
        invariant
            k <= resolutions.len(),
            rv == resolution_rows_view(resolutions@),
            skip == crate::diff::opt_string(*skip_author),
            kv == keep_view(*keep),
            (st.resolutions@, events_view(revents@)) == resolution_fold(old(st).resolutions@, skip, kv, rv.take(k as int)),
            (st.cursor, after_comments) == comment_fold(old(st).cursor, skip, kv, comment_rows_view(comments@)),
            st.generation == generation,
        decreases resolutions.len() - k,
    {
        assert(rv.take(k + 1).drop_last() =~= rv.take(k as int));
        let r = &resolutions[k];
        let ghost before = st.resolutions@;
        let known = st.resolutions.insert(r.thread, r.resolved_at);
        let skipped = match skip_author {
            Some(_) => same_opt(&r.resolved_by, skip_author),
            None => false,
        };
        if !(skipped || !kept_exec(keep, r.page.as_str())) {
            match (known, r.resolved_at) {
                (Some(None), Some(when)) => {
                    let ghost prev = revents@;
                    revents.push(WatchEvent::Resolve {
                        thread: r.thread,
                        page: r.page.clone(),
                        by: r.resolved_by.clone(),
                        at: when,
                    });
                    assert(events_view(revents@) =~= events_view(prev).push(
                        WatchEventV::Resolve(r.thread, r.page@, crate::diff::opt_string(r.resolved_by), when),
                    ));
                },
                (Some(Some(_)), None) => {
                    let ghost prev = revents@;
                    revents.push(WatchEvent::Unresolve { thread: r.thread, page: r.page.clone() });
                    assert(events_view(revents@) =~= events_view(prev).push(
                        WatchEventV::Unresolve(r.thread, r.page@),
                    ));
                },
                _ => {},
            }
        }
        k = k + 1;
    }
    assert(rv.take(resolutions.len() as int) =~= rv);
    let ghost before_append = events@;
    let ghost rev = revents@;
    events.append(&mut revents);
    assert(events_view(events@) =~= after_comments + events_view(rev)) by {
        assert(events_view(before_append) == after_comments);
        assert(events@ =~= before_append + rev);
    }
    events
}


/// The resolution states a watcher starts from: every thread's, later rows
/// over earlier ones.
pub open spec fn baseline(rs: Seq<(i64, Seq<char>, Option<i64>, Option<Seq<char>>)>) -> Map<i64, Option<i64>>
    decreases rs.len(),
{
    if rs.len() == 0 {
        Map::empty()
    } else {
        baseline(rs.drop_last()).insert(rs.last().0, rs.last().2)
    }
}

/// Watch starts at its invocation moment (the newest comment id); `since`
/// reaches back — for comments only, since resolution is state, so only
/// transitions from here on are events.
pub fn watch_start(since: Option<i64>, max_comment_id: i64, resolutions: &Vec<ResolutionRow>) -> (st: WatchState)
    ensures
        st.cursor == match since {
            Some(id) => id,
            None => max_comment_id,
        },
        st.generation == -1,
        st.resolutions@ == baseline(resolution_rows_view(resolutions@)),
{
    let cursor = match since {
        Some(id) => id,
        None => max_comment_id,
    };
    let ghost rv = resolution_rows_view(resolutions@);
    let mut m: HashMap<i64, Option<i64>> = HashMap::new();
    let mut i: usize = 0;
    assert(rv.take(0) =~= Seq::<(i64, Seq<char>, Option<i64>, Option<Seq<char>>)>::empty());
    assert(m@ =~= Map::<i64, Option<i64>>::empty());
    while i < resolutions.len()
        invariant
            i <= resolutions.len(),
            rv == resolution_rows_view(resolutions@),
            m@ == baseline(rv.take(i as int)),
        decreases resolutions.len() - i,
    {
        assert(rv.take(i + 1).drop_last() =~= rv.take(i as int));
        m.insert(resolutions[i].thread, resolutions[i].resolved_at);
        i = i + 1;
    }
    assert(rv.take(resolutions.len() as int) =~= rv);
    WatchState { cursor, resolutions: m, generation: -1 }
}

// ---- what watching promises -----------------------------------------------------------

/// The comment cursor never moves back: a tick only advances past what it
/// read.
pub proof fn lemma_cursor_never_moves_back(
    cursor: i64,
    skip: Option<Seq<char>>,
    keep: Option<Seq<Seq<char>>>,
    cs: Seq<(i64, Option<Seq<char>>, Seq<char>)>,
)
    ensures
        comment_fold(cursor, skip, keep, cs).0 >= cursor,
        forall|k: int| 0 <= k < cs.len() ==> comment_fold(cursor, skip, keep, cs).0 >= (#[trigger] cs[k]).0,
    decreases cs.len(),
{
    if cs.len() > 0 {
        lemma_cursor_never_moves_back(cursor, skip, keep, cs.drop_last());
        assert forall|k: int| 0 <= k < cs.len() implies comment_fold(cursor, skip, keep, cs).0 >= (#[trigger] cs[k]).0 by {
            if k < cs.len() - 1 {
                assert(cs.drop_last()[k] == cs[k]);
            }
        }
    }
}

/// A watcher skipping an author never emits that author's comments (its
/// own echoes), and never emits a comment on a page its filter drops.
pub proof fn lemma_emitted_comments_pass_the_filter(
    cursor: i64,
    skip: Option<Seq<char>>,
    keep: Option<Seq<Seq<char>>>,
    cs: Seq<(i64, Option<Seq<char>>, Seq<char>)>,
)
    ensures
        forall|j: int| 0 <= j < comment_fold(cursor, skip, keep, cs).1.len() ==> (#[trigger] comment_fold(cursor, skip, keep, cs).1[j] matches WatchEventV::Comment(k) && k < cs.len()
            && !skipped_by(skip, cs[k as int].1) && kept(keep, cs[k as int].2)),
    decreases cs.len(),
{
    if cs.len() > 0 {
        lemma_emitted_comments_pass_the_filter(cursor, skip, keep, cs.drop_last());
        let evs = comment_fold(cursor, skip, keep, cs.drop_last()).1;
        assert forall|j: int| 0 <= j < evs.len() implies (#[trigger] evs[j] matches WatchEventV::Comment(k) && k < cs.len()
            && !skipped_by(skip, cs[k as int].1) && kept(keep, cs[k as int].2)) by {
            if let WatchEventV::Comment(k) = evs[j] {
                assert(cs.drop_last()[k as int] == cs[k as int]);
            }
        }
    }
}

proof fn lemma_baseline_at(rs: Seq<(i64, Seq<char>, Option<i64>, Option<Seq<char>>)>, j: int)
    requires
        0 <= j < rs.len(),
        forall|a: int, b: int| 0 <= a < b < rs.len() ==> rs[a].0 != rs[b].0,
    ensures
        baseline(rs).contains_key(rs[j].0),
        baseline(rs)[rs[j].0] == rs[j].2,
    decreases rs.len(),
{
    if j < rs.len() - 1 {
        let w = rs.drop_last();
        assert forall|a: int, b: int| 0 <= a < b < w.len() implies w[a].0 != w[b].0 by {
            assert(w[a] == rs[a] && w[b] == rs[b]);
        }
        lemma_baseline_at(w, j);
        assert(w[j] == rs[j]);
        assert(rs.last().0 != rs[j].0);
    }
}

/// Resolution is state, so a watcher starting from the states it sees
/// reports no resolution event for them: only later transitions are
/// events (given one row per thread, as the store keeps them).
pub proof fn lemma_baseline_is_quiet(
    rs: Seq<(i64, Seq<char>, Option<i64>, Option<Seq<char>>)>,
    skip: Option<Seq<char>>,
    keep: Option<Seq<Seq<char>>>,
)
    requires
        forall|a: int, b: int| 0 <= a < b < rs.len() ==> rs[a].0 != rs[b].0,
    ensures
        resolution_fold(baseline(rs), skip, keep, rs).1 == Seq::<WatchEventV>::empty(),
{
    lemma_quiet_prefix(rs, skip, keep, rs.len() as int);
    assert(rs.take(rs.len() as int) =~= rs);
}

proof fn lemma_quiet_prefix(
    rs: Seq<(i64, Seq<char>, Option<i64>, Option<Seq<char>>)>,
    skip: Option<Seq<char>>,
    keep: Option<Seq<Seq<char>>>,
    n: int,
)
    requires
        0 <= n <= rs.len(),
        forall|a: int, b: int| 0 <= a < b < rs.len() ==> rs[a].0 != rs[b].0,
    ensures
        resolution_fold(baseline(rs), skip, keep, rs.take(n)).1 == Seq::<WatchEventV>::empty(),
        forall|j: int| n <= j < rs.len() ==> resolution_fold(baseline(rs), skip, keep, rs.take(n)).0.contains_key(#[trigger] rs[j].0)
            && resolution_fold(baseline(rs), skip, keep, rs.take(n)).0[rs[j].0] == rs[j].2,
    decreases n,
{
    if n == 0 {
        assert(rs.take(0).len() == 0);
        assert forall|j: int| 0 <= j < rs.len() implies baseline(rs).contains_key(#[trigger] rs[j].0) && baseline(rs)[rs[j].0] == rs[j].2 by {
            lemma_baseline_at(rs, j);
        }
    } else {
        lemma_quiet_prefix(rs, skip, keep, n - 1);
        assert(rs.take(n).drop_last() =~= rs.take(n - 1));
        assert(rs.take(n).last() == rs[n - 1]);
        let m = resolution_fold(baseline(rs), skip, keep, rs.take(n - 1)).0;
        assert(m.contains_key(rs[n - 1].0) && m[rs[n - 1].0] == rs[n - 1].2);
        assert forall|j: int| n <= j < rs.len() implies resolution_fold(baseline(rs), skip, keep, rs.take(n)).0.contains_key(#[trigger] rs[j].0)
            && resolution_fold(baseline(rs), skip, keep, rs.take(n)).0[rs[j].0] == rs[j].2 by {
            assert(rs[n - 1].0 != rs[j].0);
        }
    }
}

} // verus!
