//! The store's shapes and the decisions about where it lives and whether its
//! daemon row is fresh. The SQLite side — reading and writing rows — is the
//! caller's.

use vstd::prelude::*;

use crate::ext::join_path;
use crate::text::push_str;

verus! {

pub const DIR_NAME: &'static str = ".sideview";
pub const DB_FILE: &'static str = "sideview.db";
pub const SPAWN_LOCK: &'static str = "spawn.lock";
pub const PAGES_DIR: &'static str = "pages";

/// A daemon row older than this is asked (ping) before it is believed.
pub const STALE_AFTER_MS: i64 = 10_000;

/// The daemon row: who holds the project's port, and whether a browser can
/// reach it.
pub struct DaemonRow {
    pub instance_id: String,
    pub pid: i64,
    pub port: u16,
    pub version: String,
    pub started_at: i64,
    pub last_seen: i64,
    pub ping: i64,
    pub pong: i64,
    pub netns: Option<u64>,
    pub reachable: bool,
}

/// A session→file binding. Losing one costs nothing durable (the file is
/// the content); it exists so the daemon knows where to look.
pub struct Binding {
    pub id: String,
    /// Relative to the project root.
    pub path: String,
    pub last_active_at: i64,
}

/// One conversation's placement, as the store keeps it.
pub struct Thread {
    pub id: i64,
    pub page: String,
    pub target: String,
    pub anchor: String,
    pub quote: Option<String>,
    pub context: Option<String>,
    pub created_at: i64,
    pub resolved_at: Option<i64>,
    pub resolved_by: Option<String>,
}

/// One utterance within a thread, as the store keeps it.
pub struct Comment {
    pub id: i64,
    pub thread_id: i64,
    pub body: String,
    pub author: Option<String>,
    pub created_at: i64,
    pub seen_at: Option<i64>,
    pub seen_by: Option<String>,
}

/// Milliseconds since the Unix epoch, by the system clock (0 for a clock set
/// before 1970). Nothing is claimed of the value: it is the time.
#[verifier::external_body]
pub fn now_ms() -> i64 {
    std::time::SystemTime::now().duration_since(std::time::UNIX_EPOCH).map(|d| d.as_millis() as i64).unwrap_or(0)
}

/// A row heard from within `STALE_AFTER_MS` is believed without asking.
pub open spec fn fresh_spec(now: i64, last_seen: i64) -> bool {
    now - last_seen < STALE_AFTER_MS
}

pub fn is_fresh(now: i64, row: &DaemonRow) -> (r: bool)
    ensures
        r == fresh_spec(now, row.last_seen),
{
    (now as i128) - (row.last_seen as i128) < (STALE_AFTER_MS as i128)
}

/// Names what std's `Path::parent` gives for a path: the path without its
/// last component, none for a root or an empty path.
pub uninterp spec fn path_parent(p: Seq<char>) -> Option<Seq<char>>;

/// `std::path::Path::parent`, lossily converted to a string.
#[verifier::external_body]
fn parent_of(p: &str) -> (r: Option<String>)
    ensures
        crate::diff::opt_string(r) == path_parent(p@),
{
    std::path::Path::new(p).parent().map(|d| d.to_string_lossy().to_string())
}

/// The first `i` with `has_store[i]`.
pub open spec fn first_store(has_store: Seq<bool>, i: int) -> bool {
    0 <= i < has_store.len() && has_store[i] && forall|j: int| 0 <= j < i ==> !#[trigger] has_store[j]
}

/// Where the store is: the nearest ancestor (the working directory first)
/// already holding one; else beside the git common dir, so every worktree
/// of a repository shares one; else here.
pub open spec fn store_dir_spec(
    ancestors: Seq<Seq<char>>,
    has_store: Seq<bool>,
    git_common: Option<Seq<char>>,
    cwd: Seq<char>,
) -> Seq<char> {
    if exists|i: int| first_store(has_store, i) {
        join_path(ancestors[choose|i: int| first_store(has_store, i)], DIR_NAME@)
    } else {
        match git_common {
            Some(c) => match path_parent(c) {
                Some(root) => join_path(root, DIR_NAME@),
                None => join_path(cwd, DIR_NAME@),
            },
            None => join_path(cwd, DIR_NAME@),
        }
    }
}

/// `ancestors` is the working directory and its parents, nearest first;
/// `has_store[i]` says whether `ancestors[i]` holds a `.sideview`
/// directory; `git_common` is git's common dir, when git answered.
pub fn find_store_dir(ancestors: &Vec<String>, has_store: &Vec<bool>, git_common: Option<&str>, cwd: &str) -> (r: String)
    requires
        has_store.len() == ancestors.len(),
    ensures
        r@ == store_dir_spec(crate::format::strs_view(ancestors@), has_store@, crate::session::opt_str(git_common), cwd@),
{
    let mut i: usize = 0;
    while i < has_store.len()
        invariant
            i <= has_store.len(),
            has_store.len() == ancestors.len(),
            forall|j: int| 0 <= j < i ==> !#[trigger] has_store@[j],
        decreases has_store.len() - i,
    {
        if has_store[i] {
            proof {
                assert(first_store(has_store@, i as int));
                let c = choose|c: int| first_store(has_store@, c);
                assert(c == i);
            }
            return crate::ext::join_path_of(ancestors[i].as_str(), DIR_NAME);
        }
        i = i + 1;
    }
    assert forall|c: int| !first_store(has_store@, c) by {}
    match git_common {
        Some(c) => match parent_of(c) {
            Some(root) => crate::ext::join_path_of(root.as_str(), DIR_NAME),
            None => crate::ext::join_path_of(cwd, DIR_NAME),
        },
        None => crate::ext::join_path_of(cwd, DIR_NAME),
    }
}

} // verus!
