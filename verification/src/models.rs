//! The conversation and share concepts' data: threads, comments, the
//! attachments that ride them, and capability links with the roles they
//! grant. Storing them is the caller's business; the shapes and the rules
//! that need no database are here.

use vstd::prelude::*;

use crate::text::{chars_of, starts_with};

verus! {

/// One conversation's placement: where it hangs, what it quoted at
/// creation, whether someone has resolved it.
pub struct Thread {
    pub id: i64,
    pub page: String,
    pub target: String,
    /// '' = the block's tail.
    pub anchor: String,
    pub quote: Option<String>,
    pub context: Option<String>,
    pub created_at: i64,
    pub resolved_at: Option<i64>,
    pub resolved_by: Option<String>,
    /// The agent's explicit "on it, will take a while" — cleared by its next
    /// reply or a resolve.
    pub working_at: Option<i64>,
    pub working_by: Option<String>,
}

/// One utterance within a thread.
pub struct Comment {
    pub id: i64,
    pub thread_id: i64,
    pub body: String,
    /// The role: 'user' | 'agent' (none in old rows).
    pub author: Option<String>,
    /// The commenter's self-declared display name, beside the role.
    pub author_name: Option<String>,
    pub created_at: i64,
    pub seen_at: Option<i64>,
    pub seen_by: Option<String>,
    /// 'comment' | 'edit' (a proposed change awaiting the agent's merge) |
    /// 'edited' (the record of a direct prose splice).
    pub kind: String,
}

/// A file riding a comment: metadata here, bytes on disk.
pub struct Attachment {
    pub id: i64,
    pub comment_id: i64,
    pub path: String,
    pub name: String,
    pub mime: String,
    pub bytes: i64,
    pub sha256: String,
    pub created_at: i64,
}

/// What the upload endpoint hands back and the comment send binds: the row
/// minus the identities the insert assigns.
pub struct NewAttachment {
    pub path: String,
    pub name: String,
    pub mime: String,
    pub bytes: i64,
    pub sha256: String,
}

pub const ATTACHMENTS_DIR: &'static str = "attachments";
pub const ATTACHMENTS_PREFIX: &'static str = ".sideview/attachments/";

/// A segment of `s` (split at `/`) starts at `i`.
pub open spec fn seg_start(s: Seq<char>, i: int) -> bool {
    i == 0 || s[i - 1] == '/'
}

/// A segment of `s` ends at `j`.
pub open spec fn seg_end(s: Seq<char>, j: int) -> bool {
    j == s.len() || s[j] == '/'
}

/// An empty segment at `i`.
pub open spec fn empty_seg_at(s: Seq<char>, i: int) -> bool {
    0 <= i <= s.len() && seg_start(s, i) && seg_end(s, i)
}

/// A `..` segment at `i`.
pub open spec fn dotdot_at(s: Seq<char>, i: int) -> bool {
    0 <= i && i + 2 <= s.len() && seg_start(s, i) && s[i] == '.' && s[i + 1] == '.' && seg_end(
        s,
        i + 2,
    )
}

/// The confinement check every consumer of a stored attachment path
/// shares: under `.sideview/attachments/`, and no segment empty or `..` — a
/// row naming `src/main.rs` must never become a deletion of it.
pub open spec fn is_attachment_path_spec(rel: Seq<char>) -> bool {
    &&& starts_with(rel, ATTACHMENTS_PREFIX@)
    &&& forall|i: int| !#[trigger] empty_seg_at(rel, i)
    &&& forall|i: int| !#[trigger] dotdot_at(rel, i)
}

pub fn is_attachment_path(rel: &str) -> (r: bool)
    ensures
        r == is_attachment_path_spec(rel@),
{
    let v = chars_of(rel);
    let p = chars_of(ATTACHMENTS_PREFIX);
    if !crate::text::has_prefix(&v, &p) {
        return false;
    }
    let mut i: usize = 0;
    while i < v.len()
        invariant
            i <= v.len(),
            v@ == rel@,
            forall|k: int| 0 <= k < i ==> !#[trigger] empty_seg_at(v@, k),
            forall|k: int| 0 <= k < i ==> !#[trigger] dotdot_at(v@, k),
        decreases v.len() - i,
    {
        let start = i == 0 || v[i - 1] == '/';
        let end = v[i] == '/';
        if start && end {
            assert(empty_seg_at(v@, i as int));
            return false;
        }
        if start && v.len() - i >= 2 && v[i] == '.' && v[i + 1] == '.' && (v.len() - i == 2 || v[i
            + 2] == '/') {
            assert(dotdot_at(v@, i as int));
            return false;
        }
        i = i + 1;
    }
    if v.len() == 0 || v[v.len() - 1] == '/' {
        assert(empty_seg_at(v@, v@.len() as int));
        return false;
    }
    assert forall|k: int| !#[trigger] empty_seg_at(v@, k) by {}
    assert forall|k: int| !#[trigger] dotdot_at(v@, k) by {}
    true
}

// ---- shares ------------------------------------------------------------------------

/// One minted link. `page = None` is the owner link.
pub struct Share {
    pub id: i64,
    pub token: String,
    pub page: Option<String>,
    pub created_at: i64,
    pub revoked_at: Option<i64>,
}

/// What a validated token grants. Owner is the author's own link — the full
/// surface; Guest is the conversation surface on one page.
pub enum Role {
    Owner,
    Guest { page: String },
}

impl Share {
    /// A page-scoped link is the guest role on exactly that page; the
    /// page-less link is the owner's.
    pub fn role(&self) -> (r: Role)
        ensures
            match self.page {
                None => r is Owner,
                Some(p) => r matches Role::Guest { page } && page == p,
            },
    {
        match &self.page {
            None => Role::Owner,
            Some(p) => Role::Guest { page: p.clone() },
        }
    }
}

} // verus!
