//! Plain data records returned by repository operations.
//!
//! Each record holds only plain values (strings and integers), so that the
//! logic that builds and reads them can be verified; the binding layer
//! converts the wrapped library's native structures into these records.

use vstd::prelude::*;

verus! {

/// One commit of the history: its identifier, the people and times
/// involved, its message, and the identifiers of its parents.
pub struct Commit {
    pub hash: String,
    pub author: String,
    pub author_email: String,
    pub author_time: i64,
    pub committer: String,
    pub committer_email: String,
    pub commit_time: i64,
    pub message: String,
    pub parents: Vec<String>,
}

/// The view of an optional string: its characters when present, the empty
/// sequence otherwise. Commit fields that the collaborator may omit
/// default to the empty string.
pub open spec fn or_empty(s: Option<String>) -> Seq<char> {
    match s {
        Some(v) => v@,
        None => Seq::empty(),
    }
}

/// An optional string, or the empty string in its place.
fn unwrap_or_empty(s: Option<String>) -> (r: String)
    ensures
        r@ == or_empty(s),
{
    match s {
        Some(v) => v,
        None => String::new(),
    }
}

impl Commit {
    /// Builds a commit record from the collaborator's raw values; names,
    /// addresses and the message may be absent and default to the empty
    /// string.
    pub fn from_parts(
        hash: String,
        author: Option<String>,
        author_email: Option<String>,
        author_time: i64,
        committer: Option<String>,
        committer_email: Option<String>,
        commit_time: i64,
        message: Option<String>,
        parents: Vec<String>,
    ) -> (r: Commit)
        ensures
            r.hash@ == hash@,
            r.author@ == or_empty(author),
            r.author_email@ == or_empty(author_email),
            r.author_time == author_time,
            r.committer@ == or_empty(committer),
            r.committer_email@ == or_empty(committer_email),
            r.commit_time == commit_time,
            r.message@ == or_empty(message),
            r.parents@ == parents@,
    {
        Commit {
            hash,
            author: unwrap_or_empty(author),
            author_email: unwrap_or_empty(author_email),
            author_time,
            committer: unwrap_or_empty(committer),
            committer_email: unwrap_or_empty(committer_email),
            commit_time,
            message: unwrap_or_empty(message),
            parents,
        }
    }
}

/// One per-file change record of a tree diff: the file's path and how many
/// lines the diff adds and deletes in it.
pub struct DiffEntry {
    pub path: String,
    pub additions: usize,
    pub deletions: usize,
}

impl DiffEntry {
    pub fn new(path: String, additions: usize, deletions: usize) -> (r: DiffEntry)
        ensures
            r.path == path,
            r.additions == additions,
            r.deletions == deletions,
    {
        DiffEntry { path, additions, deletions }
    }
}

/// Attribution of one line of a file: the line itself and the commit,
/// people and times that last touched it.
pub struct BlameLine {
    pub line_number: usize,
    pub content: String,
    pub commit_hash: String,
    pub author: String,
    pub author_email: String,
    pub author_time: i64,
    pub committer: String,
    pub commit_time: i64,
    pub summary: String,
}

impl BlameLine {
    pub fn new(
        line_number: usize,
        content: String,
        commit_hash: String,
        author: String,
        author_email: String,
        author_time: i64,
        committer: String,
        commit_time: i64,
        summary: String,
    ) -> (r: BlameLine)
        ensures
            r.line_number == line_number,
            r.content == content,
            r.commit_hash == commit_hash,
            r.author == author,
            r.author_email == author_email,
            r.author_time == author_time,
            r.committer == committer,
            r.commit_time == commit_time,
            r.summary == summary,
    {
        BlameLine {
            line_number,
            content,
            commit_hash,
            author,
            author_email,
            author_time,
            committer,
            commit_time,
            summary,
        }
    }
}

} // verus!
