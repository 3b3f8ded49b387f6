//! Repository-level decisions: where a clone lands and how collaborator
//! errors are classified.

use vstd::prelude::*;

verus! {

/// The characters of a path after its last forward slash; the whole path
/// when it has none.
pub open spec fn after_last_slash(s: Seq<char>) -> Seq<char>
    decreases s.len(),
{
    if s.len() == 0 {
        s
    } else if s.last() == '/' {
        Seq::empty()
    } else {
        after_last_slash(s.drop_last()).push(s.last())
    }
}

/// A name with a trailing `.git` removed; a name without one stays
/// itself.
pub open spec fn strip_git_suffix(name: Seq<char>) -> Seq<char> {
    if name.len() >= 4 && name.skip(name.len() - 4) == seq!['.', 'g', 'i', 't'] {
        name.take(name.len() - 4)
    } else {
        name
    }
}

/// The clone target derived from a URL when the caller names none: the
/// URL's last slash-separated component, its `.git` suffix removed,
/// placed in the current directory.
pub open spec fn derived_clone_path(url: Seq<char>) -> Seq<char> {
    seq!['.', '/'] + strip_git_suffix(after_last_slash(url))
}

/// `after_last_slash` is the suffix that starts right after the last
/// slash.
proof fn lemma_after_last_slash(s: Seq<char>, q: int)
    requires
        0 <= q <= s.len(),
        forall|j: int| q <= j < s.len() ==> s[j] != '/',
        q > 0 ==> s[q - 1] == '/',
    ensures
        after_last_slash(s) == s.skip(q),
    decreases s.len(),
{
    if s.len() == 0 {
        assert(s.skip(0) =~= s);
    } else if q == s.len() {
        assert(s.last() == '/');
        assert(s.skip(q) =~= Seq::<char>::empty());
    } else {
        assert(s.last() != '/');
        let t = s.drop_last();
        assert forall|j: int| q <= j < t.len() implies t[j] != '/' by {
            assert(t[j] == s[j]);
        }
        if q > 0 {
            assert(t[q - 1] == s[q - 1]);
        }
        lemma_after_last_slash(t, q);
        assert(t.skip(q).push(s.last()) =~= s.skip(q));
    }
}

/// The filesystem path at which a clone of the repository at `url` is
/// created: the caller's chosen path when one is given, otherwise a
/// directory named after the URL's last component (its `.git` suffix
/// removed) in the current directory.
pub fn clone_target_path(url: &str, path: Option<&str>) -> (r: String)
    ensures
        path matches Some(p) ==> r@ == p@,
        path is None ==> r@ == derived_clone_path(url@),
{
    match path {
        Some(p) => String::from_str(p),
        None => {
            let n = url.unicode_len();
            let mut start: usize = 0;
            let mut i: usize = 0;
            while i < n
                invariant
                    0 <= start <= i <= n,
                    n == url@.len(),
                    forall|j: int| start <= j < i ==> url@[j] != '/',
                    start > 0 ==> url@[start - 1] == '/',
                decreases n - i,
            {
                if url.get_char(i) == '/' {
                    start = i + 1;
                }
                i = i + 1;
            }
            proof {
                lemma_after_last_slash(url@, start as int);
            }
            let name_len = n - start;
            let has_git_suffix = name_len >= 4 && url.get_char(n - 4) == '.' && url.get_char(
                n - 3,
            ) == 'g' && url.get_char(n - 2) == 'i' && url.get_char(n - 1) == 't';
            let ghost name = url@.skip(start as int);
            proof {
                if has_git_suffix {
                    assert(name.skip(name.len() - 4) =~= seq!['.', 'g', 'i', 't']) by {
                        assert(name.skip(name.len() - 4).len() == 4);
                        assert(name.skip(name.len() - 4)[0] == url@[n - 4]);
                        assert(name.skip(name.len() - 4)[1] == url@[n - 3]);
                        assert(name.skip(name.len() - 4)[2] == url@[n - 2]);
                        assert(name.skip(name.len() - 4)[3] == url@[n - 1]);
                    }
                } else if name.len() >= 4 {
                    assert(name.skip(name.len() - 4)[0] == url@[n - 4]);
                    assert(name.skip(name.len() - 4)[1] == url@[n - 3]);
                    assert(name.skip(name.len() - 4)[2] == url@[n - 2]);
                    assert(name.skip(name.len() - 4)[3] == url@[n - 1]);
                    assert(name.skip(name.len() - 4) != seq!['.', 'g', 'i', 't']);
                }
            }
            let end = if has_git_suffix {
                n - 4
            } else {
                n
            };
            let mut r = String::from_str("./");
            r.append(url.substring_char(start, end));
            proof {
                reveal_strlit("./");
                assert(url@.subrange(start as int, end as int) =~= strip_git_suffix(name));
                assert(r@ =~= derived_clone_path(url@));
            }
            r
        },
    }
}

/// The classes of collaborator error that the binding distinguishes: the
/// object database, reference and repository classes, and everything
/// else.
#[derive(Clone, Copy, Debug, PartialEq, Eq, Structural)]
pub enum GitErrorClass {
    Odb,
    Reference,
    Repository,
    Other,
}

/// The binding's error taxonomy: storage-level failures surface as
/// permission/IO errors, everything else as invalid-data errors.
#[derive(Clone, Copy, Debug, PartialEq, Eq, Structural)]
pub enum ErrorCategory {
    PermissionIo,
    InvalidData,
}

/// Classifies a collaborator error by its class: the object database,
/// reference and repository classes are permission/IO failures, all
/// others invalid data.
pub fn classify_git_error(class: GitErrorClass) -> (r: ErrorCategory)
    ensures
        r is PermissionIo <==> (class is Odb || class is Reference || class is Repository),
{
    match class {
        GitErrorClass::Odb => ErrorCategory::PermissionIo,
        GitErrorClass::Reference => ErrorCategory::PermissionIo,
        GitErrorClass::Repository => ErrorCategory::PermissionIo,
        GitErrorClass::Other => ErrorCategory::InvalidData,
    }
}

} // verus!
