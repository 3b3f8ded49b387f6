//! Repository-relative path resolution.
//!
//! Maps an absolute, already-canonicalized file path onto a path relative
//! to a repository's working directory. Both inputs are first brought into
//! a canonical form: an extended-path prefix marker (`//?/` or `\\?\`) is
//! stripped, and every backslash separator is replaced by the canonical
//! forward slash. Each path is then split into its non-empty segments and
//! the working directory's segments are compared, segment by segment,
//! against the leading segments of the absolute path. Whether two segments
//! match is decided either byte-exactly or up to ASCII letter case,
//! according to an explicit configuration flag supplied by the caller.
//!
//! The computation is pure: it never touches the filesystem.

use vstd::prelude::*;

verus! {

/// A path separator accepted on input: the canonical forward slash or the
/// backslash convention of other hosts.
pub open spec fn is_sep_char(c: char) -> bool {
    c == '/' || c == '\\'
}

/// The canonical form of one path character: backslash separators become
/// forward slashes, every other character stays itself.
pub open spec fn canon_char(c: char) -> char {
    if c == '\\' {
        '/'
    } else {
        c
    }
}

/// Pointwise canonicalization of the separators of a path.
pub open spec fn canon_seps(s: Seq<char>) -> Seq<char> {
    s.map_values(|c: char| canon_char(c))
}

/// Whether the path starts with an extended-path prefix marker, in either
/// separator convention.
pub open spec fn has_ext_prefix(s: Seq<char>) -> bool {
    s.len() >= 4 && (s.take(4) == seq!['/', '/', '?', '/'] || s.take(4) == seq![
        '\\',
        '\\',
        '?',
        '\\',
    ])
}

/// The path with a leading extended-path prefix marker removed.
pub open spec fn strip_ext_prefix(s: Seq<char>) -> Seq<char> {
    if has_ext_prefix(s) {
        s.skip(4)
    } else {
        s
    }
}

/// The canonical form of a path: the extended-path prefix marker stripped,
/// then all separators made forward slashes.
pub open spec fn canonical(s: Seq<char>) -> Seq<char> {
    canon_seps(strip_ext_prefix(s))
}

/// The length of the leading run of non-separator characters of a
/// canonical path.
pub open spec fn run_len(s: Seq<char>) -> nat
    decreases s.len(),
{
    if s.len() == 0 || s[0] == '/' {
        0
    } else {
        (1 + run_len(s.skip(1))) as nat
    }
}

/// The non-empty segments of a canonical path, in order. Leading,
/// trailing and repeated separators contribute no segments.
pub open spec fn split_segs(s: Seq<char>) -> Seq<Seq<char>>
    decreases s.len(),
    via split_segs_decreases
{
    if s.len() == 0 {
        Seq::empty()
    } else if s[0] == '/' {
        split_segs(s.skip(1))
    } else {
        seq![s.take(run_len(s) as int)] + split_segs(s.skip(run_len(s) as int))
    }
}

#[via_fn]
proof fn split_segs_decreases(s: Seq<char>) {
    if s.len() != 0 && s[0] != '/' {
        lemma_run_len_le(s);
        assert(run_len(s) == (1 + run_len(s.skip(1))) as nat);
        assert(s.skip(run_len(s) as int).len() < s.len());
    }
}

/// The leading run never reaches past the end of the path.
pub(crate) proof fn lemma_run_len_le(s: Seq<char>)
    ensures
        run_len(s) <= s.len(),
    decreases s.len(),
{
    if s.len() == 0 || s[0] == '/' {
    } else {
        lemma_run_len_le(s.skip(1));
    }
}

/// The ASCII-case-folded value of a character: an upper-case ASCII letter
/// folds to its lower-case counterpart, every other character to itself.
pub open spec fn fold_char(c: char) -> int {
    if ('A' as int) <= (c as int) && (c as int) <= ('Z' as int) {
        c as int + 32
    } else {
        c as int
    }
}

/// Whether two path segments match under the given configuration:
/// byte-exactly, or pointwise up to ASCII letter case.
pub open spec fn seg_matches(a: Seq<char>, b: Seq<char>, case_insensitive: bool) -> bool {
    if case_insensitive {
        a.len() == b.len() && (forall|i: int|
            0 <= i < a.len() ==> fold_char(#[trigger] a[i]) == fold_char(b[i]))
    } else {
        a == b
    }
}

/// Whether the working directory's segments match, element by element, the
/// leading segments of the absolute path's segments.
pub open spec fn segs_prefix_match(w: Seq<Seq<char>>, p: Seq<Seq<char>>, ci: bool) -> bool {
    w.len() <= p.len() && (forall|i: int|
        0 <= i < w.len() ==> seg_matches(#[trigger] w[i], p[i], ci))
}

/// The segments joined with the canonical separator; the empty sequence of
/// segments joins to the empty path.
pub open spec fn join_segs(segs: Seq<Seq<char>>) -> Seq<char>
    decreases segs.len(),
{
    if segs.len() == 0 {
        Seq::empty()
    } else if segs.len() == 1 {
        segs[0]
    } else {
        segs[0] + seq!['/'] + join_segs(segs.skip(1))
    }
}

/// The segments of a path in canonical form.
pub open spec fn path_segments(s: Seq<char>) -> Seq<Seq<char>> {
    split_segs(canonical(s))
}

/// Whether the absolute path `p` lies within the working directory `w`:
/// `w`'s segments are a segment-for-segment match of a prefix of `p`'s.
pub open spec fn within_workdir(p: Seq<char>, w: Seq<char>, ci: bool) -> bool {
    segs_prefix_match(path_segments(w), path_segments(p), ci)
}

/// The segments of `p` that remain after the working directory's segments.
pub open spec fn relative_segments(p: Seq<char>, w: Seq<char>) -> Seq<Seq<char>> {
    path_segments(p).skip(path_segments(w).len() as int)
}

/// The relative path that a successful resolution returns: the remaining
/// segments of `p`, joined with the canonical separator.
pub open spec fn resolved_path(p: Seq<char>, w: Seq<char>) -> Seq<char> {
    join_segs(relative_segments(p, w))
}

/// A plain path segment: non-empty and free of separators in either
/// convention. The segments that splitting produces are of this form.
pub open spec fn is_plain_segment(s: Seq<char>) -> bool {
    s.len() > 0 && (forall|i: int| 0 <= i < s.len() ==> !is_sep_char(#[trigger] s[i]))
}

/// The working directory joined with relative segments by the canonical
/// separator.
pub open spec fn joined_with(w: Seq<char>, segs: Seq<Seq<char>>) -> Seq<char> {
    w + seq!['/'] + join_segs(segs)
}

/// Why a resolution failed.
#[derive(Debug)]
pub enum ResolveError {
    /// The absolute path is not contained in the working directory. Both
    /// input paths are carried along for diagnostics.
    PathOutsideRepository { absolute_path: String, working_directory: String },
    /// The repository has no working directory to resolve against.
    BareRepositoryUnsupported,
}

/// Whether the path starts with an extended-path prefix marker.
fn has_extended_prefix(s: &str) -> (r: bool)
    ensures
        r == has_ext_prefix(s@),
{
    let n = s.unicode_len();
    if n < 4 {
        return false;
    }
    let c0 = s.get_char(0);
    let c1 = s.get_char(1);
    let c2 = s.get_char(2);
    let c3 = s.get_char(3);
    let unix_marker = c0 == '/' && c1 == '/' && c2 == '?' && c3 == '/';
    let win_marker = c0 == '\\' && c1 == '\\' && c2 == '?' && c3 == '\\';
    proof {
        if unix_marker {
            assert(s@.take(4) =~= seq!['/', '/', '?', '/']);
        }
        if win_marker {
            assert(s@.take(4) =~= seq!['\\', '\\', '?', '\\']);
        }
        if !unix_marker && !win_marker {
            assert(s@.take(4)[0] == s@[0] && s@.take(4)[1] == s@[1] && s@.take(4)[2] == s@[2]
                && s@.take(4)[3] == s@[3]);
            assert(s@.take(4) != seq!['/', '/', '?', '/']);
            assert(s@.take(4) != seq!['\\', '\\', '?', '\\']);
        }
    }
    unix_marker || win_marker
}

/// The characters of the leading run are not separators, and the run ends
/// at the end of the path or at a separator.
pub(crate) proof fn lemma_run_len_chars(s: Seq<char>)
    ensures
        run_len(s) <= s.len(),
        forall|i: int| 0 <= i < run_len(s) ==> s[i] != '/',
        run_len(s) < s.len() ==> s[run_len(s) as int] == '/',
    decreases s.len(),
{
    lemma_run_len_le(s);
    if s.len() == 0 || s[0] == '/' {
    } else {
        lemma_run_len_chars(s.skip(1));
        assert forall|i: int| 0 <= i < run_len(s) implies s[i] != '/' by {
            if i > 0 {
                assert(s.skip(1)[i - 1] != '/');
            }
        }
    }
}

/// A stretch of non-separator characters ending at the path's end or at a
/// separator is exactly the leading run.
pub(crate) proof fn lemma_run_len_is(s: Seq<char>, k: int)
    requires
        0 <= k <= s.len(),
        forall|i: int| 0 <= i < k ==> s[i] != '/',
        k < s.len() ==> s[k] == '/',
    ensures
        run_len(s) == k,
    decreases k,
{
    if k == 0 {
        if s.len() > 0 {
            assert(s[0] == '/');
        }
    } else {
        assert(s[0] != '/');
        assert forall|i: int| 0 <= i < k - 1 implies s.skip(1)[i] != '/' by {
            assert(s.skip(1)[i] == s[i + 1]);
        }
        lemma_run_len_is(s.skip(1), k - 1);
    }
}

/// The views of a sequence of owned segments.
pub open spec fn seg_views(v: Seq<String>) -> Seq<Seq<char>> {
    v.map_values(|x: String| x@)
}

/// The non-empty segments of a path already in canonical form.
fn split_path(s: &str) -> (r: Vec<String>)
    ensures
        seg_views(r@) == split_segs(s@),
{
    let n = s.unicode_len();
    let mut r: Vec<String> = Vec::new();
    let mut i: usize = 0;
    proof {
        assert(s@.skip(0) =~= s@);
    }
    while i < n
        invariant
            0 <= i <= n,
            n == s@.len(),
            seg_views(r@) + split_segs(s@.skip(i as int)) == split_segs(s@),
        decreases n - i,
    {
        let c = s.get_char(i);
        if c == '/' {
            proof {
                assert(s@.skip(i as int)[0] == '/');
                assert(s@.skip(i as int).skip(1) =~= s@.skip(i + 1));
            }
            i = i + 1;
        } else {
            let mut j: usize = i + 1;
            while j < n && s.get_char(j) != '/'
                invariant
                    i < j <= n,
                    n == s@.len(),
                    forall|k: int| i <= k < j ==> s@[k] != '/',
                decreases n - j,
            {
                j = j + 1;
            }
            let seg = String::from_str(s.substring_char(i, j));
            proof {
                let rest = s@.skip(i as int);
                assert forall|k: int| 0 <= k < j - i implies rest[k] != '/' by {
                    assert(rest[k] == s@[i + k]);
                }
                if j < n {
                    assert(rest[j - i] == s@[j as int]);
                }
                lemma_run_len_is(rest, j - i);
                assert(rest.take(j - i) =~= s@.subrange(i as int, j as int));
                assert(rest.skip(j - i) =~= s@.skip(j as int));
                assert(split_segs(rest) == seq![seg@] + split_segs(s@.skip(j as int)));
            }
            let ghost old_r = r@;
            r.push(seg);
            proof {
                assert(seg_views(r@) =~= seg_views(old_r) + seq![seg@]);
                assert(seg_views(r@) + split_segs(s@.skip(j as int)) =~= seg_views(old_r) + (seq![
                    seg@,
                ] + split_segs(s@.skip(j as int))));
            }
            i = j;
        }
    }
    proof {
        assert(s@.skip(n as int) =~= Seq::<char>::empty());
        assert(split_segs(s@.skip(n as int)) =~= Seq::<Seq<char>>::empty());
        assert(seg_views(r@) =~= seg_views(r@) + Seq::<Seq<char>>::empty());
    }
    r
}

/// The canonical form of a path, as an owned string.
fn canonicalize(s: &str) -> (r: String)
    ensures
        r@ == canonical(s@),
{
    let n = s.unicode_len();
    let start: usize = if has_extended_prefix(s) {
        4
    } else {
        0
    };
    let mut r = String::new();
    let mut i: usize = start;
    while i < n
        invariant
            start <= i <= n,
            n == s@.len(),
            r@ == canon_seps(s@.subrange(start as int, i as int)),
        decreases n - i,
    {
        let c = s.get_char(i);
        if c == '\\' {
            r.append("/");
        } else {
            let piece = s.substring_char(i, i + 1);
            r.append(piece);
        }
        proof {
            reveal_strlit("/");
            assert(s@.subrange(start as int, i + 1) =~= s@.subrange(start as int, i as int).push(
                s@[i as int],
            ));
            assert(canon_seps(s@.subrange(start as int, i + 1)) =~= canon_seps(
                s@.subrange(start as int, i as int),
            ).push(canon_char(s@[i as int])));
            if c == '\\' {
                assert(r@ =~= canon_seps(s@.subrange(start as int, i + 1)));
            } else {
                assert(s@.subrange(i as int, i + 1) =~= seq![s@[i as int]]);
                assert(r@ =~= canon_seps(s@.subrange(start as int, i + 1)));
            }
        }
        i = i + 1;
    }
    proof {
        assert(s@.subrange(start as int, n as int) =~= strip_ext_prefix(s@));
        assert(r@ == canonical(s@));
    }
    r
}

/// The ASCII-case-folded value of one character.
fn fold_char_exec(c: char) -> (r: u32)
    ensures
        r == fold_char(c),
{
    let v = c as u32;
    if 'A' as u32 <= v && v <= 'Z' as u32 {
        v + 32
    } else {
        v
    }
}

/// Whether two segments match under the given case-sensitivity
/// configuration.
fn segments_equal(a: &String, b: &String, case_insensitive: bool) -> (r: bool)
    ensures
        r == seg_matches(a@, b@, case_insensitive),
{
    if !case_insensitive {
        return a.eq(b);
    }
    let n = a.as_str().unicode_len();
    let m = b.as_str().unicode_len();
    if n != m {
        return false;
    }
    let mut i: usize = 0;
    while i < n
        invariant
            0 <= i <= n,
            n == a@.len(),
            n == b@.len(),
            forall|k: int| 0 <= k < i ==> fold_char(#[trigger] a@[k]) == fold_char(b@[k]),
        decreases n - i,
    {
        let ca = a.as_str().get_char(i);
        let cb = b.as_str().get_char(i);
        if fold_char_exec(ca) != fold_char_exec(cb) {
            return false;
        }
        i = i + 1;
    }
    true
}

/// Whether the working directory's segments match the leading segments of
/// the absolute path's segments.
fn segments_prefix_matches(w: &Vec<String>, p: &Vec<String>, case_insensitive: bool) -> (r: bool)
    ensures
        r == segs_prefix_match(seg_views(w@), seg_views(p@), case_insensitive),
{
    if w.len() > p.len() {
        return false;
    }
    let n = w.len();
    let mut i: usize = 0;
    while i < n
        invariant
            0 <= i <= n,
            n == w@.len(),
            n <= p@.len(),
            forall|k: int|
                0 <= k < i ==> seg_matches(
                    #[trigger] seg_views(w@)[k],
                    seg_views(p@)[k],
                    case_insensitive,
                ),
        decreases n - i,
    {
        if !segments_equal(&w[i], &p[i], case_insensitive) {
            assert(!seg_matches(seg_views(w@)[i as int], seg_views(p@)[i as int], case_insensitive));
            return false;
        }
        i = i + 1;
    }
    true
}

/// `join_segs` over a sequence extended at its end.
proof fn lemma_join_push(t: Seq<Seq<char>>, x: Seq<char>)
    ensures
        join_segs(t.push(x)) == if t.len() == 0 {
            x
        } else {
            join_segs(t) + seq!['/'] + x
        },
    decreases t.len(),
{
    let u = t.push(x);
    if t.len() == 0 {
        assert(u.len() == 1);
        assert(u[0] == x);
    } else if t.len() == 1 {
        assert(u.len() == 2);
        assert(u.skip(1) =~= seq![x]);
        assert(join_segs(u.skip(1)) == x);
        assert(join_segs(u) == u[0] + seq!['/'] + x);
        assert(u[0] == t[0]);
        assert(join_segs(t) == t[0]);
    } else {
        lemma_join_push(t.skip(1), x);
        assert(u.skip(1) =~= t.skip(1).push(x));
        assert(join_segs(u) == u[0] + seq!['/'] + join_segs(u.skip(1)));
        assert(join_segs(u) == t[0] + seq!['/'] + (join_segs(t.skip(1)) + seq!['/'] + x));
        assert(t[0] + seq!['/'] + (join_segs(t.skip(1)) + seq!['/'] + x) =~= (t[0] + seq!['/']
            + join_segs(t.skip(1))) + seq!['/'] + x);
    }
}

/// The segments from position `from` on, joined with the canonical
/// separator.
fn join_segments(segs: &Vec<String>, from: usize) -> (r: String)
    requires
        from <= segs@.len(),
    ensures
        r@ == join_segs(seg_views(segs@).skip(from as int)),
{
    let n = segs.len();
    if from == n {
        proof {
            assert(seg_views(segs@).skip(from as int) =~= Seq::<Seq<char>>::empty());
        }
        return String::new();
    }
    let mut r = segs[from].clone();
    let mut i: usize = from + 1;
    proof {
        assert(seg_views(segs@).subrange(from as int, from + 1) =~= seq![segs@[from as int]@]);
    }
    while i < n
        invariant
            from < i <= n,
            n == segs@.len(),
            r@ == join_segs(seg_views(segs@).subrange(from as int, i as int)),
        decreases n - i,
    {
        let ghost done = seg_views(segs@).subrange(from as int, i as int);
        r.append("/");
        r.append(segs[i].as_str());
        proof {
            reveal_strlit("/");
            lemma_join_push(done, segs@[i as int]@);
            assert(seg_views(segs@).subrange(from as int, i + 1) =~= done.push(segs@[i as int]@));
            assert(done.len() > 0);
            assert(r@ =~= join_segs(done) + seq!['/'] + segs@[i as int]@);
        }
        i = i + 1;
    }
    proof {
        assert(seg_views(segs@).subrange(from as int, n as int) =~= seg_views(segs@).skip(
            from as int,
        ));
    }
    r
}

/// Resolves an absolute, already-canonicalized file path against a
/// repository's working directory.
///
/// Succeeds exactly when the working directory's segments match, segment
/// by segment under the given case-sensitivity configuration, a prefix of
/// the path's segments; the result is then the remaining segments joined
/// with the canonical separator (empty when the path is the working
/// directory itself). Otherwise it fails with `PathOutsideRepository`,
/// carrying both inputs for diagnostics.
pub fn resolve(abs_path: &str, workdir: &str, case_insensitive: bool) -> (r: Result<
    String,
    ResolveError,
>)
    ensures
        r is Ok <==> within_workdir(abs_path@, workdir@, case_insensitive),
        r is Ok ==> r->Ok_0@ == resolved_path(abs_path@, workdir@),
        r is Err ==> (r->Err_0 matches ResolveError::PathOutsideRepository {
            absolute_path,
            working_directory,
        } && absolute_path@ == abs_path@ && working_directory@ == workdir@),
{
    let p_canonical = canonicalize(abs_path);
    let w_canonical = canonicalize(workdir);
    let p_segs = split_path(p_canonical.as_str());
    let w_segs = split_path(w_canonical.as_str());
    if segments_prefix_matches(&w_segs, &p_segs, case_insensitive) {
        let joined = join_segments(&p_segs, w_segs.len());
        Ok(joined)
    } else {
        Err(
            ResolveError::PathOutsideRepository {
                absolute_path: String::from_str(abs_path),
                working_directory: String::from_str(workdir),
            },
        )
    }
}

/// Resolves a file path against the working directory that the repository
/// collaborator reported, or fails with `BareRepositoryUnsupported` when
/// the repository has none.
pub fn get_repository_relative_path(
    abs_path: &str,
    workdir: Option<&str>,
    case_insensitive: bool,
) -> (r: Result<String, ResolveError>)
    ensures
        workdir is None ==> (r matches Err(e) && e is BareRepositoryUnsupported),
        workdir matches Some(w) ==> {
            &&& r is Ok <==> within_workdir(abs_path@, w@, case_insensitive)
            &&& r is Ok ==> r->Ok_0@ == resolved_path(abs_path@, w@)
            &&& r is Err ==> (r->Err_0 matches ResolveError::PathOutsideRepository {
                absolute_path,
                working_directory,
            } && absolute_path@ == abs_path@ && working_directory@ == w@)
        },
{
    match workdir {
        None => Err(ResolveError::BareRepositoryUnsupported),
        Some(w) => resolve(abs_path, w, case_insensitive),
    }
}

} // verus!
