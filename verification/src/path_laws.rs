//! Laws of the path resolver.
//!
//! Public proof functions stating the resolver's algebra: a path formed by
//! joining the working directory with relative segments resolves back to
//! exactly those segments; a working directory resolves against itself to
//! the empty relative path; resolution is idempotent under re-joining;
//! trailing separators change nothing; and the case-sensitivity flag can
//! change the outcome only when corresponding segments differ solely by
//! letter case.

use vstd::prelude::*;

use crate::paths::canon_char;
use crate::paths::canon_seps;
use crate::paths::canonical;
use crate::paths::fold_char;
use crate::paths::has_ext_prefix;
use crate::paths::is_plain_segment;
use crate::paths::is_sep_char;
use crate::paths::join_segs;
use crate::paths::joined_with;
use crate::paths::lemma_run_len_chars;
use crate::paths::lemma_run_len_is;
use crate::paths::path_segments;
use crate::paths::relative_segments;
use crate::paths::resolved_path;
use crate::paths::run_len;
use crate::paths::seg_matches;
use crate::paths::segs_prefix_match;
use crate::paths::split_segs;
use crate::paths::strip_ext_prefix;
use crate::paths::within_workdir;

verus! {

/// Splitting distributes over joining two paths with a separator.
proof fn lemma_split_add(a: Seq<char>, b: Seq<char>)
    ensures
        split_segs(a + seq!['/'] + b) == split_segs(a) + split_segs(b),
    decreases a.len(),
{
    let s = a + seq!['/'] + b;
    if a.len() == 0 {
        assert(s =~= seq!['/'] + b);
        assert(s[0] == '/');
        assert(s.skip(1) =~= b);
        assert(split_segs(a) + split_segs(b) =~= split_segs(b));
    } else if a[0] == '/' {
        assert(s[0] == '/');
        assert(s.skip(1) =~= a.skip(1) + seq!['/'] + b);
        lemma_split_add(a.skip(1), b);
    } else {
        lemma_run_len_chars(a);
        let k = run_len(a) as int;
        assert(s[0] == a[0]);
        assert forall|i: int| 0 <= i < k implies s[i] != '/' by {
            assert(s[i] == a[i]);
        }
        if k < a.len() {
            assert(s[k] == a[k]);
        } else {
            assert(s[k] == '/');
        }
        lemma_run_len_is(s, k);
        assert(split_segs(s) == seq![s.take(k)] + split_segs(s.skip(k)));
        assert(s.take(k) =~= a.take(k));
        assert(s.skip(k) =~= a.skip(k) + seq!['/'] + b);
        lemma_split_add(a.skip(k), b);
        assert(split_segs(s) == seq![a.take(k)] + (split_segs(a.skip(k)) + split_segs(b)));
        assert(split_segs(a) == seq![a.take(k)] + split_segs(a.skip(k)));
        assert(seq![a.take(k)] + (split_segs(a.skip(k)) + split_segs(b)) =~= (seq![a.take(k)]
            + split_segs(a.skip(k))) + split_segs(b));
    }
}

/// A plain segment splits into just itself.
proof fn lemma_split_single(s: Seq<char>)
    requires
        is_plain_segment(s),
    ensures
        split_segs(s) == seq![s],
{
    assert(!is_sep_char(s[0]));
    lemma_run_len_is(s, s.len() as int);
    assert(split_segs(s) == seq![s.take(s.len() as int)] + split_segs(s.skip(s.len() as int)));
    assert(s.take(s.len() as int) =~= s);
    assert(s.skip(s.len() as int) =~= Seq::<char>::empty());
    assert(seq![s] + split_segs(Seq::<char>::empty()) =~= seq![s]);
}

/// Splitting undoes joining: the segments of a joined path are the joined
/// segments themselves.
pub proof fn lemma_split_of_join(segs: Seq<Seq<char>>)
    requires
        forall|k: int| 0 <= k < segs.len() ==> is_plain_segment(#[trigger] segs[k]),
    ensures
        split_segs(join_segs(segs)) == segs,
    decreases segs.len(),
{
    if segs.len() == 0 {
    } else if segs.len() == 1 {
        lemma_split_single(segs[0]);
        assert(seq![segs[0]] =~= segs);
    } else {
        let rest = segs.skip(1);
        assert(forall|k: int| 0 <= k < rest.len() ==> is_plain_segment(#[trigger] rest[k]));
        lemma_split_of_join(rest);
        lemma_split_single(segs[0]);
        lemma_split_add(segs[0], join_segs(rest));
        assert(join_segs(segs) == segs[0] + seq!['/'] + join_segs(rest));
        assert(split_segs(join_segs(segs)) == seq![segs[0]] + rest);
        assert(seq![segs[0]] + rest =~= segs);
    }
}

/// A joined path contains no backslash when its segments are plain.
proof fn lemma_join_no_backslash(segs: Seq<Seq<char>>)
    requires
        forall|k: int| 0 <= k < segs.len() ==> is_plain_segment(#[trigger] segs[k]),
    ensures
        forall|i: int| 0 <= i < join_segs(segs).len() ==> #[trigger] join_segs(segs)[i] != '\\',
    decreases segs.len(),
{
    if segs.len() == 0 {
    } else if segs.len() == 1 {
        assert forall|i: int| 0 <= i < join_segs(segs).len() implies #[trigger] join_segs(segs)[i]
            != '\\' by {
            assert(!is_sep_char(segs[0][i]));
        }
    } else {
        let rest = segs.skip(1);
        lemma_join_no_backslash(rest);
        let j = join_segs(segs);
        let head = segs[0];
        assert(j == head + seq!['/'] + join_segs(rest));
        assert forall|i: int| 0 <= i < j.len() implies #[trigger] j[i] != '\\' by {
            if i < head.len() {
                assert(j[i] == head[i]);
                assert(!is_sep_char(head[i]));
            } else if i == head.len() {
                assert(j[i] == '/');
            } else {
                assert(j[i] == join_segs(rest)[i - head.len() - 1]);
            }
        }
    }
}

/// Every segment that splitting a backslash-free path produces is plain.
proof fn lemma_split_elements_plain(s: Seq<char>)
    requires
        forall|i: int| 0 <= i < s.len() ==> #[trigger] s[i] != '\\',
    ensures
        forall|k: int|
            0 <= k < split_segs(s).len() ==> is_plain_segment(#[trigger] split_segs(s)[k]),
    decreases s.len(),
{
    if s.len() == 0 {
    } else if s[0] == '/' {
        assert forall|i: int| 0 <= i < s.skip(1).len() implies #[trigger] s.skip(1)[i] != '\\' by {
            assert(s.skip(1)[i] == s[i + 1]);
        }
        lemma_split_elements_plain(s.skip(1));
        assert(split_segs(s) == split_segs(s.skip(1)));
        assert forall|k: int|
            0 <= k < split_segs(s).len() implies is_plain_segment(
            #[trigger] split_segs(s)[k],
        ) by {
            assert(split_segs(s)[k] == split_segs(s.skip(1))[k]);
        }
    } else {
        lemma_run_len_chars(s);
        let k = run_len(s) as int;
        let head = s.take(k);
        assert(is_plain_segment(head)) by {
            assert forall|i: int| 0 <= i < head.len() implies !is_sep_char(#[trigger] head[i]) by {
                assert(head[i] == s[i]);
            }
        }
        assert forall|i: int| 0 <= i < s.skip(k).len() implies #[trigger] s.skip(k)[i] != '\\' by {
            assert(s.skip(k)[i] == s[i + k]);
        }
        lemma_split_elements_plain(s.skip(k));
        assert forall|m: int|
            0 <= m < split_segs(s).len() implies is_plain_segment(
            #[trigger] split_segs(s)[m],
        ) by {
            if m == 0 {
                assert(split_segs(s)[0] == head);
            } else {
                assert(split_segs(s)[m] == split_segs(s.skip(k))[m - 1]);
            }
        }
    }
}

/// The canonical form of a path contains no backslash.
proof fn lemma_canonical_no_backslash(s: Seq<char>)
    ensures
        forall|i: int| 0 <= i < canonical(s).len() ==> #[trigger] canonical(s)[i] != '\\',
{
    assert forall|i: int| 0 <= i < canonical(s).len() implies #[trigger] canonical(s)[i]
        != '\\' by {
        assert(canonical(s)[i] == canon_char(strip_ext_prefix(s)[i]));
    }
}

/// Canonicalization of a working directory extended by a separator and a
/// backslash-free tail appends the tail to the working directory's own
/// canonical form, provided the extension introduces or removes no
/// extended-path prefix marker.
proof fn lemma_canonical_of_append(w: Seq<char>, tail: Seq<char>)
    requires
        forall|i: int| 0 <= i < tail.len() ==> #[trigger] tail[i] != '\\',
        has_ext_prefix(w + seq!['/'] + tail) == has_ext_prefix(w),
    ensures
        canonical(w + seq!['/'] + tail) == canonical(w) + seq!['/'] + tail,
{
    let p = w + seq!['/'] + tail;
    assert(strip_ext_prefix(p) =~= strip_ext_prefix(w) + seq!['/'] + tail);
    assert(canonical(p) =~= canonical(w) + seq!['/'] + tail) by {
        assert forall|i: int| 0 <= i < canonical(p).len() implies canonical(p)[i] == (canonical(w)
            + seq!['/'] + tail)[i] by {
            let sw = strip_ext_prefix(w);
            assert(canonical(p)[i] == canon_char(strip_ext_prefix(p)[i]));
            if i < sw.len() {
                assert(strip_ext_prefix(p)[i] == sw[i]);
            } else if i == sw.len() {
                assert(strip_ext_prefix(p)[i] == '/');
            } else {
                assert(strip_ext_prefix(p)[i] == tail[i - sw.len() - 1]);
            }
        }
    }
}

/// The segments of a joined path are the working directory's segments
/// followed by the joined segments.
proof fn lemma_path_segments_of_joined(w: Seq<char>, segs: Seq<Seq<char>>)
    requires
        forall|k: int| 0 <= k < segs.len() ==> is_plain_segment(#[trigger] segs[k]),
        has_ext_prefix(joined_with(w, segs)) == has_ext_prefix(w),
    ensures
        path_segments(joined_with(w, segs)) == path_segments(w) + segs,
{
    let j = join_segs(segs);
    lemma_join_no_backslash(segs);
    lemma_canonical_of_append(w, j);
    lemma_split_add(canonical(w), j);
    lemma_split_of_join(segs);
}

/// Law: a path formed by joining the working directory with plain relative
/// segments lies within the working directory and resolves to exactly
/// those segments, under either case-sensitivity configuration. The one
/// proviso is that appending the segments neither creates nor destroys an
/// extended-path prefix marker.
pub proof fn lemma_resolve_joined(w: Seq<char>, segs: Seq<Seq<char>>, ci: bool)
    requires
        forall|k: int| 0 <= k < segs.len() ==> is_plain_segment(#[trigger] segs[k]),
        has_ext_prefix(joined_with(w, segs)) == has_ext_prefix(w),
    ensures
        within_workdir(joined_with(w, segs), w, ci),
        resolved_path(joined_with(w, segs), w) == join_segs(segs),
{
    let p = joined_with(w, segs);
    lemma_path_segments_of_joined(w, segs);
    let pw = path_segments(w);
    let pp = path_segments(p);
    assert forall|i: int| 0 <= i < pw.len() implies seg_matches(#[trigger] pw[i], pp[i], ci) by {
        assert(pp[i] == pw[i]);
    }
    assert(relative_segments(p, w) =~= segs);
}

/// Law: a working directory resolves against itself to the empty relative
/// path, under either case-sensitivity configuration.
pub proof fn lemma_resolve_workdir_itself(w: Seq<char>, ci: bool)
    ensures
        within_workdir(w, w, ci),
        resolved_path(w, w) == Seq::<char>::empty(),
{
    let pw = path_segments(w);
    assert forall|i: int| 0 <= i < pw.len() implies seg_matches(#[trigger] pw[i], pw[i], ci) by {}
    assert(relative_segments(w, w) =~= Seq::<Seq<char>>::empty());
}

/// A successful resolution's remaining segments are plain.
proof fn lemma_relative_segments_plain(p: Seq<char>, w: Seq<char>, ci: bool)
    requires
        within_workdir(p, w, ci),
    ensures
        forall|m: int|
            0 <= m < relative_segments(p, w).len() ==> is_plain_segment(
                #[trigger] relative_segments(p, w)[m],
            ),
{
    let segs = relative_segments(p, w);
    lemma_canonical_no_backslash(p);
    lemma_split_elements_plain(canonical(p));
    let pp = path_segments(p);
    let k = path_segments(w).len() as int;
    assert forall|m: int| 0 <= m < segs.len() implies is_plain_segment(#[trigger] segs[m]) by {
        assert(segs[m] == pp[m + k]);
    }
}

/// Law: resolution is idempotent. Joining a successful result back onto
/// the working directory and resolving again returns the same result,
/// provided the re-joined path neither gains nor loses an extended-path
/// prefix marker.
pub proof fn lemma_resolve_idempotent(p: Seq<char>, w: Seq<char>, ci: bool)
    requires
        within_workdir(p, w, ci),
        has_ext_prefix(joined_with(w, relative_segments(p, w))) == has_ext_prefix(w),
    ensures
        within_workdir(joined_with(w, relative_segments(p, w)), w, ci),
        resolved_path(joined_with(w, relative_segments(p, w)), w) == resolved_path(p, w),
{
    lemma_relative_segments_plain(p, w, ci);
    lemma_resolve_joined(w, relative_segments(p, w), ci);
}

/// Law: a successful result, joined back onto the working directory,
/// denotes the same location as the absolute path it came from: the two
/// paths have the same segments, compared under the configuration that
/// resolution used.
pub proof fn lemma_rejoined_denotes_same_location(p: Seq<char>, w: Seq<char>, ci: bool)
    requires
        within_workdir(p, w, ci),
        has_ext_prefix(joined_with(w, relative_segments(p, w))) == has_ext_prefix(w),
    ensures
        path_segments(joined_with(w, relative_segments(p, w))).len() == path_segments(p).len(),
        forall|i: int|
            0 <= i < path_segments(p).len() ==> seg_matches(
                #[trigger] path_segments(joined_with(w, relative_segments(p, w)))[i],
                path_segments(p)[i],
                ci,
            ),
{
    let segs = relative_segments(p, w);
    let pw = path_segments(w);
    let pp = path_segments(p);
    let k = pw.len() as int;
    lemma_relative_segments_plain(p, w, ci);
    lemma_path_segments_of_joined(w, segs);
    let rejoined = path_segments(joined_with(w, segs));
    assert(rejoined == pw + segs);
    assert forall|i: int| 0 <= i < pp.len() implies seg_matches(
        #[trigger] rejoined[i],
        pp[i],
        ci,
    ) by {
        if i < k {
            assert(rejoined[i] == pw[i]);
            assert(seg_matches(pw[i], pp[i], ci));
        } else {
            assert(rejoined[i] == segs[i - k]);
            assert(segs[i - k] == pp[i]);
        }
    }
}

/// Canonical path segments are unchanged by one trailing separator, in
/// either separator convention, provided the appended character neither
/// creates nor destroys an extended-path prefix marker.
proof fn lemma_path_segments_trailing_sep(s: Seq<char>, c: char)
    requires
        is_sep_char(c),
        has_ext_prefix(s.push(c)) == has_ext_prefix(s),
    ensures
        path_segments(s.push(c)) == path_segments(s),
{
    assert(strip_ext_prefix(s.push(c)) =~= strip_ext_prefix(s).push(c));
    assert(canonical(s.push(c)) =~= canonical(s).push('/')) by {
        assert forall|i: int| 0 <= i < canonical(s.push(c)).len() implies canonical(s.push(c))[i]
            == canonical(s).push('/')[i] by {
            let t = strip_ext_prefix(s);
            assert(canonical(s.push(c))[i] == canon_char(t.push(c)[i]));
            if i < t.len() {
                assert(t.push(c)[i] == t[i]);
            } else {
                assert(t.push(c)[i] == c);
            }
        }
    }
    lemma_split_add(canonical(s), Seq::<char>::empty());
    assert(canonical(s) + seq!['/'] + Seq::<char>::empty() =~= canonical(s).push('/'));
    assert(split_segs(canonical(s)) + split_segs(Seq::<char>::empty()) =~= split_segs(
        canonical(s),
    ));
}

/// Law: a trailing separator on the absolute path changes neither whether
/// resolution succeeds nor its result.
pub proof fn lemma_trailing_separator_abs(p: Seq<char>, w: Seq<char>, ci: bool, c: char)
    requires
        is_sep_char(c),
        has_ext_prefix(p.push(c)) == has_ext_prefix(p),
    ensures
        within_workdir(p.push(c), w, ci) == within_workdir(p, w, ci),
        resolved_path(p.push(c), w) == resolved_path(p, w),
{
    lemma_path_segments_trailing_sep(p, c);
}

/// Law: a trailing separator on the working directory changes neither
/// whether resolution succeeds nor its result.
pub proof fn lemma_trailing_separator_workdir(p: Seq<char>, w: Seq<char>, ci: bool, c: char)
    requires
        is_sep_char(c),
        has_ext_prefix(w.push(c)) == has_ext_prefix(w),
    ensures
        within_workdir(p, w.push(c), ci) == within_workdir(p, w, ci),
        resolved_path(p, w.push(c)) == resolved_path(p, w),
{
    lemma_path_segments_trailing_sep(w, c);
}

/// Law: a byte-exact match is also a case-insensitive match, so a path
/// that resolves under the case-sensitive configuration resolves, to the
/// same result, under the case-insensitive one.
pub proof fn lemma_exact_match_implies_folded(p: Seq<char>, w: Seq<char>)
    ensures
        within_workdir(p, w, false) ==> within_workdir(p, w, true),
{
    if within_workdir(p, w, false) {
        let pw = path_segments(w);
        let pp = path_segments(p);
        assert forall|i: int| 0 <= i < pw.len() implies seg_matches(
            #[trigger] pw[i],
            pp[i],
            true,
        ) by {
            assert(seg_matches(pw[i], pp[i], false));
        }
    }
}

/// Law: the case-sensitivity flag changes the outcome only when some
/// segment of the working directory matches the corresponding segment of
/// the path up to letter case but not byte-exactly. The result itself, on
/// success, never depends on the flag.
pub proof fn lemma_case_flag_difference(p: Seq<char>, w: Seq<char>)
    ensures
        within_workdir(p, w, true) != within_workdir(p, w, false) ==> exists|i: int|
            0 <= i < path_segments(w).len() && #[trigger] seg_matches(
                path_segments(w)[i],
                path_segments(p)[i],
                true,
            ) && !seg_matches(path_segments(w)[i], path_segments(p)[i], false),
{
    lemma_exact_match_implies_folded(p, w);
    if within_workdir(p, w, true) != within_workdir(p, w, false) {
        let pw = path_segments(w);
        let pp = path_segments(p);
        assert(within_workdir(p, w, true));
        assert(!within_workdir(p, w, false));
        assert(pw.len() <= pp.len());
        assert(!(forall|i: int| 0 <= i < pw.len() ==> seg_matches(#[trigger] pw[i], pp[i], false)));
        let i = choose|i: int| 0 <= i < pw.len() && !seg_matches(#[trigger] pw[i], pp[i], false);
        assert(seg_matches(pw[i], pp[i], true));
        assert(0 <= i < path_segments(w).len() && seg_matches(
            path_segments(w)[i],
            path_segments(p)[i],
            true,
        ) && !seg_matches(path_segments(w)[i], path_segments(p)[i], false));
    }
}

} // verus!
