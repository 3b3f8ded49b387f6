//! Assembling per-line blame records.
//!
//! The binding layer reads a file's lines and asks the repository
//! collaborator for the attribution of each line; the verified logic here
//! pairs the two up into `BlameLine` records, numbering lines from one and
//! keeping only the lines for which the collaborator reported an
//! attribution.

use vstd::prelude::*;

use crate::model::BlameLine;

verus! {

/// What the collaborator's blame reports for one line: the commit that
/// last changed it, that commit's author signature, the original
/// signature's name and time, and the commit's summary.
pub struct BlameAttribution {
    pub commit_hash: String,
    pub author: String,
    pub author_email: String,
    pub author_time: i64,
    pub committer: String,
    pub commit_time: i64,
    pub summary: String,
}

/// The blame record of one attributed line.
pub open spec fn attributed_line(line_number: int, content: String, a: BlameAttribution) -> BlameLine {
    BlameLine {
        line_number: line_number as usize,
        content: content,
        commit_hash: a.commit_hash,
        author: a.author,
        author_email: a.author_email,
        author_time: a.author_time,
        committer: a.committer,
        commit_time: a.commit_time,
        summary: a.summary,
    }
}

/// The blame records of the lines from index `from` on: one record per
/// line with an attribution, in order, numbered from `from + 1`.
pub open spec fn blame_lines_from(
    lines: Seq<String>,
    attrs: Seq<Option<BlameAttribution>>,
    from: int,
) -> Seq<BlameLine>
    decreases lines.len() - from,
{
    if from < 0 || from >= lines.len() || from >= attrs.len() {
        Seq::empty()
    } else {
        let rest = blame_lines_from(lines, attrs, from + 1);
        match attrs[from] {
            Some(a) => seq![attributed_line(from + 1, lines[from], a)] + rest,
            None => rest,
        }
    }
}

/// Pairs a file's lines with the attributions reported for them, one
/// record per attributed line, in file order, numbered from one.
pub fn build_blame_lines(lines: Vec<String>, attrs: Vec<Option<BlameAttribution>>) -> (r: Vec<
    BlameLine,
>)
    requires
        lines@.len() == attrs@.len(),
    ensures
        r@ == blame_lines_from(lines@, attrs@, 0),
{
    let ghost all_lines = lines@;
    let ghost all_attrs = attrs@;
    let mut lines = lines;
    let mut attrs = attrs;
    let mut r: Vec<BlameLine> = Vec::new();
    let mut i: usize = 0;
    let n = lines.len();
    while i < n
        invariant
            0 <= i <= n,
            n == all_lines.len(),
            all_lines.len() == all_attrs.len(),
            lines@ =~= all_lines.skip(i as int),
            attrs@ =~= all_attrs.skip(i as int),
            r@ + blame_lines_from(all_lines, all_attrs, i as int) == blame_lines_from(
                all_lines,
                all_attrs,
                0,
            ),
        decreases n - i,
    {
        let line = lines.remove(0);
        let attr = attrs.remove(0);
        proof {
            assert(line == all_lines[i as int]);
            assert(attr == all_attrs[i as int]);
            assert(lines@ =~= all_lines.skip(i + 1));
            assert(attrs@ =~= all_attrs.skip(i + 1));
        }
        let ghost previous = r@;
        match attr {
            Some(a) => {
                let entry = BlameLine::new(
                    i + 1,
                    line,
                    a.commit_hash,
                    a.author,
                    a.author_email,
                    a.author_time,
                    a.committer,
                    a.commit_time,
                    a.summary,
                );
                proof {
                    assert(entry == attributed_line(i + 1, all_lines[i as int], a));
                }
                r.push(entry);
                proof {
                    assert(blame_lines_from(all_lines, all_attrs, i as int) == seq![entry]
                        + blame_lines_from(all_lines, all_attrs, i + 1));
                    assert(r@ + blame_lines_from(all_lines, all_attrs, i + 1) =~= previous + (seq![
                        entry,
                    ] + blame_lines_from(all_lines, all_attrs, i + 1)));
                }
            },
            None => {
                proof {
                    assert(blame_lines_from(all_lines, all_attrs, i as int) == blame_lines_from(
                        all_lines,
                        all_attrs,
                        i + 1,
                    ));
                }
            },
        }
        i = i + 1;
    }
    proof {
        assert(blame_lines_from(all_lines, all_attrs, n as int) =~= Seq::<BlameLine>::empty());
        assert(r@ =~= r@ + Seq::<BlameLine>::empty());
    }
    r
}

} // verus!
