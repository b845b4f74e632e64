//! Rendering an aligned, line-numbered diff of two texts. The line-level
//! edit script comes from the `similar` crate through one trusted
//! wrapper; grouping changes into hunks with three lines of context,
//! numbering the lines and laying the report out are verified here.

use vstd::prelude::*;

verus! {

/// How one line of the edit script relates the two texts.
#[derive(Debug, Clone, Copy, PartialEq, Eq, Structural)]
pub enum ChangeTag {
    /// The line is in both texts.
    Equal,
    /// The line is only in the old text.
    Delete,
    /// The line is only in the new text.
    Insert,
}

/// One line of the edit script: its tag and its text, newline included
/// except on a final line that has none.
pub struct DiffLine {
    pub tag: ChangeTag,
    pub text: String,
}

/// The views of an edit script.
pub open spec fn lines_view(v: Seq<DiffLine>) -> Seq<(ChangeTag, Seq<char>)> {
    v.map_values(|l: DiffLine| (l.tag, l.text@))
}

/// The old text a script describes: its lines that are not inserts.
pub open spec fn old_text(s: Seq<(ChangeTag, Seq<char>)>) -> Seq<char>
    decreases s.len(),
{
    if s.len() == 0 {
        Seq::empty()
    } else {
        old_text(s.drop_last()) + (if s.last().0 is Insert {
            Seq::<char>::empty()
        } else {
            s.last().1
        })
    }
}

/// The new text a script describes: its lines that are not deletes.
pub open spec fn new_text(s: Seq<(ChangeTag, Seq<char>)>) -> Seq<char>
    decreases s.len(),
{
    if s.len() == 0 {
        Seq::empty()
    } else {
        new_text(s.drop_last()) + (if s.last().0 is Delete {
            Seq::<char>::empty()
        } else {
            s.last().1
        })
    }
}

/// Whether a script holds no change at all.
pub open spec fn all_equal(s: Seq<(ChangeTag, Seq<char>)>) -> bool {
    forall|i: int| 0 <= i < s.len() ==> s[i].0 is Equal
}

/// What `similar`'s Myers line diff makes of the two texts: an edit
/// script over their lines, computed deterministically.
pub uninterp spec fn line_script(t1: Seq<char>, t2: Seq<char>) -> Seq<(ChangeTag, Seq<char>)>;

/// Relies on `similar::utils::diff_lines` with the Myers algorithm: the
/// edit script covers both texts completely and in order (its non-insert
/// lines joined are the old text, its non-delete lines the new one), a
/// replacement lists its deleted lines before its inserted ones, and two
/// equal texts — whose common prefix is everything — yield only `Equal`
/// lines.
#[verifier::external_body]
fn compute_line_script(t1: &str, t2: &str) -> (r: Vec<DiffLine>)
    ensures
        lines_view(r@) == line_script(t1@, t2@),
        old_text(lines_view(r@)) == t1@,
        new_text(lines_view(r@)) == t2@,
        t1@ == t2@ ==> all_equal(lines_view(r@)),
{
    similar::utils::diff_lines(similar::Algorithm::Myers, t1, t2)
        .into_iter()
        .map(|(tag, s)| DiffLine {
            tag: match tag {
                similar::ChangeTag::Equal => ChangeTag::Equal,
                similar::ChangeTag::Delete => ChangeTag::Delete,
                similar::ChangeTag::Insert => ChangeTag::Insert,
            },
            text: s.to_string(),
        })
        .collect()
}

/// The indices of the changed lines of a script, in order.
pub open spec fn change_idxs(s: Seq<(ChangeTag, Seq<char>)>) -> Seq<int>
    decreases s.len(),
{
    if s.len() == 0 {
        Seq::empty()
    } else {
        let rest = change_idxs(s.drop_last());
        if s.last().0 is Equal {
            rest
        } else {
            rest.push(s.len() - 1)
        }
    }
}

/// The hunk ranges of a script of length `n`: each changed line carries a
/// window of three context lines on each side, and windows that touch are
/// merged into one hunk.
pub open spec fn group_ranges(ids: Seq<int>, n: int) -> Seq<(int, int)>
    decreases ids.len(),
{
    if ids.len() == 0 {
        Seq::empty()
    } else {
        let pre = group_ranges(ids.drop_last(), n);
        let c = ids.last();
        let lo: int = if c >= 3 {
            c - 3
        } else {
            0
        };
        let hi: int = if c + 4 <= n {
            c + 4
        } else {
            n
        };
        if pre.len() == 0 {
            seq![(lo, hi)]
        } else if lo <= pre.last().1 {
            pre.update(pre.len() - 1, (pre.last().0, hi))
        } else {
            pre.push((lo, hi))
        }
    }
}

/// How many lines of the old text come before script position `i`.
pub open spec fn old_count(s: Seq<(ChangeTag, Seq<char>)>, i: int) -> int
    decreases i,
{
    if i <= 0 {
        0
    } else if s[i - 1].0 is Insert {
        old_count(s, i - 1)
    } else {
        old_count(s, i - 1) + 1
    }
}

/// How many lines of the new text come before script position `i`.
pub open spec fn new_count(s: Seq<(ChangeTag, Seq<char>)>, i: int) -> int
    decreases i,
{
    if i <= 0 {
        0
    } else if s[i - 1].0 is Delete {
        new_count(s, i - 1)
    } else {
        new_count(s, i - 1) + 1
    }
}

/// The decimal digits of a number.
pub open spec fn dec_str(n: nat) -> Seq<char>
    decreases n,
{
    if n < 10 {
        seq![spec_digit(n)]
    } else {
        dec_str(n / 10).push(spec_digit(n % 10))
    }
}

pub open spec fn spec_digit(d: nat) -> char {
    if d == 0 {
        '0'
    } else if d == 1 {
        '1'
    } else if d == 2 {
        '2'
    } else if d == 3 {
        '3'
    } else if d == 4 {
        '4'
    } else if d == 5 {
        '5'
    } else if d == 6 {
        '6'
    } else if d == 7 {
        '7'
    } else if d == 8 {
        '8'
    } else {
        '9'
    }
}

/// A number column padded with spaces to at least four characters.
pub open spec fn pad4(d: Seq<char>) -> Seq<char>
    decreases 4 - d.len(),
{
    if d.len() >= 4 {
        d
    } else {
        pad4(d.push(' '))
    }
}

/// A line-number column: the one-based number, or blank where the line
/// has no number on that side.
pub open spec fn numcol(opt: Option<int>) -> Seq<char> {
    match opt {
        None => "    "@,
        Some(v) => pad4(dec_str(v as nat)),
    }
}

/// The glyph of a tag: `-` delete, `+` insert, space for unchanged.
pub open spec fn tag_glyph(t: ChangeTag) -> Seq<char> {
    match t {
        ChangeTag::Equal => " "@,
        ChangeTag::Delete => "-"@,
        ChangeTag::Insert => "+"@,
    }
}

/// One rendered report line: old and new number columns, the column
/// separator, the tag glyph, then the line text as it stands (so a final
/// line without a newline ends the report without one).
pub open spec fn render_line(l: (ChangeTag, Seq<char>), o: int, nw: int) -> Seq<char> {
    numcol(
        if l.0 is Insert {
            None
        } else {
            Some(o + 1)
        },
    ) + numcol(
        if l.0 is Delete {
            None
        } else {
            Some(nw + 1)
        },
    ) + " |"@ + tag_glyph(l.0) + l.1
}

/// The rendered lines of the script positions `lo..hi`.
pub open spec fn render_range(s: Seq<(ChangeTag, Seq<char>)>, lo: int, hi: int) -> Seq<char>
    decreases hi - lo,
{
    if lo >= hi {
        Seq::empty()
    } else {
        render_range(s, lo, hi - 1) + render_line(s[hi - 1], old_count(s, hi - 1), new_count(
            s,
            hi - 1,
        ))
    }
}

/// The separator between two hunks: eighty dashes.
pub open spec fn sep_line() -> Seq<char> {
    "--------------------------------------------------------------------------------\n"@
}

/// The whole report: the hunks in order, a separator between two hunks
/// but not before the first.
pub open spec fn render_all(s: Seq<(ChangeTag, Seq<char>)>, ranges: Seq<(int, int)>) -> Seq<char>
    decreases ranges.len(),
{
    if ranges.len() == 0 {
        Seq::empty()
    } else if ranges.len() == 1 {
        render_range(s, ranges[0].0, ranges[0].1)
    } else {
        render_all(s, ranges.drop_last()) + sep_line() + render_range(
            s,
            ranges.last().0,
            ranges.last().1,
        )
    }
}

/// The full report of two texts.
pub open spec fn spec_diff_text(t1: Seq<char>, t2: Seq<char>) -> Seq<char> {
    let s = line_script(t1, t2);
    render_all(s, group_ranges(change_idxs(s), s.len() as int))
}

/// Change indices are within bounds and strictly increasing.
proof fn lemma_change_idxs_wf(s: Seq<(ChangeTag, Seq<char>)>)
    ensures
        forall|k: int| 0 <= k < change_idxs(s).len() ==> 0 <= #[trigger] change_idxs(s)[k]
            < s.len(),
        forall|k1: int, k2: int|
            0 <= k1 < k2 < change_idxs(s).len() ==> #[trigger] change_idxs(s)[k1]
                < #[trigger] change_idxs(s)[k2],
    decreases s.len(),
{
    if s.len() > 0 {
        lemma_change_idxs_wf(s.drop_last());
        let rest = change_idxs(s.drop_last());
        let ids = change_idxs(s);
        if s.last().0 is Equal {
            assert(ids == rest);
        } else {
            assert(ids == rest.push(s.len() - 1));
            assert forall|k: int| 0 <= k < ids.len() implies 0 <= #[trigger] ids[k]
                < s.len() by {
                if k < rest.len() {
                    assert(ids[k] == rest[k]);
                }
            }
            assert forall|k1: int, k2: int|
                0 <= k1 < k2 < ids.len() implies #[trigger] ids[k1] < #[trigger] ids[k2] by {
                if k2 < rest.len() {
                    assert(ids[k1] == rest[k1] && ids[k2] == rest[k2]);
                } else {
                    assert(ids[k1] == rest[k1] && ids[k2] == s.len() - 1);
                    assert(rest[k1] < s.drop_last().len());
                }
            }
        }
    }
}

/// Under increasing indices, hunk ranges are within bounds, non-empty,
/// ordered, and separated: each begins after the one before it ends.
proof fn lemma_group_ranges_wf(ids: Seq<int>, n: int)
    requires
        forall|k: int| 0 <= k < ids.len() ==> 0 <= #[trigger] ids[k] < n,
        forall|k1: int, k2: int|
            0 <= k1 < k2 < ids.len() ==> #[trigger] ids[k1] < #[trigger] ids[k2],
    ensures
        forall|j: int|
            0 <= j < group_ranges(ids, n).len() ==> 0 <= (#[trigger] group_ranges(ids, n)[j]).0
                && group_ranges(ids, n)[j].0 < group_ranges(ids, n)[j].1 && group_ranges(
                ids,
                n,
            )[j].1 <= n,
        forall|j: int|
            0 <= j < group_ranges(ids, n).len() - 1 ==> (#[trigger] group_ranges(ids, n)[j]).1
                < group_ranges(ids, n)[j + 1].0,
    decreases ids.len(),
{
    if ids.len() > 0 {
        lemma_group_ranges_wf(ids.drop_last(), n);
        let pre = group_ranges(ids.drop_last(), n);
        let c = ids.last();
        assert(0 <= c < n);
        let g = group_ranges(ids, n);
        if pre.len() == 0 {
        } else if (if c >= 3 {
            c - 3
        } else {
            0
        }) <= pre.last().1 {
            assert forall|j: int| 0 <= j < g.len() - 1 implies (#[trigger] g[j]).1 < g[j
                + 1].0 by {
                assert(g[j] == pre[j]);
                if j + 1 < g.len() - 1 {
                    assert(g[j + 1] == pre[j + 1]);
                }
            }
        } else {
        }
    }
}

/// A line count never passes the position counted to.
proof fn lemma_counts_le(s: Seq<(ChangeTag, Seq<char>)>, i: int)
    ensures
        0 <= old_count(s, i) <= (if i >= 0 {
            i
        } else {
            0
        }),
        0 <= new_count(s, i) <= (if i >= 0 {
            i
        } else {
            0
        }),
    decreases i,
{
    if i > 0 {
        lemma_counts_le(s, i - 1);
    }
}

/// A script with no change has no change index.
proof fn lemma_all_equal_no_idxs(s: Seq<(ChangeTag, Seq<char>)>)
    requires
        all_equal(s),
    ensures
        change_idxs(s) =~= Seq::<int>::empty(),
    decreases s.len(),
{
    if s.len() > 0 {
        assert(all_equal(s.drop_last()));
        lemma_all_equal_no_idxs(s.drop_last());
        assert(s.last().0 is Equal);
    }
}

/// One decimal digit as text.
fn digit_str(d: usize) -> (r: &'static str)
    requires
        d < 10,
    ensures
        r@ == seq![spec_digit(d as nat)],
{
    let r: &'static str = match d {
        0 => "0",
        1 => "1",
        2 => "2",
        3 => "3",
        4 => "4",
        5 => "5",
        6 => "6",
        7 => "7",
        8 => "8",
        _ => "9",
    };
    proof {
        reveal_strlit("0");
        reveal_strlit("1");
        reveal_strlit("2");
        reveal_strlit("3");
        reveal_strlit("4");
        reveal_strlit("5");
        reveal_strlit("6");
        reveal_strlit("7");
        reveal_strlit("8");
        reveal_strlit("9");
        assert(r@ =~= seq![spec_digit(d as nat)]);
    }
    r
}

/// The decimal digits of a number, as text.
fn dec_string(n: usize) -> (r: String)
    ensures
        r@ == dec_str(n as nat),
    decreases n,
{
    if n < 10 {
        digit_str(n).to_owned()
    } else {
        let mut s = dec_string(n / 10);
        s.append(digit_str(n % 10));
        proof {
            assert(s@ =~= dec_str(n as nat));
        }
        s
    }
}

/// A line-number column: the number padded to four characters, or blank.
fn numcol_str(opt: Option<usize>) -> (r: String)
    requires
        opt matches Some(v) ==> v >= 1,
    ensures
        r@ == numcol(
            match opt {
                None => None,
                Some(v) => Some(v as int),
            },
        ),
{
    match opt {
        None => {
            let r = String::from_str("    ");
            proof {
                assert(r@ == "    "@);
            }
            r
        },
        Some(v) => {
            let mut d = dec_string(v);
            while d.as_str().unicode_len() < 4
                invariant
                    pad4(d@) == pad4(dec_str(v as nat)),
                decreases 4 - d@.len(),
            {
                let ghost before = d@;
                d.append(" ");
                proof {
                    reveal_strlit(" ");
                    assert(d@ =~= before.push(' '));
                }
            }
            proof {
                assert(d@ == pad4(d@));
            }
            d
        },
    }
}

/// The glyph of a tag, as text.
fn tag_glyph_str(t: ChangeTag) -> (r: &'static str)
    ensures
        r@ == tag_glyph(t),
{
    match t {
        ChangeTag::Equal => " ",
        ChangeTag::Delete => "-",
        ChangeTag::Insert => "+",
    }
}

/// One rendered report line of the script.
fn render_one_line(l: &DiffLine, oc: usize, nc: usize) -> (r: String)
    requires
        oc < usize::MAX,
        nc < usize::MAX,
    ensures
        r@ == render_line((l.tag, l.text@), oc as int, nc as int),
{
    let tag = l.tag;
    let mut out = match tag {
        ChangeTag::Insert => numcol_str(None),
        _ => numcol_str(Some(oc + 1)),
    };
    let newcol = match tag {
        ChangeTag::Delete => numcol_str(None),
        _ => numcol_str(Some(nc + 1)),
    };
    out.append(newcol.as_str());
    out.append(" |");
    out.append(tag_glyph_str(tag));
    out.append(l.text.as_str());
    proof {
        assert(out@ =~= render_line((l.tag, l.text@), oc as int, nc as int));
    }
    out
}

/// Lay the report out from the script and its hunk ranges: the hunks in
/// order, each line numbered, a separator of eighty dashes between two
/// hunks.
#[verifier::loop_isolation(false)]
#[verifier::rlimit(60)]
fn render_report(script: &Vec<DiffLine>, ranges: &Vec<(usize, usize)>) -> (r: String)
    requires
        forall|k: int|
            0 <= k < ranges@.len() ==> (#[trigger] ranges@[k]).0 < ranges@[k].1 && ranges@[k].1
                <= script@.len(),
        forall|k: int|
            0 <= k < ranges@.len() - 1 ==> (#[trigger] ranges@[k]).1 < ranges@[k + 1].0,
    ensures
        r@ == render_all(
            lines_view(script@),
            ranges@.map_values(|q: (usize, usize)| (q.0 as int, q.1 as int)),
        ),
{
    let ghost s = lines_view(script@);
    let ghost granges = ranges@.map_values(|q: (usize, usize)| (q.0 as int, q.1 as int));
    let n = script.len();
    let mut out = String::new();
    let mut p: usize = 0;
    let mut oc: usize = 0;
    let mut nc: usize = 0;
    let nr = ranges.len();
    let mut h: usize = 0;
    while h < nr
        invariant
            0 <= h <= nr,
            h < nr ==> p <= ranges@[h as int].0,
            p <= n,
            oc == old_count(s, p as int),
            nc == new_count(s, p as int),
            out@ == render_all(s, granges.subrange(0, h as int)),
        decreases nr - h,
    {
        let (lo, hi) = ranges[h];
        if h > 0 {
            out.append(
                "--------------------------------------------------------------------------------\n",
            );
        }
        let ghost rendered_before = render_all(s, granges.subrange(0, h as int)) + (if h > 0 {
            sep_line()
        } else {
            Seq::<char>::empty()
        });
        proof {
            if h == 0 {
                assert(out@ =~= rendered_before);
            }
            assert(out@ == rendered_before);
        }
        while p < lo
            invariant
                p <= lo,
                oc == old_count(s, p as int),
                nc == new_count(s, p as int),
                out@ == rendered_before,
            decreases lo - p,
        {
            proof {
                assert(s[p as int] == (script@[p as int].tag, script@[p as int].text@));
                lemma_counts_le(s, p as int);
            }
            match script[p].tag {
                ChangeTag::Insert => {},
                _ => {
                    oc = oc + 1;
                },
            }
            match script[p].tag {
                ChangeTag::Delete => {},
                _ => {
                    nc = nc + 1;
                },
            }
            p = p + 1;
        }
        proof {
            assert(rendered_before + render_range(s, lo as int, lo as int) =~= rendered_before);
        }
        while p < hi
            invariant
                lo <= p <= hi,
                oc == old_count(s, p as int),
                nc == new_count(s, p as int),
                out@ == rendered_before + render_range(s, lo as int, p as int),
            decreases hi - p,
        {
            proof {
                assert(s[p as int] == (script@[p as int].tag, script@[p as int].text@));
                lemma_counts_le(s, p as int);
            }
            let line = render_one_line(&script[p], oc, nc);
            out.append(line.as_str());
            proof {
                assert(out@ =~= rendered_before + render_range(s, lo as int, p + 1));
            }
            match script[p].tag {
                ChangeTag::Insert => {},
                _ => {
                    oc = oc + 1;
                },
            }
            match script[p].tag {
                ChangeTag::Delete => {},
                _ => {
                    nc = nc + 1;
                },
            }
            p = p + 1;
        }
        proof {
            assert(granges.subrange(0, h + 1).drop_last() =~= granges.subrange(0, h as int));
            assert(granges.subrange(0, h + 1).last() == granges[h as int]);
            assert(granges[h as int] == (lo as int, hi as int));
            if h == 0 {
                assert(granges.subrange(0, 1) =~= seq![granges[0]]);
            }
            assert(out@ == render_all(s, granges.subrange(0, h + 1)));
        }
        h = h + 1;
    }
    proof {
        assert(granges.subrange(0, nr as int) =~= granges);
    }
    out
}

/// Render the diff of two texts: the changed lines grouped into hunks
/// with three lines of context on each side (touching hunks merged,
/// hunks separated by a line of eighty dashes), each line carrying its
/// one-based old and new line numbers (blank on the side it is not on),
/// a `|` separator and its tag: `-` for a line only in the old text, `+`
/// only in the new, a space for an unchanged line. Two equal texts have
/// no changed line, so their report is empty.
#[verifier::loop_isolation(false)]
#[verifier::rlimit(60)]
pub fn diff_text(t1: &str, t2: &str) -> (r: String)
    ensures
        r@ == spec_diff_text(t1@, t2@),
        t1@ == t2@ ==> r@ == Seq::<char>::empty(),
{
    let script = compute_line_script(t1, t2);
    let ghost s = lines_view(script@);
    let n = script.len();

    let mut ids: Vec<usize> = Vec::new();
    let mut i: usize = 0;
    while i < n
        invariant
            0 <= i <= n,
            n == script@.len(),
            ids@.map_values(|u: usize| u as int) =~= change_idxs(s.subrange(0, i as int)),
            forall|k: int| 0 <= k < ids@.len() ==> #[trigger] ids@[k] < i,
        decreases n - i,
    {
        proof {
            assert(s.subrange(0, i + 1).drop_last() =~= s.subrange(0, i as int));
            assert(s.subrange(0, i + 1).last() == s[i as int]);
            assert(s[i as int] == (script@[i as int].tag, script@[i as int].text@));
        }
        let keep = match script[i].tag {
            ChangeTag::Equal => false,
            _ => true,
        };
        if keep {
            ids.push(i);
            proof {
                assert(ids@.map_values(|u: usize| u as int) =~= change_idxs(
                    s.subrange(0, i + 1),
                ));
            }
        }
        i = i + 1;
    }
    proof {
        assert(s.subrange(0, n as int) =~= s);
    }
    let ghost gids = ids@.map_values(|u: usize| u as int);
    proof {
        lemma_change_idxs_wf(s);
        lemma_group_ranges_wf(gids, n as int);
        if t1@ == t2@ {
            lemma_all_equal_no_idxs(s);
        }
    }

    let mut ranges: Vec<(usize, usize)> = Vec::new();
    let nid = ids.len();
    let mut j: usize = 0;
    while j < nid
        invariant
            0 <= j <= nid,
            nid == ids@.len(),
            ranges@.map_values(|q: (usize, usize)| (q.0 as int, q.1 as int)) =~= group_ranges(
                gids.subrange(0, j as int),
                n as int,
            ),
        decreases nid - j,
    {
        proof {
            assert(gids.subrange(0, j + 1).drop_last() =~= gids.subrange(0, j as int));
            assert(gids.subrange(0, j + 1).last() == gids[j as int]);
            assert(gids[j as int] == ids@[j as int] as int);
        }
        let c = ids[j];
        let lo: usize = if c >= 3 {
            c - 3
        } else {
            0
        };
        let hi: usize = if n - c > 4 {
            c + 4
        } else {
            n
        };
        let rl = ranges.len();
        if rl == 0 {
            ranges.push((lo, hi));
        } else if lo <= ranges[rl - 1].1 {
            let first = ranges[rl - 1].0;
            ranges[rl - 1] = (first, hi);
        } else {
            ranges.push((lo, hi));
        }
        proof {
            assert(ranges@.map_values(|q: (usize, usize)| (q.0 as int, q.1 as int))
                =~= group_ranges(gids.subrange(0, j + 1), n as int));
        }
        j = j + 1;
    }
    proof {
        assert(gids.subrange(0, nid as int) =~= gids);
    }
    let ghost granges = group_ranges(gids, n as int);
    proof {
        assert forall|k: int|
            0 <= k < ranges@.len() implies (#[trigger] ranges@[k]).0 < ranges@[k].1
            && ranges@[k].1 <= script@.len() by {
            assert(granges[k] == (ranges@[k].0 as int, ranges@[k].1 as int));
        }
        assert forall|k: int|
            0 <= k < ranges@.len() - 1 implies (#[trigger] ranges@[k]).1 < ranges@[k + 1].0 by {
            assert(granges[k] == (ranges@[k].0 as int, ranges@[k].1 as int));
            assert(granges[k + 1] == (ranges@[k + 1].0 as int, ranges@[k + 1].1 as int));
        }
    }
    let out = render_report(&script, &ranges);
    proof {
        if t1@ == t2@ {
            assert(granges =~= Seq::<(int, int)>::empty());
        }
    }
    out
}


/// What `similar`'s Myers character diff makes of two lines: an edit
/// script over their characters, in maximal runs, computed
/// deterministically.
pub uninterp spec fn char_script(a: Seq<char>, b: Seq<char>) -> Seq<(ChangeTag, Seq<char>)>;

/// Relies on `similar::utils::diff_chars` with the Myers algorithm: the
/// script covers both lines completely and in order — its non-insert
/// pieces joined are the old line, its non-delete pieces the new one.
#[verifier::external_body]
fn compute_char_script(a: &str, b: &str) -> (r: Vec<DiffLine>)
    ensures
        lines_view(r@) == char_script(a@, b@),
        old_text(lines_view(r@)) == a@,
        new_text(lines_view(r@)) == b@,
{
    similar::utils::diff_chars(similar::Algorithm::Myers, a, b)
        .into_iter()
        .map(|(tag, s)| DiffLine {
            tag: match tag {
                similar::ChangeTag::Equal => ChangeTag::Equal,
                similar::ChangeTag::Delete => ChangeTag::Delete,
                similar::ChangeTag::Insert => ChangeTag::Insert,
            },
            text: s.to_string(),
        })
        .collect()
}

/// The old-side pieces of a character script: its equal pieces plain and
/// its deleted pieces marked for emphasis.
pub open spec fn old_segments(s: Seq<(ChangeTag, Seq<char>)>) -> Seq<(bool, Seq<char>)>
    decreases s.len(),
{
    if s.len() == 0 {
        Seq::empty()
    } else {
        old_segments(s.drop_last()) + (match s.last().0 {
            ChangeTag::Equal => seq![(false, s.last().1)],
            ChangeTag::Delete => seq![(true, s.last().1)],
            ChangeTag::Insert => Seq::<(bool, Seq<char>)>::empty(),
        })
    }
}

/// The new-side pieces: equal pieces plain, inserted pieces emphasized.
pub open spec fn new_segments(s: Seq<(ChangeTag, Seq<char>)>) -> Seq<(bool, Seq<char>)>
    decreases s.len(),
{
    if s.len() == 0 {
        Seq::empty()
    } else {
        new_segments(s.drop_last()) + (match s.last().0 {
            ChangeTag::Equal => seq![(false, s.last().1)],
            ChangeTag::Insert => seq![(true, s.last().1)],
            ChangeTag::Delete => Seq::<(bool, Seq<char>)>::empty(),
        })
    }
}

/// The text of a segment list, emphasis dropped.
pub open spec fn segs_text(segs: Seq<(bool, Seq<char>)>) -> Seq<char>
    decreases segs.len(),
{
    if segs.len() == 0 {
        Seq::empty()
    } else {
        segs_text(segs.drop_last()) + segs.last().1
    }
}

/// The views of a vector of owned segments.
pub open spec fn segs_view(v: Seq<(bool, String)>) -> Seq<(bool, Seq<char>)> {
    v.map_values(|p: (bool, String)| (p.0, p.1@))
}

/// The old-side segments spell out the old text.
proof fn lemma_old_segments_text(s: Seq<(ChangeTag, Seq<char>)>)
    ensures
        segs_text(old_segments(s)) == old_text(s),
    decreases s.len(),
{
    if s.len() > 0 {
        lemma_old_segments_text(s.drop_last());
        match s.last().0 {
            ChangeTag::Insert => {
                assert(segs_text(old_segments(s)) =~= old_text(s));
            },
            _ => {
                assert(old_segments(s).drop_last() =~= old_segments(s.drop_last()));
                assert(segs_text(old_segments(s)) =~= old_text(s));
            },
        }
    }
}

/// The new-side segments spell out the new text.
proof fn lemma_new_segments_text(s: Seq<(ChangeTag, Seq<char>)>)
    ensures
        segs_text(new_segments(s)) == new_text(s),
    decreases s.len(),
{
    if s.len() > 0 {
        lemma_new_segments_text(s.drop_last());
        match s.last().0 {
            ChangeTag::Delete => {
                assert(segs_text(new_segments(s)) =~= new_text(s));
            },
            _ => {
                assert(new_segments(s).drop_last() =~= new_segments(s.drop_last()));
                assert(segs_text(new_segments(s)) =~= new_text(s));
            },
        }
    }
}

/// The inline change of one old/new line pair: each side split into
/// pieces, the changed pieces marked for emphasis (`true`), in order;
/// each side's pieces joined give that side's line back unchanged.
#[verifier::loop_isolation(false)]
pub fn inline_diff(old_line: &str, new_line: &str) -> (r: (
    Vec<(bool, String)>,
    Vec<(bool, String)>,
))
    ensures
        segs_view(r.0@) == old_segments(char_script(old_line@, new_line@)),
        segs_view(r.1@) == new_segments(char_script(old_line@, new_line@)),
        segs_text(segs_view(r.0@)) == old_line@,
        segs_text(segs_view(r.1@)) == new_line@,
{
    let script = compute_char_script(old_line, new_line);
    let ghost s = lines_view(script@);
    let mut old_segs: Vec<(bool, String)> = Vec::new();
    let mut new_segs: Vec<(bool, String)> = Vec::new();
    let n = script.len();
    let mut i: usize = 0;
    while i < n
        invariant
            0 <= i <= n,
            n == script@.len(),
            segs_view(old_segs@) =~= old_segments(s.subrange(0, i as int)),
            segs_view(new_segs@) =~= new_segments(s.subrange(0, i as int)),
        decreases n - i,
    {
        proof {
            assert(s.subrange(0, i + 1).drop_last() =~= s.subrange(0, i as int));
            assert(s.subrange(0, i + 1).last() == s[i as int]);
            assert(s[i as int] == (script@[i as int].tag, script@[i as int].text@));
        }
        let piece = script[i].text.clone();
        match script[i].tag {
            ChangeTag::Equal => {
                old_segs.push((false, piece.clone()));
                new_segs.push((false, piece));
            },
            ChangeTag::Delete => {
                old_segs.push((true, piece));
            },
            ChangeTag::Insert => {
                new_segs.push((true, piece));
            },
        }
        proof {
            assert(segs_view(old_segs@) =~= old_segments(s.subrange(0, i + 1)));
            assert(segs_view(new_segs@) =~= new_segments(s.subrange(0, i + 1)));
        }
        i = i + 1;
    }
    proof {
        assert(s.subrange(0, n as int) =~= s);
        lemma_old_segments_text(s);
        lemma_new_segments_text(s);
    }
    (old_segs, new_segs)
}

} // verus!
