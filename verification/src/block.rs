//! The text-block normalizer: reformats the captured content of a raw
//! multi-line text block according to its reformatting flags.
//!
//! The content is split into segments at line breaks; the part of the
//! marker line after the opening marker is the first segment and the
//! indentation of the closing marker is the last. With no flags the
//! transform drops a blank first segment, clears a blank last segment, and
//! strips the minimum leading-whitespace width of the non-blank segments
//! from every line-terminated segment. The flags choose smaller or larger
//! transforms. The whole transform is modelled by [`spec_normalize_block`],
//! which the executable normalizer realizes exactly.

use vstd::prelude::*;

verus! {

/// The reformatting chosen on a raw text block's opening marker, one field
/// per flag letter.
#[derive(Clone, Copy, PartialEq, Eq, Structural, Debug)]
pub struct BlockFlags {
    /// `r`: emit exactly as captured; the default transform is disabled and
    /// only the aspects named by further flags apply.
    pub exact: bool,
    /// `f`: clear the closing-marker indentation (a blank last segment).
    pub clear_tail: bool,
    /// `h`: drop a blank first segment together with its line break.
    pub drop_head: bool,
    /// `x`: strip the minimum leading-whitespace width of the non-blank
    /// segments from every line-terminated segment.
    pub dedent: bool,
    /// `t`: trim the trailing whitespace of every segment.
    pub trim_tails: bool,
    /// `l`: strip all leading whitespace of every segment.
    pub strip_indent: bool,
    /// `n`: join the segments without line breaks.
    pub collapse_lines: bool,
}

impl BlockFlags {
    /// No flags: the default transform.
    pub fn plain() -> (f: BlockFlags)
        ensures
            f == (BlockFlags {
                exact: false,
                clear_tail: false,
                drop_head: false,
                dedent: false,
                trim_tails: false,
                strip_indent: false,
                collapse_lines: false,
            }),
    {
        BlockFlags {
            exact: false,
            clear_tail: false,
            drop_head: false,
            dedent: false,
            trim_tails: false,
            strip_indent: false,
            collapse_lines: false,
        }
    }
}

pub open spec fn is_blank_char(c: char) -> bool {
    c == ' ' || c == '\t'
}

/// A segment holding only blanks (or nothing).
pub open spec fn seg_is_blank(line: Seq<char>) -> bool {
    forall|k: int| 0 <= k < line.len() ==> is_blank_char(line[k])
}

/// The character sequences of a vector of character vectors.
pub open spec fn views_of(s: Seq<Vec<char>>) -> Seq<Seq<char>> {
    s.map_values(|v: Vec<char>| v@)
}

/// The content split into segments at line breaks: the part after the last
/// break is the final segment, so the result always has one segment more
/// than the content has breaks.
pub open spec fn spec_split_segments(s: Seq<char>) -> Seq<Seq<char>>
    decreases s.len(),
{
    if s.len() == 0 {
        seq![Seq::<char>::empty()]
    } else {
        let p = spec_split_segments(s.drop_last());
        if s.last() == '\n' {
            p.push(Seq::empty())
        } else {
            p.update(p.len() - 1, p.last().push(s.last()))
        }
    }
}

/// A segment with its trailing blanks removed.
pub open spec fn spec_trim_tail_seg(line: Seq<char>) -> Seq<char>
    decreases line.len(),
{
    if line.len() > 0 && is_blank_char(line.last()) {
        spec_trim_tail_seg(line.drop_last())
    } else {
        line
    }
}

/// The width of a segment's leading run of blanks.
pub open spec fn spec_leading_blanks(line: Seq<char>) -> nat
    decreases line.len(),
{
    if line.len() > 0 && is_blank_char(line[0]) {
        1 + spec_leading_blanks(line.drop_first())
    } else {
        0
    }
}

/// A segment with all its leading blanks removed.
pub open spec fn spec_strip_indent_seg(line: Seq<char>) -> Seq<char> {
    line.skip(spec_leading_blanks(line) as int)
}

/// Drops a blank first segment together with its line break.
pub open spec fn spec_drop_head(segs: Seq<Seq<char>>) -> Seq<Seq<char>> {
    if segs.len() >= 2 && seg_is_blank(segs[0]) {
        segs.drop_first()
    } else {
        segs
    }
}

/// Clears a blank last segment (the closing-marker indentation).
pub open spec fn spec_clear_tail(segs: Seq<Seq<char>>) -> Seq<Seq<char>> {
    if segs.len() >= 1 && seg_is_blank(segs.last()) {
        segs.update(segs.len() - 1, Seq::empty())
    } else {
        segs
    }
}

/// The minimum leading-blank width over the non-blank segments, if any.
pub open spec fn spec_min_indent(segs: Seq<Seq<char>>) -> Option<nat>
    decreases segs.len(),
{
    if segs.len() == 0 {
        None
    } else {
        let prev = spec_min_indent(segs.drop_last());
        if seg_is_blank(segs.last()) {
            prev
        } else {
            let w = spec_leading_blanks(segs.last());
            match prev {
                Option::None => Option::Some(w),
                Option::Some(m) => Option::Some(
                    if w < m {
                        w
                    } else {
                        m
                    },
                ),
            }
        }
    }
}

/// A segment with up to `m` leading blanks removed.
pub open spec fn spec_dedent_seg(line: Seq<char>, m: nat) -> Seq<char> {
    let w = spec_leading_blanks(line);
    line.skip(
        if m < w {
            m as int
        } else {
            w as int
        },
    )
}

/// Strips the minimum leading-blank width of the non-blank line-terminated
/// segments from every line-terminated segment; the final segment (the
/// closing-marker indentation) is left alone.
pub open spec fn spec_dedent(segs: Seq<Seq<char>>) -> Seq<Seq<char>> {
    if segs.len() >= 2 {
        let body = segs.take(segs.len() - 1);
        match spec_min_indent(body) {
            Option::Some(m) => {
                if m > 0 {
                    body.map_values(|l: Seq<char>| spec_dedent_seg(l, m)).push(segs.last())
                } else {
                    segs
                }
            },
            Option::None => segs,
        }
    } else {
        segs
    }
}

/// The segments joined again, by line breaks or, when collapsing, by
/// nothing.
pub open spec fn spec_join(segs: Seq<Seq<char>>, collapse: bool) -> Seq<char>
    decreases segs.len(),
{
    if segs.len() == 0 {
        Seq::empty()
    } else {
        spec_join(segs.drop_last(), collapse) + (if segs.len() == 1 || collapse {
            Seq::<char>::empty()
        } else {
            seq!['\n']
        }) + segs.last()
    }
}

/// The whole transform chosen by the flags: split into segments; drop a
/// blank head segment and clear a blank tail segment (by default, or on
/// `h` and `f`); trim trailing blanks (`t`); strip all indentation (`l`);
/// dedent by the minimum indent (by default, or on `x`); join (without
/// line breaks on `n`).
pub open spec fn spec_normalize_block(content: Seq<char>, flags: BlockFlags) -> Seq<char> {
    let segs0 = spec_split_segments(content);
    let segs1 = if flags.drop_head || !flags.exact {
        spec_drop_head(segs0)
    } else {
        segs0
    };
    let segs2 = if flags.clear_tail || !flags.exact {
        spec_clear_tail(segs1)
    } else {
        segs1
    };
    let segs3 = if flags.trim_tails {
        segs2.map_values(|l: Seq<char>| spec_trim_tail_seg(l))
    } else {
        segs2
    };
    let segs4 = if flags.strip_indent {
        segs3.map_values(|l: Seq<char>| spec_strip_indent_seg(l))
    } else {
        segs3
    };
    let segs5 = if flags.dedent || !flags.exact {
        spec_dedent(segs4)
    } else {
        segs4
    };
    spec_join(segs5, flags.collapse_lines)
}

fn line_is_blank(line: &Vec<char>) -> (r: bool)
    ensures
        r == seg_is_blank(line@),
{
    let n = line.len();
    let mut i: usize = 0;
    while i < n
        invariant
            i <= n,
            n == line@.len(),
            forall|k: int| 0 <= k < i ==> is_blank_char(line@[k]),
        decreases n - i,
    {
        let c = line[i];
        if !(c == ' ' || c == '\t') {
            return false;
        }
        i = i + 1;
    }
    true
}

fn leading_blank_count(line: &Vec<char>) -> (r: usize)
    ensures
        r as nat == spec_leading_blanks(line@),
        r <= line@.len(),
{
    let n = line.len();
    let mut i: usize = 0;
    proof {
        assert(line@.skip(0) =~= line@);
    }
    while i < n
        invariant
            i <= n,
            n == line@.len(),
            spec_leading_blanks(line@) == i + spec_leading_blanks(line@.skip(i as int)),
        decreases n - i,
    {
        let c = line[i];
        if !(c == ' ' || c == '\t') {
            proof {
                assert(spec_leading_blanks(line@.skip(i as int)) == 0);
            }
            return i;
        }
        proof {
            assert(line@.skip(i as int)[0] == line@[i as int]);
            assert(line@.skip(i as int).drop_first() =~= line@.skip(i + 1 as int));
        }
        i = i + 1;
    }
    proof {
        assert(line@.skip(n as int) =~= Seq::<char>::empty());
        assert(spec_leading_blanks(line@.skip(n as int)) == 0);
    }
    n
}

fn strip_leading(line: &Vec<char>, k: usize) -> (r: Vec<char>)
    requires
        k <= line@.len(),
    ensures
        r@ == line@.skip(k as int),
{
    let n = line.len();
    let mut out: Vec<char> = Vec::new();
    let mut i: usize = k;
    while i < n
        invariant
            k <= i <= n,
            n == line@.len(),
            out@ =~= line@.subrange(k as int, i as int),
        decreases n - i,
    {
        out.push(line[i]);
        i = i + 1;
        proof {
            assert(out@ =~= line@.subrange(k as int, i as int));
        }
    }
    proof {
        assert(out@ =~= line@.skip(k as int));
    }
    out
}

fn trim_trailing_blanks(line: &Vec<char>) -> (r: Vec<char>)
    ensures
        r@ == spec_trim_tail_seg(line@),
{
    let mut end = line.len();
    proof {
        assert(line@.take(line@.len() as int) =~= line@);
    }
    while end > 0
        invariant
            end <= line@.len(),
            spec_trim_tail_seg(line@) == spec_trim_tail_seg(line@.take(end as int)),
        ensures
            end <= line@.len(),
            spec_trim_tail_seg(line@) == line@.take(end as int),
        decreases end,
    {
        let c = line[end - 1];
        if c == ' ' || c == '\t' {
            proof {
                assert(line@.take(end as int).last() == line@[end - 1]);
                assert(line@.take(end as int).drop_last() =~= line@.take(end - 1 as int));
            }
            end = end - 1;
        } else {
            proof {
                assert(line@.take(end as int).last() == line@[end - 1]);
                assert(spec_trim_tail_seg(line@.take(end as int)) == line@.take(end as int));
            }
            break;
        }
    }
    let mut out: Vec<char> = Vec::new();
    let mut i: usize = 0;
    while i < end
        invariant
            i <= end,
            end <= line@.len(),
            out@ =~= line@.take(i as int),
        decreases end - i,
    {
        out.push(line[i]);
        i = i + 1;
        proof {
            assert(out@ =~= line@.take(i as int));
        }
    }
    proof {
        assert(out@ =~= line@.take(end as int));
    }
    out
}

/// Splits the content into segments at line breaks.
fn split_into_segments(content: &Vec<char>) -> (lines: Vec<Vec<char>>)
    ensures
        views_of(lines@) == spec_split_segments(content@),
{
    let mut lines: Vec<Vec<char>> = Vec::new();
    let mut current: Vec<char> = Vec::new();
    let n = content.len();
    let mut i: usize = 0;
    proof {
        assert(content@.take(0) =~= Seq::<char>::empty());
        assert(views_of(lines@).push(current@) =~= spec_split_segments(content@.take(0)));
    }
    while i < n
        invariant
            i <= n,
            n == content@.len(),
            views_of(lines@).push(current@) == spec_split_segments(content@.take(i as int)),
        decreases n - i,
    {
        let c = content[i];
        proof {
            assert(content@.take(i + 1 as int).drop_last() =~= content@.take(i as int));
            assert(content@.take(i + 1 as int).last() == content@[i as int]);
        }
        let ghost p = spec_split_segments(content@.take(i as int));
        if c == '\n' {
            lines.push(current);
            current = Vec::new();
            proof {
                assert(views_of(lines@).push(current@) =~= p.push(Seq::<char>::empty()));
            }
        } else {
            current.push(c);
            proof {
                assert(views_of(lines@).push(current@) =~= p.update(
                    p.len() - 1,
                    p.last().push(c),
                ));
            }
        }
        i = i + 1;
    }
    lines.push(current);
    proof {
        assert(content@.take(n as int) =~= content@);
        assert(views_of(lines@) =~= spec_split_segments(content@));
    }
    lines
}

/// Trims the trailing blanks of every segment.
fn map_trim_tails(lines: &Vec<Vec<char>>) -> (out: Vec<Vec<char>>)
    ensures
        views_of(out@) == views_of(lines@).map_values(|l: Seq<char>| spec_trim_tail_seg(l)),
{
    let mut out: Vec<Vec<char>> = Vec::new();
    let m = lines.len();
    let mut j: usize = 0;
    while j < m
        invariant
            j <= m,
            m == lines@.len(),
            out@.len() == j,
            forall|k: int| 0 <= k < j ==> #[trigger] out@[k]@ == spec_trim_tail_seg(lines@[k]@),
        decreases m - j,
    {
        out.push(trim_trailing_blanks(&lines[j]));
        j = j + 1;
    }
    proof {
        assert(views_of(out@) =~= views_of(lines@).map_values(
            |l: Seq<char>| spec_trim_tail_seg(l),
        ));
    }
    out
}

/// Strips all leading blanks of every segment.
fn map_strip_indent(lines: &Vec<Vec<char>>) -> (out: Vec<Vec<char>>)
    ensures
        views_of(out@) == views_of(lines@).map_values(|l: Seq<char>| spec_strip_indent_seg(l)),
{
    let mut out: Vec<Vec<char>> = Vec::new();
    let m = lines.len();
    let mut j: usize = 0;
    while j < m
        invariant
            j <= m,
            m == lines@.len(),
            out@.len() == j,
            forall|k: int|
                0 <= k < j ==> #[trigger] out@[k]@ == spec_strip_indent_seg(lines@[k]@),
        decreases m - j,
    {
        let w = leading_blank_count(&lines[j]);
        out.push(strip_leading(&lines[j], w));
        j = j + 1;
    }
    proof {
        assert(views_of(out@) =~= views_of(lines@).map_values(
            |l: Seq<char>| spec_strip_indent_seg(l),
        ));
    }
    out
}

/// The minimum leading-blank width over the non-blank segments before the
/// final one: whether any exists, and the width.
fn min_body_indent(lines: &Vec<Vec<char>>) -> (r: (bool, usize))
    requires
        lines@.len() >= 1,
    ensures
        r.0 ==> spec_min_indent(views_of(lines@).take(lines@.len() - 1)) == Option::Some(
            r.1 as nat,
        ),
        !r.0 ==> spec_min_indent(views_of(lines@).take(lines@.len() - 1)) is None,
{
    let ghost body = views_of(lines@).take(lines@.len() - 1);
    let m = lines.len() - 1;
    let mut have = false;
    let mut least: usize = 0;
    let mut j: usize = 0;
    proof {
        assert(body.take(0) =~= Seq::<Seq<char>>::empty());
    }
    while j < m
        invariant
            j <= m,
            m + 1 == lines@.len(),
            body == views_of(lines@).take(lines@.len() - 1),
            have ==> spec_min_indent(body.take(j as int)) == Option::Some(least as nat),
            !have ==> spec_min_indent(body.take(j as int)) is None,
        decreases m - j,
    {
        proof {
            assert(body.take(j + 1 as int).drop_last() =~= body.take(j as int));
            assert(body.take(j + 1 as int).last() == lines@[j as int]@);
        }
        if !line_is_blank(&lines[j]) {
            let w = leading_blank_count(&lines[j]);
            if !have || w < least {
                least = w;
            }
            have = true;
        }
        j = j + 1;
    }
    proof {
        assert(body.take(m as int) =~= body);
    }
    (have, least)
}

/// Strips up to `least` leading blanks from every segment before the final
/// one, which is kept as it is.
fn dedent_body(lines: Vec<Vec<char>>, least: usize) -> (out: Vec<Vec<char>>)
    requires
        lines@.len() >= 1,
    ensures
        views_of(out@) == views_of(lines@).take(lines@.len() - 1).map_values(
            |l: Seq<char>| spec_dedent_seg(l, least as nat),
        ).push(views_of(lines@).last()),
{
    let mut lines = lines;
    let mut out: Vec<Vec<char>> = Vec::new();
    let m = lines.len() - 1;
    let mut j: usize = 0;
    while j < m
        invariant
            j <= m,
            m + 1 == lines@.len(),
            out@.len() == j,
            forall|k: int|
                0 <= k < j ==> #[trigger] out@[k]@ == spec_dedent_seg(
                    lines@[k]@,
                    least as nat,
                ),
        decreases m - j,
    {
        let w = leading_blank_count(&lines[j]);
        let k = if least < w {
            least
        } else {
            w
        };
        out.push(strip_leading(&lines[j], k));
        j = j + 1;
    }
    let ghost before = lines@;
    let last = lines.pop().unwrap();
    out.push(last);
    proof {
        assert(views_of(out@) =~= views_of(before).take(before.len() - 1).map_values(
            |l: Seq<char>| spec_dedent_seg(l, least as nat),
        ).push(views_of(before).last()));
    }
    out
}

/// Joins the segments, by line breaks or, when collapsing, by nothing.
fn join_segments(lines: &Vec<Vec<char>>, collapse: bool) -> (out: Vec<char>)
    ensures
        out@ == spec_join(views_of(lines@), collapse),
{
    let ghost segs = views_of(lines@);
    let mut out: Vec<char> = Vec::new();
    let m = lines.len();
    let mut j: usize = 0;
    proof {
        assert(segs.take(0) =~= Seq::<Seq<char>>::empty());
    }
    while j < m
        invariant
            j <= m,
            m == lines@.len(),
            segs == views_of(lines@),
            out@ == spec_join(segs.take(j as int), collapse),
        decreases m - j,
    {
        proof {
            assert(segs.take(j + 1 as int).drop_last() =~= segs.take(j as int));
            assert(segs.take(j + 1 as int).last() == lines@[j as int]@);
        }
        let ghost sep: Seq<char> = if j == 0 || collapse {
            Seq::empty()
        } else {
            seq!['\n']
        };
        let ghost prefix = spec_join(segs.take(j as int), collapse) + sep;
        if j > 0 && !collapse {
            out.push('\n');
        }
        proof {
            assert(out@ =~= prefix + lines@[j as int]@.take(0));
        }
        let line = &lines[j];
        let ln = line.len();
        let mut q: usize = 0;
        while q < ln
            invariant
                q <= ln,
                ln == line@.len(),
                out@ == prefix + line@.take(q as int),
            decreases ln - q,
        {
            out.push(line[q]);
            q = q + 1;
            proof {
                assert(out@ =~= prefix + line@.take(q as int));
            }
        }
        j = j + 1;
        proof {
            assert(line@.take(ln as int) =~= line@);
            assert(out@ =~= spec_join(segs.take(j as int), collapse));
        }
    }
    proof {
        assert(segs.take(m as int) =~= segs);
    }
    out
}

/// Applies the transform chosen by `flags` to the captured content of a
/// text block, realizing [`spec_normalize_block`] exactly.
pub(crate) fn normalize_block(content: &Vec<char>, flags: BlockFlags) -> (out: Vec<char>)
    ensures
        out@ == spec_normalize_block(content@, flags),
{
    let apply_head = flags.drop_head || !flags.exact;
    let apply_tail = flags.clear_tail || !flags.exact;
    let apply_dedent = flags.dedent || !flags.exact;
    let mut lines = split_into_segments(content);
    let ghost segs0 = spec_split_segments(content@);
    // Drop a blank first segment (the remainder of the opening-marker
    // line), together with its line break.
    if apply_head && lines.len() >= 2 && line_is_blank(&lines[0]) {
        lines.remove(0);
        proof {
            assert(views_of(lines@) =~= spec_drop_head(segs0));
        }
    }
    let ghost segs1 = if apply_head {
        spec_drop_head(segs0)
    } else {
        segs0
    };
    proof {
        assert(views_of(lines@) == segs1);
    }
    // Clear a blank last segment (the indentation of the closing marker).
    if apply_tail && lines.len() >= 1 && line_is_blank(&lines[lines.len() - 1]) {
        let _ = lines.pop();
        lines.push(Vec::new());
        proof {
            assert(views_of(lines@) =~= spec_clear_tail(segs1));
        }
    }
    let ghost segs2 = if apply_tail {
        spec_clear_tail(segs1)
    } else {
        segs1
    };
    proof {
        assert(views_of(lines@) == segs2);
    }
    // Trim the trailing whitespace of every segment.
    if flags.trim_tails {
        lines = map_trim_tails(&lines);
    }
    let ghost segs3 = if flags.trim_tails {
        segs2.map_values(|l: Seq<char>| spec_trim_tail_seg(l))
    } else {
        segs2
    };
    // Strip all leading whitespace of every segment.
    if flags.strip_indent {
        lines = map_strip_indent(&lines);
    }
    let ghost segs4 = if flags.strip_indent {
        segs3.map_values(|l: Seq<char>| spec_strip_indent_seg(l))
    } else {
        segs3
    };
    proof {
        assert(views_of(lines@) == segs4);
    }
    // Strip the minimum leading-whitespace width of the non-blank
    // line-terminated segments from every line-terminated segment; the
    // final segment is left alone.
    if apply_dedent && lines.len() >= 2 {
        let (have, least) = min_body_indent(&lines);
        if have && least > 0 {
            lines = dedent_body(lines, least);
        }
        proof {
            assert(views_of(lines@) =~= spec_dedent(segs4));
        }
    } else {
        proof {
            if apply_dedent {
                assert(views_of(lines@) =~= spec_dedent(segs4));
            }
        }
    }
    let ghost segs5 = if apply_dedent {
        spec_dedent(segs4)
    } else {
        segs4
    };
    proof {
        assert(views_of(lines@) == segs5);
    }
    // Join the segments again.
    join_segments(&lines, flags.collapse_lines)
}

} // verus!
