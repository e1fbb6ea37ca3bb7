//! The virtual line index: pure functions over the diff snapshot and the
//! review session that flatten the hierarchical document (files, comments,
//! hunks, lines) into one addressable line space.
//!
//! Nothing here is cached: every height and position is re-derived from the
//! two source-of-truth structures, so the flattened space is always a pure
//! function of them.
//!
//! Two height notions exist side by side. The *exact* height counts comment
//! blocks and is the authoritative one: cursor and scroll bounds, offsets
//! and position resolution all use it. The *approximate* height leaves the
//! variable comment blocks out and serves only the reload remap heuristic,
//! which wants a comment-independent estimate of a file's span.

use vstd::prelude::*;
use vstd::string::StrSliceExecFns;

use crate::model::{Comment, CommentView, DiffFile, DiffFileView, DiffLine, DiffLineView, Hunk, HunkView, LineSide,
    newline_count, newline_count_prefix};
use crate::session::{FileReview, FileReviewView, ReviewSession, SessionView, comments_at,
    effective_side};

verus! {

/// The semantic entity occupying one line of the flattened line space.
///
/// A comment block spans several consecutive lines; each of them resolves to
/// the same `FileComment` or `LineComment` value. The `comment` index of a
/// line comment counts within the side-filtered view of its line's list.
#[derive(Debug, Clone, Copy, PartialEq, Eq, Structural)]
pub enum Location {
    FileHeader { file: usize },
    FileComment { file: usize, comment: usize },
    Placeholder { file: usize },
    HunkHeader { file: usize, hunk: usize },
    DiffLine { file: usize, old_lineno: Option<u32>, new_lineno: Option<u32> },
    LineComment { file: usize, line: u32, side: LineSide, comment: usize },
    Spacing { file: usize },
}

/// The review record the flattening uses for a path: the session's record,
/// or a fresh one for a path the session has not seen.
pub open spec fn review_for(sv: SessionView, p: Seq<char>) -> FileReviewView {
    match sv.review_opt(p) {
        Some(r) => r,
        None => FileReviewView::empty(),
    }
}

/// Display height of one comment block: a header line, one line per content
/// line, a footer line.
pub open spec fn comment_height(c: CommentView) -> int {
    3 + newline_count(c.content) as int
}

/// Total display height of the comment blocks `cs[j..]`.
pub open spec fn comments_height(cs: Seq<CommentView>, j: int) -> int
    decreases cs.len() - j,
{
    if j < 0 || j >= cs.len() {
        0
    } else {
        comment_height(cs[j]) + comments_height(cs, j + 1)
    }
}

/// Total display height of the blocks among `cs[j..]` whose effective side
/// is `side`.
pub open spec fn side_comments_height(cs: Seq<CommentView>, side: LineSide, j: int) -> int
    decreases cs.len() - j,
{
    if j < 0 || j >= cs.len() {
        0
    } else {
        (if effective_side(cs[j]) == side {
            comment_height(cs[j])
        } else {
            0
        }) + side_comments_height(cs, side, j + 1)
    }
}

/// Display height of the comment blocks attached to one diff line: the
/// old-side blocks of its old line number, then the new-side blocks of its
/// new line number.
pub open spec fn line_extra_height(
    lcs: Seq<(u32, Seq<CommentView>)>,
    dl: DiffLineView,
) -> int {
    (match dl.old_lineno {
        Some(o) => side_comments_height(comments_at(lcs, o), LineSide::Old, 0),
        None => 0,
    }) + (match dl.new_lineno {
        Some(n) => side_comments_height(comments_at(lcs, n), LineSide::New, 0),
        None => 0,
    })
}

/// Display height of the diff lines `lines[l..]`, one line each plus their
/// attached comment blocks.
pub open spec fn lines_height(
    lcs: Seq<(u32, Seq<CommentView>)>,
    lines: Seq<DiffLineView>,
    l: int,
) -> int
    decreases lines.len() - l,
{
    if l < 0 || l >= lines.len() {
        0
    } else {
        1 + line_extra_height(lcs, lines[l]) + lines_height(lcs, lines, l + 1)
    }
}

/// Display height of the hunks `hunks[k..]`: a header line each plus their
/// lines.
pub open spec fn hunks_height(
    lcs: Seq<(u32, Seq<CommentView>)>,
    hunks: Seq<HunkView>,
    k: int,
) -> int
    decreases hunks.len() - k,
{
    if k < 0 || k >= hunks.len() {
        0
    } else {
        1 + lines_height(lcs, hunks[k].lines, 0) + hunks_height(lcs, hunks, k + 1)
    }
}

/// Display height of a file's body: one placeholder line for a binary or
/// hunkless file, otherwise its hunks.
pub open spec fn body_height(f: DiffFileView, lcs: Seq<(u32, Seq<CommentView>)>) -> int {
    if f.is_binary || f.hunks.len() == 0 {
        1
    } else {
        hunks_height(lcs, f.hunks, 0)
    }
}

/// Exact display height of a file that is not collapsed: header line,
/// file-level comment blocks, body, spacing line.
pub open spec fn file_height_expanded(
    f: DiffFileView,
    fc: Seq<CommentView>,
    lcs: Seq<(u32, Seq<CommentView>)>,
) -> int {
    2 + comments_height(fc, 0) + body_height(f, lcs)
}

/// Exact display height of a file: a reviewed file collapses to its header
/// line alone.
pub open spec fn file_height(f: DiffFileView, rv: FileReviewView) -> int {
    if rv.reviewed {
        1
    } else {
        file_height_expanded(f, rv.file_comments, rv.line_comments)
    }
}

/// Number of skeleton lines of the hunks `hunks[k..]`: a header line plus
/// one line per diff line, comment blocks left out.
pub open spec fn skeleton_height(hunks: Seq<HunkView>, k: int) -> int
    decreases hunks.len() - k,
{
    if k < 0 || k >= hunks.len() {
        0
    } else {
        1 + hunks[k].lines.len() + skeleton_height(hunks, k + 1)
    }
}

/// Approximate display height of a file: comment blocks are left out, a
/// binary or hunkless file counts its placeholder line. Used only by the
/// reload remap heuristic.
pub open spec fn file_height_approx(f: DiffFileView, rv: FileReviewView) -> int {
    if rv.reviewed {
        1
    } else if f.is_binary || f.hunks.len() == 0 {
        3
    } else {
        2 + vstd::math::max(1, skeleton_height(f.hunks, 0))
    }
}

/// Sum of the exact heights of the files `files[i..]`.
pub open spec fn heights_from(files: Seq<DiffFileView>, sv: SessionView, i: int) -> int
    decreases files.len() - i,
{
    if i < 0 || i >= files.len() {
        0
    } else {
        file_height(files[i], review_for(sv, files[i].path)) + heights_from(files, sv, i + 1)
    }
}

/// Total number of lines of the flattened space.
pub open spec fn total_height(files: Seq<DiffFileView>, sv: SessionView) -> int {
    heights_from(files, sv, 0)
}

/// Sum of the expanded heights of the files `files[i..]`: what the total
/// would be with no file collapsed. Collapsing only shrinks the space, so
/// this sum bounds the total under every reviewed-flag assignment.
pub open spec fn heights_expanded_from(files: Seq<DiffFileView>, sv: SessionView, i: int) -> int
    decreases files.len() - i,
{
    if i < 0 || i >= files.len() {
        0
    } else {
        ({
            let rv = review_for(sv, files[i].path);
            file_height_expanded(files[i], rv.file_comments, rv.line_comments)
        }) + heights_expanded_from(files, sv, i + 1)
    }
}

/// The machine bound of the flattened space: every height that can arise,
/// however the reviewed flags stand, fits a `usize` strictly.
pub open spec fn fits(files: Seq<DiffFileView>, sv: SessionView) -> bool {
    heights_expanded_from(files, sv, 0) < usize::MAX as int
}

/// Sum of the exact heights of the files before `files[i]`: the flattened
/// position of file `i`'s header line.
pub open spec fn offset_of(files: Seq<DiffFileView>, sv: SessionView, i: int) -> int
    decreases i,
{
    if i <= 0 {
        0
    } else {
        offset_of(files, sv, i - 1) + file_height(files[i - 1], review_for(sv, files[i - 1].path))
    }
}

/// Sum of the approximate heights of the files before `files[i]`.
pub open spec fn offset_approx_of(files: Seq<DiffFileView>, sv: SessionView, i: int) -> int
    decreases i,
{
    if i <= 0 {
        0
    } else {
        offset_approx_of(files, sv, i - 1) + file_height_approx(
            files[i - 1],
            review_for(sv, files[i - 1].path),
        )
    }
}

pub broadcast proof fn lemma_comments_height_nonneg(cs: Seq<CommentView>, j: int)
    ensures
        #[trigger] comments_height(cs, j) >= 0,
    decreases cs.len() - j,
{
    if 0 <= j < cs.len() {
        lemma_comments_height_nonneg(cs, j + 1);
    }
}

pub broadcast proof fn lemma_side_comments_height_nonneg(
    cs: Seq<CommentView>,
    side: LineSide,
    j: int,
)
    ensures
        #[trigger] side_comments_height(cs, side, j) >= 0,
    decreases cs.len() - j,
{
    if 0 <= j < cs.len() {
        lemma_side_comments_height_nonneg(cs, side, j + 1);
    }
}

pub broadcast proof fn lemma_lines_height_nonneg(
    lcs: Seq<(u32, Seq<CommentView>)>,
    lines: Seq<DiffLineView>,
    l: int,
)
    ensures
        #[trigger] lines_height(lcs, lines, l) >= 0,
        0 <= l < lines.len() ==> lines_height(lcs, lines, l) >= lines.len() - l,
    decreases lines.len() - l,
{
    broadcast use lemma_side_comments_height_nonneg;

    if 0 <= l < lines.len() {
        lemma_lines_height_nonneg(lcs, lines, l + 1);
    }
}

pub broadcast proof fn lemma_hunks_height_nonneg(
    lcs: Seq<(u32, Seq<CommentView>)>,
    hunks: Seq<HunkView>,
    k: int,
)
    ensures
        #[trigger] hunks_height(lcs, hunks, k) >= 0,
        0 <= k < hunks.len() ==> hunks_height(lcs, hunks, k) >= 1,
    decreases hunks.len() - k,
{
    broadcast use lemma_lines_height_nonneg;

    if 0 <= k < hunks.len() {
        lemma_hunks_height_nonneg(lcs, hunks, k + 1);
    }
}

pub broadcast proof fn lemma_file_height_bounds(f: DiffFileView, rv: FileReviewView)
    ensures
        1 <= #[trigger] file_height(f, rv),
        file_height(f, rv) <= file_height_expanded(f, rv.file_comments, rv.line_comments),
        file_height_expanded(f, rv.file_comments, rv.line_comments) >= 3,
{
    broadcast use lemma_comments_height_nonneg, lemma_hunks_height_nonneg;

}

pub broadcast proof fn lemma_heights_from_nonneg(files: Seq<DiffFileView>, sv: SessionView, i: int)
    ensures
        #[trigger] heights_from(files, sv, i) >= 0,
        heights_from(files, sv, i) <= #[trigger] heights_expanded_from(files, sv, i),
        heights_expanded_from(files, sv, i) >= 0,
    decreases files.len() - i,
{
    broadcast use lemma_file_height_bounds;

    if 0 <= i < files.len() {
        lemma_heights_from_nonneg(files, sv, i + 1);
    }
}

pub proof fn lemma_skeleton_height_le(
    lcs: Seq<(u32, Seq<CommentView>)>,
    hunks: Seq<HunkView>,
    k: int,
)
    ensures
        0 <= skeleton_height(hunks, k),
        skeleton_height(hunks, k) <= hunks_height(lcs, hunks, k),
    decreases hunks.len() - k,
{
    broadcast use lemma_lines_height_nonneg, lemma_hunks_height_nonneg;

    if 0 <= k < hunks.len() {
        lemma_skeleton_height_le(lcs, hunks, k + 1);
        lemma_lines_extra_ge_len(lcs, hunks[k].lines, 0);
    }
}

pub proof fn lemma_lines_extra_ge_len(
    lcs: Seq<(u32, Seq<CommentView>)>,
    lines: Seq<DiffLineView>,
    l: int,
)
    ensures
        0 <= l <= lines.len() ==> lines_height(lcs, lines, l) >= lines.len() - l,
    decreases lines.len() - l,
{
    broadcast use lemma_side_comments_height_nonneg;

    if 0 <= l < lines.len() {
        lemma_lines_extra_ge_len(lcs, lines, l + 1);
    }
}

pub broadcast proof fn lemma_file_height_approx_le(f: DiffFileView, rv: FileReviewView)
    ensures
        1 <= #[trigger] file_height_approx(f, rv),
        file_height_approx(f, rv) <= file_height_expanded(f, rv.file_comments, rv.line_comments),
{
    broadcast use lemma_comments_height_nonneg, lemma_hunks_height_nonneg;

    lemma_skeleton_height_le(rv.line_comments, f.hunks, 0);
}

/// Prefix and suffix sums of the exact heights partition the total.
pub proof fn lemma_offset_plus_suffix(files: Seq<DiffFileView>, sv: SessionView, i: int)
    requires
        0 <= i <= files.len(),
    ensures
        offset_of(files, sv, i) + heights_from(files, sv, i) == total_height(files, sv),
    decreases i,
{
    if i > 0 {
        lemma_offset_plus_suffix(files, sv, i - 1);
        lemma_heights_from_unfold(files, sv, i - 1);
    }
}

/// Unfold one file out of the suffix sum.
pub proof fn lemma_heights_from_unfold(files: Seq<DiffFileView>, sv: SessionView, i: int)
    requires
        0 <= i < files.len(),
    ensures
        heights_from(files, sv, i) == file_height(files[i], review_for(sv, files[i].path))
            + heights_from(files, sv, i + 1),
{
}

/// Every file's span lies inside the total.
pub proof fn lemma_file_span_in_total(files: Seq<DiffFileView>, sv: SessionView, i: int)
    requires
        0 <= i < files.len(),
    ensures
        offset_of(files, sv, i) >= 0,
        offset_of(files, sv, i) + file_height(files[i], review_for(sv, files[i].path))
            <= total_height(files, sv),
        file_height(files[i], review_for(sv, files[i].path)) <= heights_expanded_from(
            files,
            sv,
            0,
        ),
{
    broadcast use lemma_file_height_bounds;

    lemma_offset_plus_suffix(files, sv, i);
    lemma_offset_nonneg(files, sv, i);
    lemma_heights_from_unfold(files, sv, i);
    lemma_suffix_le_expanded(files, sv, i);
    lemma_heights_from_nonneg(files, sv, i + 1);
    lemma_heights_from_nonneg(files, sv, i);
    assert(heights_from(files, sv, i + 1) >= 0);
    assert(file_height(files[i], review_for(sv, files[i].path)) <= heights_from(files, sv, i));
}

pub proof fn lemma_offset_nonneg(files: Seq<DiffFileView>, sv: SessionView, i: int)
    ensures
        offset_of(files, sv, i) >= 0,
        offset_approx_of(files, sv, i) >= 0,
        offset_approx_of(files, sv, i) <= offset_of(files, sv, i),
    decreases i,
{
    broadcast use lemma_file_height_bounds, lemma_file_height_approx_le;

    if i > 0 {
        lemma_offset_nonneg(files, sv, i - 1);
    }
}

/// Rows of the file-level comment blocks `cs[j..]` of file `fi`: every
/// display line of block `j` resolves to its `FileComment` location.
pub open spec fn file_comment_rows(fi: int, cs: Seq<CommentView>, j: int) -> Seq<Location>
    decreases cs.len() - j,
{
    if j < 0 || j >= cs.len() {
        Seq::empty()
    } else {
        Seq::new(
            comment_height(cs[j]) as nat,
            |x: int| Location::FileComment { file: fi as usize, comment: j as usize },
        ) + file_comment_rows(fi, cs, j + 1)
    }
}

/// Rows of the comment blocks among `cs[j..]` whose effective side is
/// `side`, anchored at line `ln` of file `fi`; `sidx` counts the matching
/// blocks already passed, so each block carries its side-filtered index.
pub open spec fn line_comment_rows(
    fi: int,
    ln: u32,
    side: LineSide,
    cs: Seq<CommentView>,
    j: int,
    sidx: int,
) -> Seq<Location>
    decreases cs.len() - j,
{
    if j < 0 || j >= cs.len() {
        Seq::empty()
    } else if effective_side(cs[j]) == side {
        Seq::new(
            comment_height(cs[j]) as nat,
            |x: int| Location::LineComment {
                file: fi as usize,
                line: ln,
                side,
                comment: sidx as usize,
            },
        ) + line_comment_rows(fi, ln, side, cs, j + 1, sidx + 1)
    } else {
        line_comment_rows(fi, ln, side, cs, j + 1, sidx)
    }
}

/// Rows of one diff line of file `fi`: the line itself, then the old-side
/// blocks of its old number, then the new-side blocks of its new number.
pub open spec fn diff_line_rows(
    fi: int,
    lcs: Seq<(u32, Seq<CommentView>)>,
    dl: DiffLineView,
) -> Seq<Location> {
    seq![
        Location::DiffLine { file: fi as usize, old_lineno: dl.old_lineno, new_lineno: dl.new_lineno },
    ] + (match dl.old_lineno {
        Some(o) => line_comment_rows(fi, o, LineSide::Old, comments_at(lcs, o), 0, 0),
        None => Seq::empty(),
    }) + (match dl.new_lineno {
        Some(n) => line_comment_rows(fi, n, LineSide::New, comments_at(lcs, n), 0, 0),
        None => Seq::empty(),
    })
}

/// Rows of the diff lines `lines[l..]` of file `fi`.
pub open spec fn hunk_line_rows(
    fi: int,
    lcs: Seq<(u32, Seq<CommentView>)>,
    lines: Seq<DiffLineView>,
    l: int,
) -> Seq<Location>
    decreases lines.len() - l,
{
    if l < 0 || l >= lines.len() {
        Seq::empty()
    } else {
        diff_line_rows(fi, lcs, lines[l]) + hunk_line_rows(fi, lcs, lines, l + 1)
    }
}

/// Rows of the hunks `hunks[k..]` of file `fi`: a header row each, then the
/// hunk's lines.
pub open spec fn hunks_rows(
    fi: int,
    lcs: Seq<(u32, Seq<CommentView>)>,
    hunks: Seq<HunkView>,
    k: int,
) -> Seq<Location>
    decreases hunks.len() - k,
{
    if k < 0 || k >= hunks.len() {
        Seq::empty()
    } else {
        (seq![Location::HunkHeader { file: fi as usize, hunk: k as usize }] + hunk_line_rows(
            fi,
            lcs,
            hunks[k].lines,
            0,
        )) + hunks_rows(fi, lcs, hunks, k + 1)
    }
}

/// Rows of a file's body: the placeholder row of a binary or hunkless file,
/// otherwise its hunks.
pub open spec fn file_body_rows(
    fi: int,
    f: DiffFileView,
    lcs: Seq<(u32, Seq<CommentView>)>,
) -> Seq<Location> {
    if f.is_binary || f.hunks.len() == 0 {
        seq![Location::Placeholder { file: fi as usize }]
    } else {
        hunks_rows(fi, lcs, f.hunks, 0)
    }
}

/// Rows of one file: its header row, and — unless the file is collapsed —
/// its file-level comment blocks, its body and a spacing row.
pub open spec fn file_rows(fi: int, f: DiffFileView, rv: FileReviewView) -> Seq<Location> {
    seq![Location::FileHeader { file: fi as usize }] + if rv.reviewed {
        Seq::empty()
    } else {
        file_comment_rows(fi, rv.file_comments, 0) + file_body_rows(fi, f, rv.line_comments)
            + seq![Location::Spacing { file: fi as usize }]
    }
}

/// Rows of the files `files[i..]`.
pub open spec fn rows_from(files: Seq<DiffFileView>, sv: SessionView, i: int) -> Seq<Location>
    decreases files.len() - i,
{
    if i < 0 || i >= files.len() {
        Seq::empty()
    } else {
        file_rows(i, files[i], review_for(sv, files[i].path)) + rows_from(files, sv, i + 1)
    }
}

/// The whole flattened line space, as the semantic entity of each line.
pub open spec fn rows(files: Seq<DiffFileView>, sv: SessionView) -> Seq<Location> {
    rows_from(files, sv, 0)
}

pub proof fn lemma_file_comment_rows_len(fi: int, cs: Seq<CommentView>, j: int)
    ensures
        file_comment_rows(fi, cs, j).len() == comments_height(cs, j),
    decreases cs.len() - j,
{
    if 0 <= j < cs.len() {
        lemma_file_comment_rows_len(fi, cs, j + 1);
    }
}

pub proof fn lemma_line_comment_rows_len(
    fi: int,
    ln: u32,
    side: LineSide,
    cs: Seq<CommentView>,
    j: int,
    sidx: int,
)
    ensures
        line_comment_rows(fi, ln, side, cs, j, sidx).len() == side_comments_height(cs, side, j),
    decreases cs.len() - j,
{
    if 0 <= j < cs.len() {
        if effective_side(cs[j]) == side {
            lemma_line_comment_rows_len(fi, ln, side, cs, j + 1, sidx + 1);
        } else {
            lemma_line_comment_rows_len(fi, ln, side, cs, j + 1, sidx);
        }
    }
}

pub proof fn lemma_diff_line_rows_len(
    fi: int,
    lcs: Seq<(u32, Seq<CommentView>)>,
    dl: DiffLineView,
)
    ensures
        diff_line_rows(fi, lcs, dl).len() == 1 + line_extra_height(lcs, dl),
{
    match dl.old_lineno {
        Some(o) => lemma_line_comment_rows_len(fi, o, LineSide::Old, comments_at(lcs, o), 0, 0),
        None => (),
    }
    match dl.new_lineno {
        Some(n) => lemma_line_comment_rows_len(fi, n, LineSide::New, comments_at(lcs, n), 0, 0),
        None => (),
    }
}

pub proof fn lemma_hunk_line_rows_len(
    fi: int,
    lcs: Seq<(u32, Seq<CommentView>)>,
    lines: Seq<DiffLineView>,
    l: int,
)
    ensures
        hunk_line_rows(fi, lcs, lines, l).len() == lines_height(lcs, lines, l),
    decreases lines.len() - l,
{
    if 0 <= l < lines.len() {
        lemma_diff_line_rows_len(fi, lcs, lines[l]);
        lemma_hunk_line_rows_len(fi, lcs, lines, l + 1);
    }
}

pub proof fn lemma_hunks_rows_len(
    fi: int,
    lcs: Seq<(u32, Seq<CommentView>)>,
    hunks: Seq<HunkView>,
    k: int,
)
    ensures
        hunks_rows(fi, lcs, hunks, k).len() == hunks_height(lcs, hunks, k),
    decreases hunks.len() - k,
{
    if 0 <= k < hunks.len() {
        lemma_hunk_line_rows_len(fi, lcs, hunks[k].lines, 0);
        lemma_hunks_rows_len(fi, lcs, hunks, k + 1);
    }
}

pub proof fn lemma_file_body_rows_len(
    fi: int,
    f: DiffFileView,
    lcs: Seq<(u32, Seq<CommentView>)>,
)
    ensures
        file_body_rows(fi, f, lcs).len() == body_height(f, lcs),
{
    if !(f.is_binary || f.hunks.len() == 0) {
        lemma_hunks_rows_len(fi, lcs, f.hunks, 0);
    }
}

pub proof fn lemma_file_rows_len(fi: int, f: DiffFileView, rv: FileReviewView)
    ensures
        file_rows(fi, f, rv).len() == file_height(f, rv),
{
    if !rv.reviewed {
        lemma_file_comment_rows_len(fi, rv.file_comments, 0);
        lemma_file_body_rows_len(fi, f, rv.line_comments);
    }
}

pub proof fn lemma_rows_from_len(files: Seq<DiffFileView>, sv: SessionView, i: int)
    ensures
        rows_from(files, sv, i).len() == heights_from(files, sv, i),
    decreases files.len() - i,
{
    if 0 <= i < files.len() {
        lemma_file_rows_len(i, files[i], review_for(sv, files[i].path));
        lemma_rows_from_len(files, sv, i + 1);
    }
}

pub proof fn lemma_suffix_le_expanded(files: Seq<DiffFileView>, sv: SessionView, i: int)
    requires
        0 <= i <= files.len(),
    ensures
        heights_from(files, sv, i) <= heights_expanded_from(files, sv, 0),
    decreases i,
{
    broadcast use lemma_file_height_bounds, lemma_heights_from_nonneg;

    if i > 0 {
        lemma_suffix_le_expanded(files, sv, i - 1);
    }
}

pub broadcast proof fn lemma_skeleton_nonneg(hunks: Seq<HunkView>, k: int)
    ensures
        #[trigger] skeleton_height(hunks, k) >= 0,
        0 <= k < hunks.len() ==> skeleton_height(hunks, k) >= 1,
    decreases hunks.len() - k,
{
    if 0 <= k < hunks.len() {
        lemma_skeleton_nonneg(hunks, k + 1);
    }
}

/// A file's expanded height is bounded by the expanded sum from any earlier
/// position.
pub proof fn lemma_expanded_member(files: Seq<DiffFileView>, sv: SessionView, j: int, i: int)
    requires
        0 <= j <= i < files.len(),
    ensures
        ({
            let rv = review_for(sv, files[i].path);
            file_height_expanded(files[i], rv.file_comments, rv.line_comments)
                <= heights_expanded_from(files, sv, j)
        }),
    decreases i - j,
{
    let rv_j = review_for(sv, files[j].path);
    lemma_file_height_bounds(files[j], rv_j);
    assert(heights_expanded_from(files, sv, j) == file_height_expanded(
        files[j],
        rv_j.file_comments,
        rv_j.line_comments,
    ) + heights_expanded_from(files, sv, j + 1));
    lemma_heights_from_nonneg(files, sv, j + 1);
    if j < i {
        lemma_expanded_member(files, sv, j + 1, i);
    }
}

/// Number of `'\n'` characters in `s`.
fn count_newlines(s: &str) -> (r: usize)
    ensures
        r as nat == newline_count(s@),
{
    let len = s.unicode_len();
    let mut i: usize = 0;
    let mut count: usize = 0;
    while i < len
        invariant
            0 <= i <= len,
            len == s@.len(),
            count as nat == newline_count_prefix(s@, i as int),
            count <= i,
        decreases len - i,
    {
        if s.get_char(i) == '\n' {
            count += 1;
        }
        i += 1;
    }
    count
}

/// Display height of one comment block: a header line, one line per content
/// line, a footer line. A height beyond the machine bound is reported as
/// that bound; inside a session that fits the machine this never happens.
pub fn comment_display_lines(comment: &Comment) -> (r: usize)
    ensures
        r as int == if comment_height(comment@) <= usize::MAX as int {
            comment_height(comment@)
        } else {
            usize::MAX as int
        },
{
    let n = count_newlines(comment.content.as_str());
    if n <= usize::MAX - 3 {
        n + 3
    } else {
        usize::MAX
    }
}

/// Total display height of a list of comment blocks.
fn comments_height_x(cs: &Vec<Comment>) -> (r: usize)
    requires
        comments_height(cs.deep_view(), 0) <= usize::MAX as int,
    ensures
        r as int == comments_height(cs.deep_view(), 0),
{
    broadcast use lemma_comments_height_nonneg;

    let ghost csv = cs.deep_view();
    let mut acc: usize = 0;
    let mut j: usize = 0;
    while j < cs.len()
        invariant
            0 <= j <= csv.len(),
            csv == cs.deep_view(),
            csv.len() == cs@.len(),
            comments_height(csv, 0) <= usize::MAX as int,
            acc as int == comments_height(csv, 0) - comments_height(csv, j as int),
        decreases csv.len() - j,
    {
        proof {
            assert(csv[j as int] == cs@[j as int]@);
            assert(comment_height(csv[j as int]) + comments_height(csv, j + 1) == comments_height(
                csv,
                j as int,
            ));
            lemma_comments_height_nonneg(csv, j + 1);
            assert(comments_height(csv, j + 1) >= 0);
            assert(comment_height(csv[j as int]) <= usize::MAX as int);
        }
        let h = comment_display_lines(&cs[j]);
        acc += h;
        j += 1;
    }
    acc
}

/// Total display height of the blocks of one side of a comment list.
fn side_comments_height_x(cs: &Vec<Comment>, side: LineSide) -> (r: usize)
    requires
        side_comments_height(cs.deep_view(), side, 0) <= usize::MAX as int,
    ensures
        r as int == side_comments_height(cs.deep_view(), side, 0),
{
    broadcast use lemma_side_comments_height_nonneg;

    let ghost csv = cs.deep_view();
    let mut acc: usize = 0;
    let mut j: usize = 0;
    while j < cs.len()
        invariant
            0 <= j <= csv.len(),
            csv == cs.deep_view(),
            csv.len() == cs@.len(),
            side_comments_height(csv, side, 0) <= usize::MAX as int,
            acc as int == side_comments_height(csv, side, 0) - side_comments_height(
                csv,
                side,
                j as int,
            ),
        decreases csv.len() - j,
    {
        proof {
            assert(csv[j as int] == cs@[j as int]@);
            assert(side_comments_height(csv, side, j as int) == (if effective_side(
                csv[j as int],
            ) == side {
                comment_height(csv[j as int])
            } else {
                0
            }) + side_comments_height(csv, side, j + 1));
            lemma_side_comments_height_nonneg(csv, side, j + 1);
            assert(side_comments_height(csv, side, j + 1) >= 0);
        }
        let es = match cs[j].side {
            Some(LineSide::Old) => LineSide::Old,
            _ => LineSide::New,
        };
        if es == side {
            proof {
                assert(effective_side(csv[j as int]) == side);
                assert(comment_height(csv[j as int]) <= usize::MAX as int);
            }
            let h = comment_display_lines(&cs[j]);
            acc += h;
        }
        j += 1;
    }
    acc
}

/// Display height of the comment blocks attached to one diff line.
fn line_extra_x(fr: &FileReview, dl: &DiffLine) -> (r: usize)
    requires
        line_extra_height(fr@.line_comments, dl@) <= usize::MAX as int,
    ensures
        r as int == line_extra_height(fr@.line_comments, dl@),
{
    broadcast use lemma_side_comments_height_nonneg;

    let ghost lcs = fr@.line_comments;
    let mut extra: usize = 0;
    proof {
        assert(dl@.old_lineno == dl.old_lineno && dl@.new_lineno == dl.new_lineno);
    }
    if let Some(o) = dl.old_lineno {
        match ReviewSession::find_line_entry(&fr.line_comments, o) {
            Some(k) => {
                proof {
                    assert(comments_at(lcs, o) == lcs[k as int].1);
                    assert(fr.line_comments@[k as int].1.deep_view() == lcs[k as int].1);
                }
                extra = side_comments_height_x(&fr.line_comments[k].1, LineSide::Old);
            },
            None => {
                proof {
                    assert(comments_at(lcs, o) =~= Seq::<CommentView>::empty());
                }
            },
        }
    }
    if let Some(n) = dl.new_lineno {
        match ReviewSession::find_line_entry(&fr.line_comments, n) {
            Some(k) => {
                proof {
                    assert(comments_at(lcs, n) == lcs[k as int].1);
                    assert(fr.line_comments@[k as int].1.deep_view() == lcs[k as int].1);
                }
                let h = side_comments_height_x(&fr.line_comments[k].1, LineSide::New);
                extra += h;
            },
            None => {
                proof {
                    assert(comments_at(lcs, n) =~= Seq::<CommentView>::empty());
                }
            },
        }
    }
    extra
}

/// Display height of a file's body against a given review record.
fn body_height_x(file: &DiffFile, fr: &FileReview) -> (r: usize)
    requires
        body_height(file@, fr@.line_comments) <= usize::MAX as int,
    ensures
        r as int == body_height(file@, fr@.line_comments),
{
    broadcast use lemma_hunks_height_nonneg, lemma_lines_height_nonneg,
        lemma_side_comments_height_nonneg;

    if file.is_binary || file.hunks.len() == 0 {
        return 1;
    }
    let ghost lcs = fr@.line_comments;
    let ghost hunks = file@.hunks;
    let mut acc: usize = 0;
    let mut k: usize = 0;
    while k < file.hunks.len()
        invariant
            0 <= k <= hunks.len(),
            hunks == file@.hunks,
            lcs == fr@.line_comments,
            hunks.len() == file.hunks@.len(),
            hunks.len() > 0,
            hunks_height(lcs, hunks, 0) <= usize::MAX as int,
            acc as int == hunks_height(lcs, hunks, 0) - hunks_height(lcs, hunks, k as int),
        decreases hunks.len() - k,
    {
        let ghost lines = hunks[k as int].lines;
        proof {
            assert(hunks_height(lcs, hunks, k as int) == 1 + lines_height(lcs, lines, 0)
                + hunks_height(lcs, hunks, k + 1));
            lemma_hunks_height_nonneg(lcs, hunks, k + 1);
            lemma_lines_height_nonneg(lcs, lines, 0);
        }
        acc += 1;
        let hunk = &file.hunks[k];
        let mut l: usize = 0;
        while l < hunk.lines.len()
            invariant
                0 <= l <= lines.len(),
                hunks == file@.hunks,
                lcs == fr@.line_comments,
                0 <= k < hunks.len(),
                hunk@ == hunks[k as int],
                lines == hunks[k as int].lines,
                lines.len() == hunk.lines@.len(),
                hunks_height(lcs, hunks, 0) <= usize::MAX as int,
                acc as int == hunks_height(lcs, hunks, 0) - hunks_height(lcs, hunks, k as int) + 1
                    + lines_height(lcs, lines, 0) - lines_height(lcs, lines, l as int),
            decreases lines.len() - l,
        {
            proof {
                assert(lines_height(lcs, lines, l as int) == 1 + line_extra_height(
                    lcs,
                    lines[l as int],
                ) + lines_height(lcs, lines, l + 1));
                assert(hunks_height(lcs, hunks, k as int) == 1 + lines_height(lcs, lines, 0)
                    + hunks_height(lcs, hunks, k + 1));
            }
            proof {
                assert(hunk.lines@[l as int]@ == lines[l as int]);
                lemma_lines_height_nonneg(lcs, lines, l + 1);
                lemma_hunks_height_nonneg(lcs, hunks, k + 1);
                assert(lines_height(lcs, lines, l + 1) >= 0);
                assert(hunks_height(lcs, hunks, k + 1) >= 0);
            }
            let extra = line_extra_x(fr, &hunk.lines[l]);
            acc = acc + 1 + extra;
            l += 1;
        }
        proof {
            assert(lines_height(lcs, lines, lines.len() as int) == 0);
        }
        k += 1;
    }
    acc
}

/// Exact display height of one file in the flattened space: 1 when the file
/// is marked reviewed, otherwise its header line, its file-level comment
/// blocks, its body (placeholder line for binary or hunkless files, else
/// hunk headers, diff lines and their comment blocks) and a spacing line.
/// This is the authoritative height that cursor and scroll bounds use.
pub fn file_render_height(file: &DiffFile, session: &ReviewSession) -> (r: usize)
    requires
        file_height(file@, review_for(session@, file@.path)) <= usize::MAX as int,
    ensures
        r as int == file_height(file@, review_for(session@, file@.path)),
{
    broadcast use lemma_comments_height_nonneg, lemma_hunks_height_nonneg;

    let path = file.display_path();
    if session.is_file_reviewed(path) {
        return 1;
    }
    match session.get_file(path) {
        Some(fr) => {
            let ch = comments_height_x(&fr.file_comments);
            let bh = body_height_x(file, fr);
            2 + ch + bh
        },
        None => {
            let empty = FileReview::new();
            let bh = body_height_x(file, &empty);
            proof {
                assert(comments_height(Seq::<CommentView>::empty(), 0) == 0);
            }
            2 + bh
        },
    }
}

/// Approximate display height of one file: comment blocks are left out, a
/// binary or hunkless file counts its placeholder line. Only the reload
/// remap heuristic reads this; it never exceeds the exact expanded height.
pub fn file_render_height_approx(file: &DiffFile, session: &ReviewSession) -> (r: usize)
    requires
        file_height_approx(file@, review_for(session@, file@.path)) <= usize::MAX as int,
    ensures
        r as int == file_height_approx(file@, review_for(session@, file@.path)),
{
    broadcast use lemma_skeleton_nonneg;

    let path = file.display_path();
    if session.is_file_reviewed(path) {
        return 1;
    }
    if file.is_binary || file.hunks.len() == 0 {
        return 3;
    }
    let ghost hunks = file@.hunks;
    let mut acc: usize = 0;
    let mut k: usize = 0;
    while k < file.hunks.len()
        invariant
            0 <= k <= hunks.len(),
            hunks == file@.hunks,
            hunks.len() == file.hunks@.len(),
            hunks.len() > 0,
            skeleton_height(hunks, 0) <= usize::MAX as int - 2,
            acc as int == skeleton_height(hunks, 0) - skeleton_height(hunks, k as int),
        decreases hunks.len() - k,
    {
        proof {
            assert(skeleton_height(hunks, k as int) == 1 + hunks[k as int].lines.len()
                + skeleton_height(hunks, k + 1));
            lemma_skeleton_nonneg(hunks, k + 1);
            assert(hunks[k as int].lines.len() == file.hunks@[k as int].lines@.len());
        }
        let n = file.hunks[k].lines.len();
        acc = acc + 1 + n;
        k += 1;
    }
    2 + acc
}

/// Total number of lines of the flattened space: the sum of the exact
/// render heights of all files, in snapshot order.
pub fn total_lines(files: &Vec<DiffFile>, session: &ReviewSession) -> (r: usize)
    requires
        fits(files.deep_view(), session@),
    ensures
        r as int == total_height(files.deep_view(), session@),
{
    let ghost fv = files.deep_view();
    let ghost sv = session@;
    let mut acc: usize = 0;
    let mut i: usize = 0;
    while i < files.len()
        invariant
            0 <= i <= fv.len(),
            fv == files.deep_view(),
            sv == session@,
            fv.len() == files@.len(),
            fits(fv, sv),
            acc as int == offset_of(fv, sv, i as int),
        decreases fv.len() - i,
    {
        proof {
            assert(files@[i as int]@ == fv[i as int]);
            lemma_file_span_in_total(fv, sv, i as int);
            lemma_heights_from_nonneg(fv, sv, 0);
        }
        let h = file_render_height(&files[i], session);
        acc += h;
        i += 1;
    }
    proof {
        lemma_offset_plus_suffix(fv, sv, fv.len() as int);
    }
    acc
}

/// Flattened position of the header line of file `file_idx`: the sum of the
/// exact render heights of all files before it.
pub fn calculate_file_scroll_offset(
    files: &Vec<DiffFile>,
    session: &ReviewSession,
    file_idx: usize,
) -> (r: usize)
    requires
        fits(files.deep_view(), session@),
        file_idx <= files.deep_view().len(),
    ensures
        r as int == offset_of(files.deep_view(), session@, file_idx as int),
{
    let ghost fv = files.deep_view();
    let ghost sv = session@;
    let mut acc: usize = 0;
    let mut i: usize = 0;
    while i < file_idx
        invariant
            0 <= i <= file_idx <= fv.len(),
            fv == files.deep_view(),
            sv == session@,
            fv.len() == files@.len(),
            fits(fv, sv),
            acc as int == offset_of(fv, sv, i as int),
        decreases file_idx - i,
    {
        proof {
            assert(files@[i as int]@ == fv[i as int]);
            lemma_file_span_in_total(fv, sv, i as int);
            lemma_heights_from_nonneg(fv, sv, 0);
        }
        let h = file_render_height(&files[i], session);
        acc += h;
        i += 1;
    }
    acc
}

/// Like `calculate_file_scroll_offset`, over the approximate heights. Only
/// the reload remap heuristic reads this.
pub fn calculate_file_scroll_offset_approx(
    files: &Vec<DiffFile>,
    session: &ReviewSession,
    file_idx: usize,
) -> (r: usize)
    requires
        fits(files.deep_view(), session@),
        file_idx <= files.deep_view().len(),
    ensures
        r as int == offset_approx_of(files.deep_view(), session@, file_idx as int),
{
    let ghost fv = files.deep_view();
    let ghost sv = session@;
    let mut acc: usize = 0;
    let mut i: usize = 0;
    while i < file_idx
        invariant
            0 <= i <= file_idx <= fv.len(),
            fv == files.deep_view(),
            sv == session@,
            fv.len() == files@.len(),
            fits(fv, sv),
            acc as int == offset_approx_of(fv, sv, i as int),
        decreases file_idx - i,
    {
        proof {
            assert(files@[i as int]@ == fv[i as int]);
            lemma_file_height_approx_le(fv[i as int], review_for(sv, fv[i as int].path));
            lemma_expanded_member(fv, sv, 0, i as int);
            lemma_offset_nonneg(fv, sv, i as int + 1);
            lemma_offset_plus_suffix(fv, sv, i as int + 1);
            lemma_heights_from_nonneg(fv, sv, i as int + 1);
            lemma_heights_from_nonneg(fv, sv, 0);
        }
        let h = file_render_height_approx(&files[i], session);
        acc += h;
        i += 1;
    }
    acc
}

/// Walk the display lines of the file-level comment blocks `cs` of file
/// `fi` and resolve position `q` to its block.
fn locate_in_file_comments(cs: &Vec<Comment>, fi: usize, q: usize) -> (r: Location)
    requires
        (q as int) < comments_height(cs.deep_view(), 0),
        comments_height(cs.deep_view(), 0) <= usize::MAX as int,
    ensures
        r == file_comment_rows(fi as int, cs.deep_view(), 0)[q as int],
{
    let ghost csv = cs.deep_view();
    let ghost target = file_comment_rows(fi as int, csv, 0)[q as int];
    let mut rem: usize = q;
    let mut j: usize = 0;
    while j < cs.len()
        invariant
            0 <= j <= csv.len(),
            csv == cs.deep_view(),
            csv.len() == cs@.len(),
            (rem as int) < comments_height(csv, j as int),
            comments_height(csv, j as int) <= usize::MAX as int,
            target == file_comment_rows(fi as int, csv, 0)[q as int],
            target == file_comment_rows(fi as int, csv, j as int)[rem as int],
        decreases csv.len() - j,
    {
        proof {
            assert(csv[j as int] == cs@[j as int]@);
            lemma_comments_height_nonneg(csv, j + 1);
            assert(comment_height(csv[j as int]) <= usize::MAX as int);
            lemma_file_comment_rows_len(fi as int, csv, j + 1);
        }
        let h = comment_display_lines(&cs[j]);
        if rem < h {
            proof {
                assert(file_comment_rows(fi as int, csv, j as int)[rem as int]
                    == Location::FileComment { file: fi, comment: j });
            }
            return Location::FileComment { file: fi, comment: j };
        }
        rem -= h;
        j += 1;
    }
    proof {
        assert(false);
    }
    Location::FileHeader { file: fi }
}

/// Walk the display lines of the blocks of one side of the comment list
/// `cs`, anchored at line `ln` of file `fi`, and resolve position `q` to
/// its block, reporting the side-filtered index of that block.
fn locate_in_side_comments(cs: &Vec<Comment>, fi: usize, ln: u32, side: LineSide, q: usize) -> (r:
    Location)
    requires
        (q as int) < side_comments_height(cs.deep_view(), side, 0),
        side_comments_height(cs.deep_view(), side, 0) <= usize::MAX as int,
    ensures
        r == line_comment_rows(fi as int, ln, side, cs.deep_view(), 0, 0)[q as int],
{
    let ghost csv = cs.deep_view();
    let ghost target = line_comment_rows(fi as int, ln, side, csv, 0, 0)[q as int];
    let mut rem: usize = q;
    let mut j: usize = 0;
    let mut sidx: usize = 0;
    while j < cs.len()
        invariant
            0 <= j <= csv.len(),
            0 <= sidx <= j,
            csv == cs.deep_view(),
            csv.len() == cs@.len(),
            (rem as int) < side_comments_height(csv, side, j as int),
            side_comments_height(csv, side, j as int) <= usize::MAX as int,
            target == line_comment_rows(fi as int, ln, side, csv, 0, 0)[q as int],
            target == line_comment_rows(fi as int, ln, side, csv, j as int, sidx as int)[rem as int],
        decreases csv.len() - j,
    {
        proof {
            assert(csv[j as int] == cs@[j as int]@);
            lemma_side_comments_height_nonneg(csv, side, j + 1);
            lemma_line_comment_rows_len(fi as int, ln, side, csv, j + 1, sidx as int + 1);
            lemma_line_comment_rows_len(fi as int, ln, side, csv, j + 1, sidx as int);
        }
        let es = match cs[j].side {
            Some(LineSide::Old) => LineSide::Old,
            _ => LineSide::New,
        };
        if es == side {
            proof {
                assert(effective_side(csv[j as int]) == side);
                assert(comment_height(csv[j as int]) <= usize::MAX as int);
            }
            let h = comment_display_lines(&cs[j]);
            if rem < h {
                proof {
                    assert(line_comment_rows(fi as int, ln, side, csv, j as int, sidx as int)[
                        rem as int] == Location::LineComment {
                        file: fi,
                        line: ln,
                        side,
                        comment: sidx,
                    });
                }
                return Location::LineComment { file: fi, line: ln, side, comment: sidx };
            }
            rem -= h;
            sidx += 1;
        } else {
            proof {
                assert(effective_side(csv[j as int]) != side);
            }
        }
        j += 1;
    }
    proof {
        assert(false);
    }
    Location::FileHeader { file: fi }
}

/// Display height of the blocks of one side of the comment list stored for
/// line `ln`, or 0 when the line has no entry.
fn side_height_at(fr: &FileReview, ln: u32, side: LineSide) -> (r: usize)
    requires
        side_comments_height(comments_at(fr@.line_comments, ln), side, 0) <= usize::MAX as int,
    ensures
        r as int == side_comments_height(comments_at(fr@.line_comments, ln), side, 0),
{
    match ReviewSession::find_line_entry(&fr.line_comments, ln) {
        Some(k) => {
            proof {
                assert(comments_at(fr@.line_comments, ln) == fr@.line_comments[k as int].1);
                assert(fr.line_comments@[k as int].1.deep_view() == fr@.line_comments[k as int].1);
            }
            side_comments_height_x(&fr.line_comments[k].1, side)
        },
        None => {
            proof {
                assert(comments_at(fr@.line_comments, ln) =~= Seq::<CommentView>::empty());
            }
            0
        },
    }
}

/// Suffix sums at or after a removed position continue one element later.
pub proof fn lemma_ch_shift(cs: Seq<CommentView>, idx: int, j: int)
    requires
        0 <= idx < cs.len(),
        idx <= j <= cs.len() - 1,
    ensures
        comments_height(cs.remove(idx), j) == comments_height(cs, j + 1),
    decreases cs.len() - j,
{
    cs.remove_ensures(idx);
    if j < cs.len() - 1 {
        lemma_ch_shift(cs, idx, j + 1);
    }
}

/// Removing one comment block lowers the total height by exactly that
/// block's height.
pub proof fn lemma_ch_remove(cs: Seq<CommentView>, idx: int, j: int)
    requires
        0 <= j <= idx < cs.len(),
    ensures
        comments_height(cs.remove(idx), j) == comments_height(cs, j) - comment_height(cs[idx]),
    decreases idx - j,
{
    cs.remove_ensures(idx);
    if j < idx {
        lemma_ch_remove(cs, idx, j + 1);
    } else {
        if j <= cs.len() - 1 {
            lemma_ch_shift(cs, idx, j);
        }
    }
}

pub proof fn lemma_side_shift(cs: Seq<CommentView>, side: LineSide, idx: int, j: int)
    requires
        0 <= idx < cs.len(),
        idx <= j <= cs.len() - 1,
    ensures
        side_comments_height(cs.remove(idx), side, j) == side_comments_height(cs, side, j + 1),
    decreases cs.len() - j,
{
    cs.remove_ensures(idx);
    if j < cs.len() - 1 {
        lemma_side_shift(cs, side, idx, j + 1);
    }
}

/// Removing one comment never raises a side's total height.
pub proof fn lemma_side_remove_le(cs: Seq<CommentView>, side: LineSide, idx: int, j: int)
    requires
        0 <= j <= idx < cs.len(),
    ensures
        side_comments_height(cs.remove(idx), side, j) <= side_comments_height(cs, side, j),
    decreases idx - j,
{
    cs.remove_ensures(idx);
    if j < idx {
        lemma_side_remove_le(cs, side, idx, j + 1);
    } else {
        lemma_side_shift(cs, side, idx, j);
        lemma_side_comments_height_nonneg(cs, side, j);
        lemma_side_comments_height_nonneg(cs.remove(idx), side, j);
        assert(side_comments_height(cs, side, j) == (if effective_side(cs[j]) == side {
            comment_height(cs[j])
        } else {
            0
        }) + side_comments_height(cs, side, j + 1));
    }
}

/// Diff-line heights never rise when every line's side blocks shrink or
/// stay.
pub proof fn lemma_lines_mono(
    lcsa: Seq<(u32, Seq<CommentView>)>,
    lcsb: Seq<(u32, Seq<CommentView>)>,
    lines: Seq<DiffLineView>,
    l: int,
)
    requires
        forall|ln: u32, side: LineSide|
            #[trigger] side_comments_height(comments_at(lcsb, ln), side, 0)
                <= side_comments_height(comments_at(lcsa, ln), side, 0),
    ensures
        lines_height(lcsb, lines, l) <= lines_height(lcsa, lines, l),
    decreases lines.len() - l,
{
    if 0 <= l < lines.len() {
        lemma_lines_mono(lcsa, lcsb, lines, l + 1);
    }
}

pub proof fn lemma_hunks_mono(
    lcsa: Seq<(u32, Seq<CommentView>)>,
    lcsb: Seq<(u32, Seq<CommentView>)>,
    hunks: Seq<HunkView>,
    k: int,
)
    requires
        forall|ln: u32, side: LineSide|
            #[trigger] side_comments_height(comments_at(lcsb, ln), side, 0)
                <= side_comments_height(comments_at(lcsa, ln), side, 0),
    ensures
        hunks_height(lcsb, hunks, k) <= hunks_height(lcsa, hunks, k),
    decreases hunks.len() - k,
{
    if 0 <= k < hunks.len() {
        lemma_lines_mono(lcsa, lcsb, hunks[k].lines, 0);
        lemma_hunks_mono(lcsa, lcsb, hunks, k + 1);
    }
}

/// A file's body height never rises when every line's side blocks shrink
/// or stay.
pub proof fn lemma_body_mono(
    f: DiffFileView,
    lcsa: Seq<(u32, Seq<CommentView>)>,
    lcsb: Seq<(u32, Seq<CommentView>)>,
)
    requires
        forall|ln: u32, side: LineSide|
            #[trigger] side_comments_height(comments_at(lcsb, ln), side, 0)
                <= side_comments_height(comments_at(lcsa, ln), side, 0),
    ensures
        body_height(f, lcsb) <= body_height(f, lcsa),
{
    if !(f.is_binary || f.hunks.len() == 0) {
        lemma_hunks_mono(lcsa, lcsb, f.hunks, 0);
    }
}

/// Whether one diff line displays comment blocks anchored at `(ln, side)`:
/// old-side blocks hang off its old number, new-side blocks off its new
/// number.
pub open spec fn line_anchored(dl: DiffLineView, ln: u32, side: LineSide) -> bool {
    match side {
        LineSide::Old => dl.old_lineno == Some(ln),
        LineSide::New => dl.new_lineno == Some(ln),
    }
}

/// Number of diff lines among `lines[l..]` that display the anchor
/// `(ln, side)`.
pub open spec fn lines_anchors(lines: Seq<DiffLineView>, l: int, ln: u32, side: LineSide) -> int
    decreases lines.len() - l,
{
    if l < 0 || l >= lines.len() {
        0
    } else {
        (if line_anchored(lines[l], ln, side) {
            1int
        } else {
            0
        }) + lines_anchors(lines, l + 1, ln, side)
    }
}

/// Number of diff lines among the hunks `hunks[k..]` that display the
/// anchor `(ln, side)`.
pub open spec fn hunks_anchors(hunks: Seq<HunkView>, k: int, ln: u32, side: LineSide) -> int
    decreases hunks.len() - k,
{
    if k < 0 || k >= hunks.len() {
        0
    } else {
        lines_anchors(hunks[k].lines, 0, ln, side) + hunks_anchors(hunks, k + 1, ln, side)
    }
}

/// Number of diff lines of the file that display the anchor `(ln, side)`;
/// a binary or hunkless file displays none.
pub open spec fn file_anchors(f: DiffFileView, ln: u32, side: LineSide) -> int {
    if f.is_binary || f.hunks.len() == 0 {
        0
    } else {
        hunks_anchors(f.hunks, 0, ln, side)
    }
}

/// Appending one comment block raises its own side's total height by
/// exactly the block's height and leaves the other side's untouched.
pub proof fn lemma_side_height_push(cs: Seq<CommentView>, c: CommentView, side: LineSide, j: int)
    requires
        0 <= j <= cs.len(),
    ensures
        side_comments_height(cs.push(c), side, j) == side_comments_height(cs, side, j) + (
        if effective_side(c) == side {
            comment_height(c)
        } else {
            0
        }),
    decreases cs.len() - j,
{
    if j == cs.len() {
        assert(cs.push(c)[j] == c);
        assert(side_comments_height(cs.push(c), side, j + 1) == 0);
    } else {
        assert(cs.push(c)[j] == cs[j]);
        lemma_side_height_push(cs, c, side, j + 1);
    }
}

/// When every line's side blocks grow by `h` exactly at the anchor
/// `(ln, side)`, the diff lines' height grows by `h` per anchored line.
pub proof fn lemma_lines_height_delta(
    lcsa: Seq<(u32, Seq<CommentView>)>,
    lcsb: Seq<(u32, Seq<CommentView>)>,
    lines: Seq<DiffLineView>,
    l: int,
    ln: u32,
    side: LineSide,
    h: int,
)
    requires
        forall|q: u32, sd: LineSide|
            #[trigger] side_comments_height(comments_at(lcsb, q), sd, 0)
                == side_comments_height(comments_at(lcsa, q), sd, 0) + (if q == ln && sd == side {
                h
            } else {
                0
            }),
    ensures
        lines_height(lcsb, lines, l) == lines_height(lcsa, lines, l) + h * lines_anchors(
            lines,
            l,
            ln,
            side,
        ),
    decreases lines.len() - l,
{
    if 0 <= l < lines.len() {
        lemma_lines_height_delta(lcsa, lcsb, lines, l + 1, ln, side, h);
        let dl = lines[l];
        let ind: int = if line_anchored(dl, ln, side) {
            1
        } else {
            0
        };
        assert(line_extra_height(lcsb, dl) == line_extra_height(lcsa, dl) + h * ind) by {
            match dl.old_lineno {
                Some(o) => {
                    assert(side_comments_height(comments_at(lcsb, o), LineSide::Old, 0)
                        == side_comments_height(comments_at(lcsa, o), LineSide::Old, 0) + (if o
                        == ln && LineSide::Old == side {
                        h
                    } else {
                        0
                    }));
                },
                None => (),
            }
            match dl.new_lineno {
                Some(n) => {
                    assert(side_comments_height(comments_at(lcsb, n), LineSide::New, 0)
                        == side_comments_height(comments_at(lcsa, n), LineSide::New, 0) + (if n
                        == ln && LineSide::New == side {
                        h
                    } else {
                        0
                    }));
                },
                None => (),
            }
        }
        assert(h * lines_anchors(lines, l, ln, side) == h * ind + h * lines_anchors(
            lines,
            l + 1,
            ln,
            side,
        )) by (nonlinear_arith)
            requires
                lines_anchors(lines, l, ln, side) == ind + lines_anchors(lines, l + 1, ln, side),
        ;
    }
}

/// The per-hunk form of the same growth.
pub proof fn lemma_hunks_height_delta(
    lcsa: Seq<(u32, Seq<CommentView>)>,
    lcsb: Seq<(u32, Seq<CommentView>)>,
    hunks: Seq<HunkView>,
    k: int,
    ln: u32,
    side: LineSide,
    h: int,
)
    requires
        forall|q: u32, sd: LineSide|
            #[trigger] side_comments_height(comments_at(lcsb, q), sd, 0)
                == side_comments_height(comments_at(lcsa, q), sd, 0) + (if q == ln && sd == side {
                h
            } else {
                0
            }),
    ensures
        hunks_height(lcsb, hunks, k) == hunks_height(lcsa, hunks, k) + h * hunks_anchors(
            hunks,
            k,
            ln,
            side,
        ),
    decreases hunks.len() - k,
{
    if 0 <= k < hunks.len() {
        lemma_hunks_height_delta(lcsa, lcsb, hunks, k + 1, ln, side, h);
        lemma_lines_height_delta(lcsa, lcsb, hunks[k].lines, 0, ln, side, h);
        assert(h * hunks_anchors(hunks, k, ln, side) == h * lines_anchors(
            hunks[k].lines,
            0,
            ln,
            side,
        ) + h * hunks_anchors(hunks, k + 1, ln, side)) by (nonlinear_arith)
            requires
                hunks_anchors(hunks, k, ln, side) == lines_anchors(hunks[k].lines, 0, ln, side)
                    + hunks_anchors(hunks, k + 1, ln, side),
        ;
    }
}

/// Adding one line comment grows a file's expanded height by the block's
/// height once per diff line that displays its anchor.
pub proof fn lemma_expanded_height_delta(
    f: DiffFileView,
    fc: Seq<CommentView>,
    lcsa: Seq<(u32, Seq<CommentView>)>,
    lcsb: Seq<(u32, Seq<CommentView>)>,
    ln: u32,
    side: LineSide,
    h: int,
)
    requires
        forall|q: u32, sd: LineSide|
            #[trigger] side_comments_height(comments_at(lcsb, q), sd, 0)
                == side_comments_height(comments_at(lcsa, q), sd, 0) + (if q == ln && sd == side {
                h
            } else {
                0
            }),
    ensures
        file_height_expanded(f, fc, lcsb) == file_height_expanded(f, fc, lcsa) + h * file_anchors(
            f,
            ln,
            side,
        ),
{
    if f.is_binary || f.hunks.len() == 0 {
    } else {
        lemma_hunks_height_delta(lcsa, lcsb, f.hunks, 0, ln, side, h);
    }
}

/// When two sessions agree on every path's record, all height sums agree.
pub proof fn lemma_heights_congruence(
    files: Seq<DiffFileView>,
    sva: SessionView,
    svb: SessionView,
    i: int,
)
    requires
        forall|q: Seq<char>| #[trigger] review_for(svb, q) == review_for(sva, q),
    ensures
        heights_from(files, svb, i) == heights_from(files, sva, i),
        heights_expanded_from(files, svb, i) == heights_expanded_from(files, sva, i),
    decreases files.len() - i,
{
    if 0 <= i < files.len() {
        lemma_heights_congruence(files, sva, svb, i + 1);
    }
}

/// When two sessions differ at most at path `p`, and at every file of that
/// path the expanded height does not rise, the expanded sum does not rise.
pub proof fn lemma_expanded_one_path_le(
    files: Seq<DiffFileView>,
    sva: SessionView,
    svb: SessionView,
    p: Seq<char>,
    i: int,
)
    requires
        forall|q: Seq<char>|
            q != p ==> #[trigger] review_for(svb, q) == review_for(sva, q),
        forall|j: int|
            0 <= j < files.len() && (#[trigger] files[j].path) == p ==> file_height_expanded(
                files[j],
                review_for(svb, p).file_comments,
                review_for(svb, p).line_comments,
            ) <= file_height_expanded(
                files[j],
                review_for(sva, p).file_comments,
                review_for(sva, p).line_comments,
            ),
    ensures
        heights_expanded_from(files, svb, i) <= heights_expanded_from(files, sva, i),
    decreases files.len() - i,
{
    if 0 <= i < files.len() {
        lemma_expanded_one_path_le(files, sva, svb, p, i + 1);
    }
}

/// Index of the first file of the snapshot whose path is `p`, from `i` on,
/// or `-1` if there is none.
pub open spec fn snap_index_from(files: Seq<DiffFileView>, p: Seq<char>, i: int) -> int
    decreases files.len() - i,
{
    if i < 0 || i >= files.len() {
        -1
    } else if files[i].path == p {
        i
    } else {
        snap_index_from(files, p, i + 1)
    }
}

pub open spec fn snap_index(files: Seq<DiffFileView>, p: Seq<char>) -> int {
    snap_index_from(files, p, 0)
}

pub proof fn lemma_snap_index_from(files: Seq<DiffFileView>, p: Seq<char>, i: int)
    requires
        0 <= i <= files.len(),
    ensures
        ({
            let r = snap_index_from(files, p, i);
            &&& r == -1 ==> forall|j: int| i <= j < files.len() ==> (#[trigger] files[j].path) != p
            &&& r != -1 ==> i <= r < files.len() && files[r].path == p && (forall|j: int|
                i <= j < r ==> (#[trigger] files[j].path) != p)
        }),
    decreases files.len() - i,
{
    if i < files.len() {
        lemma_snap_index_from(files, p, i + 1);
    }
}

/// When two sessions differ at most at path `p` and the snapshot's paths
/// are unique, the exact total changes by exactly the one file's height
/// difference.
pub proof fn lemma_heights_one_path_delta(
    files: Seq<DiffFileView>,
    sva: SessionView,
    svb: SessionView,
    p: Seq<char>,
    i: int,
)
    requires
        forall|q: Seq<char>|
            q != p ==> #[trigger] review_for(svb, q) == review_for(sva, q),
        forall|a: int, b: int|
            0 <= a < b < files.len() ==> (#[trigger] files[a].path) != (#[trigger] files[b].path),
        0 <= i <= files.len(),
    ensures
        ({
            let j = snap_index_from(files, p, i);
            if j >= 0 {
                heights_from(files, svb, i) == heights_from(files, sva, i) - file_height(
                    files[j],
                    review_for(sva, p),
                ) + file_height(files[j], review_for(svb, p))
            } else {
                heights_from(files, svb, i) == heights_from(files, sva, i)
            }
        }),
    decreases files.len() - i,
{
    if i < files.len() {
        lemma_heights_one_path_delta(files, sva, svb, p, i + 1);
        lemma_snap_index_from(files, p, i + 1);
        if files[i].path == p {
            assert(snap_index_from(files, p, i + 1) == -1) by {
                lemma_snap_index_from(files, p, i + 1);
                if snap_index_from(files, p, i + 1) >= 0 {
                    let j2 = snap_index_from(files, p, i + 1);
                    assert(files[i].path != files[j2].path);
                }
            }
        }
    }
}

/// Display height of one hunk's diff lines with their comment blocks.
fn lines_height_x(hunk: &Hunk, fr: &FileReview) -> (r: usize)
    requires
        lines_height(fr@.line_comments, hunk@.lines, 0) <= usize::MAX as int,
    ensures
        r as int == lines_height(fr@.line_comments, hunk@.lines, 0),
{
    let ghost lcs = fr@.line_comments;
    let ghost lines = hunk@.lines;
    let mut acc: usize = 0;
    let mut l: usize = 0;
    while l < hunk.lines.len()
        invariant
            0 <= l <= lines.len(),
            lines == hunk@.lines,
            lcs == fr@.line_comments,
            lines.len() == hunk.lines@.len(),
            lines_height(lcs, lines, 0) <= usize::MAX as int,
            acc as int == lines_height(lcs, lines, 0) - lines_height(lcs, lines, l as int),
        decreases lines.len() - l,
    {
        proof {
            assert(lines_height(lcs, lines, l as int) == 1 + line_extra_height(lcs, lines[l as int])
                + lines_height(lcs, lines, l + 1));
            assert(hunk.lines@[l as int]@ == lines[l as int]);
            lemma_lines_height_nonneg(lcs, lines, l + 1);
        }
        let extra = line_extra_x(fr, &hunk.lines[l]);
        acc = acc + 1 + extra;
        l += 1;
    }
    acc
}

/// Resolve position `q` inside the span of file `fi` to its semantic
/// location, against the review record `fr` of that file's path.
fn locate_in_file(file: &DiffFile, fr: &FileReview, fi: usize, q: usize) -> (r: Location)
    requires
        (q as int) < file_height(file@, fr@),
        file_height(file@, fr@) <= usize::MAX as int,
    ensures
        r == file_rows(fi as int, file@, fr@)[q as int],
{
    let ghost f = file@;
    let ghost rv = fr@;
    let ghost frows = file_rows(fi as int, f, rv);
    proof {
        lemma_file_rows_len(fi as int, f, rv);
    }
    if q == 0 {
        proof {
            assert(frows[0] == Location::FileHeader { file: fi });
        }
        return Location::FileHeader { file: fi };
    }
    proof {
        assert(!rv.reviewed);
    }
    let ghost tail = file_comment_rows(fi as int, rv.file_comments, 0) + file_body_rows(
        fi as int,
        f,
        rv.line_comments,
    ) + seq![Location::Spacing { file: fi }];
    let mut rem: usize = q - 1;
    proof {
        assert(frows[q as int] == tail[rem as int]);
    }
    let ghost target = tail[rem as int];
    proof {
        lemma_file_comment_rows_len(fi as int, rv.file_comments, 0);
        lemma_file_body_rows_len(fi as int, f, rv.line_comments);
        lemma_comments_height_nonneg(rv.file_comments, 0);
        lemma_hunks_height_nonneg(rv.line_comments, f.hunks, 0);
    }
    let ch = comments_height_x(&fr.file_comments);
    if rem < ch {
        proof {
            assert(tail[rem as int] == file_comment_rows(fi as int, rv.file_comments, 0)[
                rem as int]);
        }
        return locate_in_file_comments(&fr.file_comments, fi, rem);
    }
    let rem2 = rem - ch;
    let ghost brows = file_body_rows(fi as int, f, rv.line_comments);
    proof {
        if (rem2 as int) < brows.len() {
            assert(tail[rem as int] == brows[rem2 as int]);
        } else {
            assert(tail[rem as int] == Location::Spacing { file: fi });
        }
    }
    let bh = body_height_x(file, fr);
    if rem2 >= bh {
        proof {
            assert(rem2 as int == body_height(f, rv.line_comments));
        }
        return Location::Spacing { file: fi };
    }
    if file.is_binary || file.hunks.len() == 0 {
        proof {
            assert(brows[rem2 as int] == Location::Placeholder { file: fi });
        }
        return Location::Placeholder { file: fi };
    }
    let ghost lcs = rv.line_comments;
    let ghost hunks = f.hunks;
    proof {
        assert(brows == hunks_rows(fi as int, lcs, hunks, 0));
        assert(target == hunks_rows(fi as int, lcs, hunks, 0)[rem2 as int]);
        lemma_hunks_rows_len(fi as int, lcs, hunks, 0);
    }
    let mut rem3: usize = rem2;
    let mut k: usize = 0;
    while k < file.hunks.len()
        invariant
            0 <= k <= hunks.len(),
            f == file@,
            rv == fr@,
            hunks == f.hunks,
            lcs == rv.line_comments,
            hunks.len() == file.hunks@.len(),
            (rem3 as int) < hunks_height(lcs, hunks, k as int),
            hunks_height(lcs, hunks, k as int) <= usize::MAX as int,
            target == hunks_rows(fi as int, lcs, hunks, k as int)[rem3 as int],
            target == file_rows(fi as int, f, rv)[q as int],
        decreases hunks.len() - k,
    {
        let ghost lines = hunks[k as int].lines;
        proof {
            assert(hunks_height(lcs, hunks, k as int) == 1 + lines_height(lcs, lines, 0)
                + hunks_height(lcs, hunks, k + 1));
            lemma_hunk_line_rows_len(fi as int, lcs, lines, 0);
            lemma_hunks_rows_len(fi as int, lcs, hunks, k as int + 1);
            lemma_lines_height_nonneg(lcs, lines, 0);
            lemma_hunks_height_nonneg(lcs, hunks, k + 1);
            assert(hunks_rows(fi as int, lcs, hunks, k as int) == (seq![
                Location::HunkHeader { file: fi, hunk: k },
            ] + hunk_line_rows(fi as int, lcs, lines, 0)) + hunks_rows(
                fi as int,
                lcs,
                hunks,
                k as int + 1,
            ));
        }
        if rem3 == 0 {
            proof {
                assert(hunks_rows(fi as int, lcs, hunks, k as int)[0] == Location::HunkHeader {
                    file: fi,
                    hunk: k,
                });
            }
            return Location::HunkHeader { file: fi, hunk: k };
        }
        let hunk = &file.hunks[k];
        proof {
            assert(hunk@ == hunks[k as int]);
        }
        let lh = lines_height_x(hunk, fr);
        if rem3 <= lh {
            let mut rem4: usize = rem3 - 1;
            proof {
                assert(target == hunk_line_rows(fi as int, lcs, lines, 0)[rem4 as int]);
            }
            let mut l: usize = 0;
            while l < hunk.lines.len()
                invariant
                    0 <= l <= lines.len(),
                    f == file@,
                    rv == fr@,
                    lcs == rv.line_comments,
                    0 <= k < hunks.len(),
                    hunks == f.hunks,
                    hunk@ == hunks[k as int],
                    lines == hunks[k as int].lines,
                    lines.len() == hunk.lines@.len(),
                    (rem4 as int) < lines_height(lcs, lines, l as int),
                    lines_height(lcs, lines, l as int) <= usize::MAX as int,
                    target == hunk_line_rows(fi as int, lcs, lines, l as int)[rem4 as int],
                    target == file_rows(fi as int, f, rv)[q as int],
                decreases lines.len() - l,
            {
                let ghost dlv = lines[l as int];
                let ghost orows = match dlv.old_lineno {
                    Some(o) => line_comment_rows(
                        fi as int,
                        o,
                        LineSide::Old,
                        comments_at(lcs, o),
                        0,
                        0,
                    ),
                    None => Seq::<Location>::empty(),
                };
                let ghost nrows = match dlv.new_lineno {
                    Some(n) => line_comment_rows(
                        fi as int,
                        n,
                        LineSide::New,
                        comments_at(lcs, n),
                        0,
                        0,
                    ),
                    None => Seq::<Location>::empty(),
                };
                proof {
                    assert(hunk.lines@[l as int]@ == dlv);
                    assert(lines_height(lcs, lines, l as int) == 1 + line_extra_height(lcs, dlv)
                        + lines_height(lcs, lines, l + 1));
                    lemma_diff_line_rows_len(fi as int, lcs, dlv);
                    lemma_hunk_line_rows_len(fi as int, lcs, lines, l + 1);
                    lemma_lines_height_nonneg(lcs, lines, l + 1);
                    if dlv.old_lineno is Some {
                        lemma_line_comment_rows_len(
                            fi as int,
                            dlv.old_lineno.unwrap(),
                            LineSide::Old,
                            comments_at(lcs, dlv.old_lineno.unwrap()),
                            0,
                            0,
                        );
                    }
                    if dlv.new_lineno is Some {
                        lemma_line_comment_rows_len(
                            fi as int,
                            dlv.new_lineno.unwrap(),
                            LineSide::New,
                            comments_at(lcs, dlv.new_lineno.unwrap()),
                            0,
                            0,
                        );
                    }
                    lemma_side_comments_height_nonneg(
                        comments_at(
                            lcs,
                            match dlv.old_lineno {
                                Some(o) => o,
                                None => 0,
                            },
                        ),
                        LineSide::Old,
                        0,
                    );
                    lemma_side_comments_height_nonneg(
                        comments_at(
                            lcs,
                            match dlv.new_lineno {
                                Some(n) => n,
                                None => 0,
                            },
                        ),
                        LineSide::New,
                        0,
                    );
                    assert(diff_line_rows(fi as int, lcs, dlv) == (seq![
                        Location::DiffLine {
                            file: fi,
                            old_lineno: dlv.old_lineno,
                            new_lineno: dlv.new_lineno,
                        },
                    ] + orows) + nrows);
                    assert(hunk_line_rows(fi as int, lcs, lines, l as int) == diff_line_rows(
                        fi as int,
                        lcs,
                        dlv,
                    ) + hunk_line_rows(fi as int, lcs, lines, l + 1));
                }
                if rem4 == 0 {
                    let old_ln = hunk.lines[l].old_lineno;
                    let new_ln = hunk.lines[l].new_lineno;
                    proof {
                        assert(hunk_line_rows(fi as int, lcs, lines, l as int)[0]
                            == Location::DiffLine {
                            file: fi,
                            old_lineno: dlv.old_lineno,
                            new_lineno: dlv.new_lineno,
                        });
                    }
                    return Location::DiffLine { file: fi, old_lineno: old_ln, new_lineno: new_ln };
                }
                let mut rem5: usize = rem4 - 1;
                let oh = match hunk.lines[l].old_lineno {
                    Some(o) => side_height_at(fr, o, LineSide::Old),
                    None => 0,
                };
                if rem5 < oh {
                    let o = match hunk.lines[l].old_lineno {
                        Some(o) => o,
                        None => {
                            proof {
                                assert(false);
                            }
                            0
                        },
                    };
                    proof {
                        assert(target == orows[rem5 as int]);
                    }
                    match ReviewSession::find_line_entry(&fr.line_comments, o) {
                        Some(e) => {
                            proof {
                                assert(comments_at(lcs, o) == lcs[e as int].1);
                                assert(fr.line_comments@[e as int].1.deep_view() == lcs[
                                    e as int].1);
                            }
                            return locate_in_side_comments(
                                &fr.line_comments[e].1,
                                fi,
                                o,
                                LineSide::Old,
                                rem5,
                            );
                        },
                        None => {
                            proof {
                                assert(comments_at(lcs, o) =~= Seq::<CommentView>::empty());
                                assert(false);
                            }
                        },
                    }
                }
                rem5 -= oh;
                let nh = match hunk.lines[l].new_lineno {
                    Some(n) => side_height_at(fr, n, LineSide::New),
                    None => 0,
                };
                if rem5 < nh {
                    let n = match hunk.lines[l].new_lineno {
                        Some(n) => n,
                        None => {
                            proof {
                                assert(false);
                            }
                            0
                        },
                    };
                    proof {
                        assert(target == nrows[rem5 as int]);
                    }
                    match ReviewSession::find_line_entry(&fr.line_comments, n) {
                        Some(e) => {
                            proof {
                                assert(comments_at(lcs, n) == lcs[e as int].1);
                                assert(fr.line_comments@[e as int].1.deep_view() == lcs[
                                    e as int].1);
                            }
                            return locate_in_side_comments(
                                &fr.line_comments[e].1,
                                fi,
                                n,
                                LineSide::New,
                                rem5,
                            );
                        },
                        None => {
                            proof {
                                assert(comments_at(lcs, n) =~= Seq::<CommentView>::empty());
                                assert(false);
                            }
                        },
                    }
                }
                rem4 = rem5 - nh;
                l += 1;
            }
            proof {
                assert(false);
            }
            return Location::FileHeader { file: fi };
        }
        rem3 = rem3 - 1 - lh;
        k += 1;
    }
    proof {
        assert(false);
    }
    Location::FileHeader { file: fi }
}

/// Resolve a flattened cursor position to the semantic entity whose span
/// contains it: the walk accumulates exact heights in file, comment, hunk
/// and line order, collapsing reviewed files to their header line without
/// descending into them. Returns `None` exactly when the position lies at
/// or beyond the end of the flattened space: callers clamp before calling.
pub fn locate(files: &Vec<DiffFile>, session: &ReviewSession, pos: usize) -> (r: Option<Location>)
    requires
        fits(files.deep_view(), session@),
    ensures
        ({
            let rws = rows(files.deep_view(), session@);
            &&& (pos as int) < rws.len() ==> r == Some(rws[pos as int])
            &&& (pos as int) >= rws.len() ==> r is None
        }),
{
    let ghost fv = files.deep_view();
    let ghost sv = session@;
    let total = total_lines(files, session);
    proof {
        lemma_rows_from_len(fv, sv, 0);
    }
    if pos >= total {
        return None;
    }
    let mut rem: usize = pos;
    let mut i: usize = 0;
    while i < files.len()
        invariant
            0 <= i <= fv.len(),
            fv == files.deep_view(),
            sv == session@,
            fv.len() == files@.len(),
            fits(fv, sv),
            (pos as int) < total_height(fv, sv),
            rem as int == pos - offset_of(fv, sv, i as int),
            (rem as int) < heights_from(fv, sv, i as int),
            rows(fv, sv)[pos as int] == rows_from(fv, sv, i as int)[rem as int],
        decreases fv.len() - i,
    {
        let ghost rvi = review_for(sv, fv[i as int].path);
        proof {
            assert(files@[i as int]@ == fv[i as int]);
            lemma_file_span_in_total(fv, sv, i as int);
            lemma_heights_from_nonneg(fv, sv, 0);
            lemma_heights_from_nonneg(fv, sv, i as int + 1);
            lemma_heights_from_unfold(fv, sv, i as int);
            lemma_file_rows_len(i as int, fv[i as int], rvi);
            lemma_rows_from_len(fv, sv, i as int + 1);
            lemma_rows_from_len(fv, sv, 0);
        }
        let h = file_render_height(&files[i], session);
        if rem < h {
            proof {
                assert(rows_from(fv, sv, i as int)[rem as int] == file_rows(
                    i as int,
                    fv[i as int],
                    rvi,
                )[rem as int]);
            }
            let path = files[i].display_path();
            match session.get_file(path) {
                Some(fr) => {
                    proof {
                        assert(fr@ == rvi);
                    }
                    return Some(locate_in_file(&files[i], fr, i, rem));
                },
                None => {
                    let empty = FileReview::new();
                    proof {
                        assert(empty@ == rvi);
                    }
                    return Some(locate_in_file(&files[i], &empty, i, rem));
                },
            }
        }
        rem -= h;
        i += 1;
    }
    proof {
        assert(false);
    }
    None
}

/// The file index a location belongs to.
pub open spec fn loc_file(l: Location) -> int {
    match l {
        Location::FileHeader { file } => file as int,
        Location::FileComment { file, .. } => file as int,
        Location::Placeholder { file } => file as int,
        Location::HunkHeader { file, .. } => file as int,
        Location::DiffLine { file, .. } => file as int,
        Location::LineComment { file, .. } => file as int,
        Location::Spacing { file } => file as int,
    }
}

pub proof fn lemma_fc_rows_owner(fi: int, cs: Seq<CommentView>, j: int)
    requires
        0 <= fi <= usize::MAX as int,
    ensures
        forall|x: int|
            0 <= x < file_comment_rows(fi, cs, j).len() ==> loc_file(
                #[trigger] file_comment_rows(fi, cs, j)[x],
            ) == fi,
    decreases cs.len() - j,
{
    if 0 <= j < cs.len() {
        lemma_fc_rows_owner(fi, cs, j + 1);
        let blk = Seq::new(
            comment_height(cs[j]) as nat,
            |x: int| Location::FileComment { file: fi as usize, comment: j as usize },
        );
        let whole = file_comment_rows(fi, cs, j);
        assert forall|x: int| 0 <= x < whole.len() implies loc_file(#[trigger] whole[x]) == fi by {
            if x < blk.len() {
                assert(whole[x] == blk[x]);
            } else {
                assert(whole[x] == file_comment_rows(fi, cs, j + 1)[x - blk.len()]);
            }
        }
    }
}

pub proof fn lemma_lc_rows_owner(
    fi: int,
    ln: u32,
    side: LineSide,
    cs: Seq<CommentView>,
    j: int,
    sidx: int,
)
    requires
        0 <= fi <= usize::MAX as int,
    ensures
        forall|x: int|
            0 <= x < line_comment_rows(fi, ln, side, cs, j, sidx).len() ==> loc_file(
                #[trigger] line_comment_rows(fi, ln, side, cs, j, sidx)[x],
            ) == fi,
    decreases cs.len() - j,
{
    if 0 <= j < cs.len() {
        let whole = line_comment_rows(fi, ln, side, cs, j, sidx);
        if effective_side(cs[j]) == side {
            lemma_lc_rows_owner(fi, ln, side, cs, j + 1, sidx + 1);
            let blk = Seq::new(
                comment_height(cs[j]) as nat,
                |x: int| Location::LineComment {
                    file: fi as usize,
                    line: ln,
                    side,
                    comment: sidx as usize,
                },
            );
            assert forall|x: int| 0 <= x < whole.len() implies loc_file(#[trigger] whole[x])
                == fi by {
                if x < blk.len() {
                    assert(whole[x] == blk[x]);
                } else {
                    assert(whole[x] == line_comment_rows(fi, ln, side, cs, j + 1, sidx + 1)[x
                        - blk.len()]);
                }
            }
        } else {
            lemma_lc_rows_owner(fi, ln, side, cs, j + 1, sidx);
            assert forall|x: int| 0 <= x < whole.len() implies loc_file(#[trigger] whole[x])
                == fi by {
                assert(whole[x] == line_comment_rows(fi, ln, side, cs, j + 1, sidx)[x]);
            }
        }
    }
}

pub proof fn lemma_hunk_line_rows_owner(
    fi: int,
    lcs: Seq<(u32, Seq<CommentView>)>,
    lines: Seq<DiffLineView>,
    l: int,
)
    requires
        0 <= fi <= usize::MAX as int,
    ensures
        forall|x: int|
            0 <= x < hunk_line_rows(fi, lcs, lines, l).len() ==> loc_file(
                #[trigger] hunk_line_rows(fi, lcs, lines, l)[x],
            ) == fi,
    decreases lines.len() - l,
{
    if 0 <= l < lines.len() {
        let dlv = lines[l];
        let orows = match dlv.old_lineno {
            Some(o) => line_comment_rows(fi, o, LineSide::Old, comments_at(lcs, o), 0, 0),
            None => Seq::<Location>::empty(),
        };
        let nrows = match dlv.new_lineno {
            Some(n) => line_comment_rows(fi, n, LineSide::New, comments_at(lcs, n), 0, 0),
            None => Seq::<Location>::empty(),
        };
        match dlv.old_lineno {
            Some(o) => lemma_lc_rows_owner(fi, o, LineSide::Old, comments_at(lcs, o), 0, 0),
            None => (),
        }
        match dlv.new_lineno {
            Some(n) => lemma_lc_rows_owner(fi, n, LineSide::New, comments_at(lcs, n), 0, 0),
            None => (),
        }
        lemma_hunk_line_rows_owner(fi, lcs, lines, l + 1);
        let dlr = diff_line_rows(fi, lcs, dlv);
        assert(dlr == (seq![
            Location::DiffLine { file: fi as usize, old_lineno: dlv.old_lineno, new_lineno: dlv.new_lineno },
        ] + orows) + nrows);
        assert forall|x: int| 0 <= x < dlr.len() implies loc_file(#[trigger] dlr[x]) == fi by {
            if x == 0 {
                assert(dlr[0] == Location::DiffLine {
                    file: fi as usize,
                    old_lineno: dlv.old_lineno,
                    new_lineno: dlv.new_lineno,
                });
            } else if x < 1 + orows.len() {
                assert(dlr[x] == orows[x - 1]);
            } else {
                assert(dlr[x] == nrows[x - 1 - orows.len()]);
            }
        }
        let whole = hunk_line_rows(fi, lcs, lines, l);
        assert forall|x: int| 0 <= x < whole.len() implies loc_file(#[trigger] whole[x]) == fi by {
            if x < dlr.len() {
                assert(whole[x] == dlr[x]);
            } else {
                assert(whole[x] == hunk_line_rows(fi, lcs, lines, l + 1)[x - dlr.len()]);
            }
        }
    }
}

pub proof fn lemma_hunks_rows_owner(
    fi: int,
    lcs: Seq<(u32, Seq<CommentView>)>,
    hunks: Seq<HunkView>,
    k: int,
)
    requires
        0 <= fi <= usize::MAX as int,
    ensures
        forall|x: int|
            0 <= x < hunks_rows(fi, lcs, hunks, k).len() ==> loc_file(
                #[trigger] hunks_rows(fi, lcs, hunks, k)[x],
            ) == fi,
    decreases hunks.len() - k,
{
    if 0 <= k < hunks.len() {
        lemma_hunk_line_rows_owner(fi, lcs, hunks[k].lines, 0);
        lemma_hunks_rows_owner(fi, lcs, hunks, k + 1);
        let head = seq![Location::HunkHeader { file: fi as usize, hunk: k as usize }]
            + hunk_line_rows(fi, lcs, hunks[k].lines, 0);
        let whole = hunks_rows(fi, lcs, hunks, k);
        assert forall|x: int| 0 <= x < whole.len() implies loc_file(#[trigger] whole[x]) == fi by {
            if x < head.len() {
                assert(whole[x] == head[x]);
                if x > 0 {
                    assert(head[x] == hunk_line_rows(fi, lcs, hunks[k].lines, 0)[x - 1]);
                }
            } else {
                assert(whole[x] == hunks_rows(fi, lcs, hunks, k + 1)[x - head.len()]);
            }
        }
    }
}

/// Every row of one file's span names that file.
pub proof fn lemma_file_rows_owner(fi: int, f: DiffFileView, rv: FileReviewView)
    requires
        0 <= fi <= usize::MAX as int,
    ensures
        forall|x: int|
            0 <= x < file_rows(fi, f, rv).len() ==> loc_file(#[trigger] file_rows(fi, f, rv)[x])
                == fi,
{
    lemma_fc_rows_owner(fi, rv.file_comments, 0);
    if !(f.is_binary || f.hunks.len() == 0) {
        lemma_hunks_rows_owner(fi, rv.line_comments, f.hunks, 0);
    }
    let whole = file_rows(fi, f, rv);
    let tail = if rv.reviewed {
        Seq::<Location>::empty()
    } else {
        file_comment_rows(fi, rv.file_comments, 0) + file_body_rows(fi, f, rv.line_comments)
            + seq![Location::Spacing { file: fi as usize }]
    };
    assert forall|x: int| 0 <= x < whole.len() implies loc_file(#[trigger] whole[x]) == fi by {
        if x == 0 {
            assert(whole[0] == Location::FileHeader { file: fi as usize });
        } else {
            assert(whole[x] == tail[x - 1]);
            let fcr = file_comment_rows(fi, rv.file_comments, 0);
            let br = file_body_rows(fi, f, rv.line_comments);
            if x - 1 < fcr.len() {
                assert(tail[x - 1] == fcr[x - 1]);
            } else if x - 1 < fcr.len() + br.len() {
                assert(tail[x - 1] == br[x - 1 - fcr.len()]);
                if f.is_binary || f.hunks.len() == 0 {
                    assert(br[x - 1 - fcr.len()] == Location::Placeholder { file: fi as usize });
                }
            } else {
                assert(tail[x - 1] == Location::Spacing { file: fi as usize });
            }
        }
    }
}

/// Every row of the flattened space names a file of the snapshot.
pub proof fn lemma_rows_owner(files: Seq<DiffFileView>, sv: SessionView, i: int)
    requires
        0 <= i,
        files.len() <= usize::MAX as int,
    ensures
        forall|x: int|
            0 <= x < rows_from(files, sv, i).len() ==> i <= loc_file(
                #[trigger] rows_from(files, sv, i)[x],
            ) < files.len(),
    decreases files.len() - i,
{
    if 0 <= i < files.len() {
        lemma_file_rows_owner(i, files[i], review_for(sv, files[i].path));
        lemma_rows_owner(files, sv, i + 1);
        let fr = file_rows(i, files[i], review_for(sv, files[i].path));
        let whole = rows_from(files, sv, i);
        assert forall|x: int| 0 <= x < whole.len() implies i <= loc_file(#[trigger] whole[x])
            < files.len() by {
            if x < fr.len() {
                assert(whole[x] == fr[x]);
            } else {
                assert(whole[x] == rows_from(files, sv, i + 1)[x - fr.len()]);
            }
        }
    }
}

/// A height cut off at the machine bound.
pub open spec fn clip(h: int) -> int {
    if h <= usize::MAX as int {
        h
    } else {
        usize::MAX as int
    }
}

/// Addition cut off at the machine bound.
fn sat_add(a: usize, b: usize) -> (r: usize)
    ensures
        r as int == clip(a + b),
{
    if a <= usize::MAX - b {
        a + b
    } else {
        usize::MAX
    }
}

/// Total height of a comment list, cut off at the machine bound.
fn comments_height_clipped(cs: &Vec<Comment>) -> (r: usize)
    ensures
        r as int == clip(comments_height(cs.deep_view(), 0)),
{
    let ghost csv = cs.deep_view();
    proof {
        lemma_comments_height_nonneg(csv, 0);
    }
    let mut acc: usize = 0;
    let mut j: usize = 0;
    while j < cs.len()
        invariant
            0 <= j <= csv.len(),
            csv == cs.deep_view(),
            csv.len() == cs@.len(),
            0 <= comments_height(csv, j as int) <= comments_height(csv, 0),
            acc as int == clip(comments_height(csv, 0) - comments_height(csv, j as int)),
        decreases csv.len() - j,
    {
        proof {
            assert(csv[j as int] == cs@[j as int]@);
            assert(comments_height(csv, j as int) == comment_height(csv[j as int])
                + comments_height(csv, j + 1));
            lemma_comments_height_nonneg(csv, j + 1);
        }
        let h = comment_display_lines(&cs[j]);
        acc = sat_add(acc, h);
        j += 1;
    }
    acc
}

/// Total height of the blocks of one side of a comment list, cut off at
/// the machine bound.
fn side_comments_height_clipped(cs: &Vec<Comment>, side: LineSide) -> (r: usize)
    ensures
        r as int == clip(side_comments_height(cs.deep_view(), side, 0)),
{
    let ghost csv = cs.deep_view();
    proof {
        lemma_side_comments_height_nonneg(csv, side, 0);
    }
    let mut acc: usize = 0;
    let mut j: usize = 0;
    while j < cs.len()
        invariant
            0 <= j <= csv.len(),
            csv == cs.deep_view(),
            csv.len() == cs@.len(),
            0 <= side_comments_height(csv, side, j as int) <= side_comments_height(csv, side, 0),
            acc as int == clip(
                side_comments_height(csv, side, 0) - side_comments_height(csv, side, j as int),
            ),
        decreases csv.len() - j,
    {
        proof {
            assert(csv[j as int] == cs@[j as int]@);
            assert(side_comments_height(csv, side, j as int) == (if effective_side(csv[j as int])
                == side {
                comment_height(csv[j as int])
            } else {
                0
            }) + side_comments_height(csv, side, j + 1));
            lemma_side_comments_height_nonneg(csv, side, j + 1);
        }
        let es = match cs[j].side {
            Some(LineSide::Old) => LineSide::Old,
            _ => LineSide::New,
        };
        if es == side {
            let h = comment_display_lines(&cs[j]);
            acc = sat_add(acc, h);
        }
        j += 1;
    }
    acc
}

/// Height of the comment blocks of one side of one line, cut off at the
/// machine bound.
fn side_height_at_clipped(fr: &FileReview, ln: u32, side: LineSide) -> (r: usize)
    ensures
        r as int == clip(side_comments_height(comments_at(fr@.line_comments, ln), side, 0)),
{
    match ReviewSession::find_line_entry(&fr.line_comments, ln) {
        Some(k) => {
            proof {
                assert(comments_at(fr@.line_comments, ln) == fr@.line_comments[k as int].1);
                assert(fr.line_comments@[k as int].1.deep_view() == fr@.line_comments[k as int].1);
            }
            side_comments_height_clipped(&fr.line_comments[k].1, side)
        },
        None => {
            proof {
                assert(comments_at(fr@.line_comments, ln) =~= Seq::<CommentView>::empty());
            }
            0
        },
    }
}

/// Body height of a file, cut off at the machine bound.
fn body_height_clipped(file: &DiffFile, fr: &FileReview) -> (r: usize)
    ensures
        r as int == clip(body_height(file@, fr@.line_comments)),
{
    if file.is_binary || file.hunks.len() == 0 {
        return 1;
    }
    let ghost lcs = fr@.line_comments;
    let ghost hunks = file@.hunks;
    proof {
        lemma_hunks_height_nonneg(lcs, hunks, 0);
    }
    let mut acc: usize = 0;
    let mut k: usize = 0;
    while k < file.hunks.len()
        invariant
            0 <= k <= hunks.len(),
            hunks == file@.hunks,
            lcs == fr@.line_comments,
            hunks.len() == file.hunks@.len(),
            0 <= hunks_height(lcs, hunks, k as int) <= hunks_height(lcs, hunks, 0),
            acc as int == clip(hunks_height(lcs, hunks, 0) - hunks_height(lcs, hunks, k as int)),
        decreases hunks.len() - k,
    {
        let ghost lines = hunks[k as int].lines;
        proof {
            assert(hunks_height(lcs, hunks, k as int) == 1 + lines_height(lcs, lines, 0)
                + hunks_height(lcs, hunks, k + 1));
            lemma_hunks_height_nonneg(lcs, hunks, k + 1);
            lemma_lines_height_nonneg(lcs, lines, 0);
        }
        let hunk = &file.hunks[k];
        let mut lacc: usize = 0;
        let mut l: usize = 0;
        while l < hunk.lines.len()
            invariant
                0 <= l <= lines.len(),
                lcs == fr@.line_comments,
                0 <= k < hunks.len(),
                hunks == file@.hunks,
                hunk@ == hunks[k as int],
                lines == hunks[k as int].lines,
                lines.len() == hunk.lines@.len(),
                0 <= lines_height(lcs, lines, l as int) <= lines_height(lcs, lines, 0),
                lacc as int == clip(
                    lines_height(lcs, lines, 0) - lines_height(lcs, lines, l as int),
                ),
            decreases lines.len() - l,
        {
            let ghost dlv = lines[l as int];
            proof {
                assert(hunk.lines@[l as int]@ == dlv);
                assert(lines_height(lcs, lines, l as int) == 1 + line_extra_height(lcs, dlv)
                    + lines_height(lcs, lines, l + 1));
                lemma_lines_height_nonneg(lcs, lines, l + 1);
                lemma_side_comments_height_nonneg(
                    comments_at(
                        lcs,
                        match dlv.old_lineno {
                            Some(o) => o,
                            None => 0,
                        },
                    ),
                    LineSide::Old,
                    0,
                );
                lemma_side_comments_height_nonneg(
                    comments_at(
                        lcs,
                        match dlv.new_lineno {
                            Some(n) => n,
                            None => 0,
                        },
                    ),
                    LineSide::New,
                    0,
                );
            }
            let dl = &hunk.lines[l];
            let oh = match dl.old_lineno {
                Some(o) => side_height_at_clipped(fr, o, LineSide::Old),
                None => 0,
            };
            let nh = match dl.new_lineno {
                Some(n) => side_height_at_clipped(fr, n, LineSide::New),
                None => 0,
            };
            let step = sat_add(1, sat_add(oh, nh));
            lacc = sat_add(lacc, step);
            l += 1;
        }
        acc = sat_add(acc, sat_add(1, lacc));
        k += 1;
    }
    acc
}

/// Expanded height of one file (as if it were not collapsed), cut off at
/// the machine bound.
fn file_expanded_clipped(file: &DiffFile, session: &ReviewSession) -> (r: usize)
    ensures
        ({
            let rv = review_for(session@, file@.path);
            r as int == clip(file_height_expanded(file@, rv.file_comments, rv.line_comments))
        }),
{
    let path = file.display_path();
    let empty = FileReview::new();
    match session.get_file(path) {
        Some(fr) => {
            proof {
                lemma_comments_height_nonneg(fr@.file_comments, 0);
                lemma_hunks_height_nonneg(fr@.line_comments, file@.hunks, 0);
            }
            let ch = comments_height_clipped(&fr.file_comments);
            let bh = body_height_clipped(file, fr);
            sat_add(2, sat_add(ch, bh))
        },
        None => {
            proof {
                assert(comments_height(Seq::<CommentView>::empty(), 0) == 0);
                lemma_hunks_height_nonneg(empty@.line_comments, file@.hunks, 0);
            }
            let bh = body_height_clipped(file, &empty);
            sat_add(2, bh)
        },
    }
}

/// The expanded total of the whole snapshot, cut off at the machine bound.
/// The snapshot and session fit the machine exactly when the result is
/// below `usize::MAX`.
pub fn expanded_total_clipped(files: &Vec<DiffFile>, session: &ReviewSession) -> (r: usize)
    ensures
        r as int == clip(heights_expanded_from(files.deep_view(), session@, 0)),
        (r < usize::MAX) == fits(files.deep_view(), session@),
{
    let ghost fv = files.deep_view();
    let ghost sv = session@;
    proof {
        lemma_heights_from_nonneg(fv, sv, 0);
    }
    let mut acc: usize = 0;
    let mut i: usize = 0;
    while i < files.len()
        invariant
            0 <= i <= fv.len(),
            fv == files.deep_view(),
            sv == session@,
            fv.len() == files@.len(),
            0 <= heights_expanded_from(fv, sv, i as int) <= heights_expanded_from(fv, sv, 0),
            acc as int == clip(
                heights_expanded_from(fv, sv, 0) - heights_expanded_from(fv, sv, i as int),
            ),
        decreases fv.len() - i,
    {
        let ghost rv = review_for(sv, fv[i as int].path);
        proof {
            assert(files@[i as int]@ == fv[i as int]);
            assert(heights_expanded_from(fv, sv, i as int) == file_height_expanded(
                fv[i as int],
                rv.file_comments,
                rv.line_comments,
            ) + heights_expanded_from(fv, sv, i as int + 1));
            lemma_heights_from_nonneg(fv, sv, i as int + 1);
            lemma_file_height_bounds(fv[i as int], rv);
        }
        let h = file_expanded_clipped(&files[i], session);
        acc = sat_add(acc, h);
        i += 1;
    }
    acc
}

/// Whether the snapshot's display paths are pairwise distinct.
pub open spec fn distinct_paths(files: Seq<DiffFileView>) -> bool {
    forall|a: int, b: int|
        0 <= a < b < files.len() ==> (#[trigger] files[a].path) != (#[trigger] files[b].path)
}

/// Check that the snapshot's display paths are pairwise distinct.
pub fn distinct_paths_x(files: &Vec<DiffFile>) -> (r: bool)
    ensures
        r == distinct_paths(files.deep_view()),
{
    let ghost fv = files.deep_view();
    let mut i: usize = 0;
    while i < files.len()
        invariant
            0 <= i <= fv.len(),
            fv == files.deep_view(),
            fv.len() == files@.len(),
            forall|a: int, b: int|
                0 <= a < b < fv.len() && a < i ==> (#[trigger] fv[a].path) != (
                #[trigger] fv[b].path),
        decreases fv.len() - i,
    {
        let mut j: usize = i + 1;
        while j < files.len()
            invariant
                0 <= i < j <= fv.len(),
                fv == files.deep_view(),
                fv.len() == files@.len(),
                forall|b: int| i < b < j ==> (#[trigger] fv[b].path) != fv[i as int].path,
            decreases fv.len() - j,
        {
            if files[i].path == files[j].path {
                proof {
                    assert(fv[i as int].path == files@[i as int].path@);
                    assert(fv[j as int].path == files@[j as int].path@);
                }
                return false;
            }
            proof {
                assert(fv[j as int].path == files@[j as int].path@);
                assert(fv[i as int].path == files@[i as int].path@);
            }
            j += 1;
        }
        i += 1;
    }
    true
}

} // verus!
