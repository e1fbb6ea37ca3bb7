//! Global laws of the engine, stated over the mathematical model and
//! proved once: how the flattened space partitions into file spans, how it
//! responds to collapsing a file, and which operation pairs are exact
//! round trips.

use vstd::prelude::*;

use crate::app::{cursor_after_down, cursor_after_up, file_index_at, visible_scroll};
use crate::index::{comment_height, distinct_paths, file_anchors, file_height, heights_from, lemma_expanded_height_delta,
    lemma_heights_from_nonneg, lemma_heights_one_path_delta, lemma_offset_plus_suffix,
    lemma_side_height_push, lemma_snap_index_from, offset_of, review_for,
    side_comments_height, snap_index, total_height};
use crate::model::{CommentView, DiffFileView, LineSide};
use crate::session::{SessionView, comments_at, effective_side, flip_reviewed,
    lemma_add_then_delete_line, lemma_comments_at_with_line, lemma_path_index_from,
    lemma_with_review_lookup, line_comment_found, path_index, side_count, with_line_comment,
    with_review, without_line_comment, FileReviewView};

verus! {

/// The total line count is the sum of the files' exact render heights: the
/// heights of the files before any position `i` and the heights from `i`
/// on partition the total, and each file adds exactly its own height.
pub proof fn law_total_is_sum_of_heights(files: Seq<DiffFileView>, sv: SessionView, i: int)
    requires
        0 <= i <= files.len(),
    ensures
        offset_of(files, sv, i) + heights_from(files, sv, i) == total_height(files, sv),
        i < files.len() ==> offset_of(files, sv, i + 1) == offset_of(files, sv, i) + file_height(
            files[i],
            review_for(sv, files[i].path),
        ),
{
    lemma_offset_plus_suffix(files, sv, i);
}

/// Collapsing any single file to reviewed reduces the total by exactly its
/// old height minus the one header line that remains, and no other file's
/// height changes.
pub proof fn law_collapse_single_file(files: Seq<DiffFileView>, sv: SessionView, p: Seq<char>)
    requires
        sv.wf(),
        distinct_paths(files),
        sv.contains_path(p),
        0 <= snap_index(files, p),
        !review_for(sv, p).reviewed,
    ensures
        ({
            let pi = path_index(sv.files, p);
            let sv2 = with_review(sv, pi, flip_reviewed(sv.files[pi].1));
            let j = snap_index(files, p);
            &&& total_height(files, sv2) == total_height(files, sv) - (file_height(
                files[j],
                review_for(sv, p),
            ) - 1)
            &&& forall|i: int|
                0 <= i < files.len() && i != j ==> file_height(
                    #[trigger] files[i],
                    review_for(sv2, files[i].path),
                ) == file_height(files[i], review_for(sv, files[i].path))
        }),
{
    let pi = path_index(sv.files, p);
    lemma_path_index_from(sv.files, p, 0);
    let rv = sv.files[pi].1;
    let sv2 = with_review(sv, pi, flip_reviewed(rv));
    assert forall|q: Seq<char>| q != p implies #[trigger] review_for(sv2, q) == review_for(
        sv,
        q,
    ) by {
        lemma_with_review_lookup(sv, pi, flip_reviewed(rv), q);
    }
    lemma_with_review_lookup(sv, pi, flip_reviewed(rv), p);
    lemma_heights_one_path_delta(files, sv, sv2, p, 0);
    let j = snap_index(files, p);
    lemma_snap_index_from(files, p, 0);
    assert(file_height(files[j], review_for(sv2, p)) == 1);
    assert forall|i: int| 0 <= i < files.len() && i != j implies file_height(
        #[trigger] files[i],
        review_for(sv2, files[i].path),
    ) == file_height(files[i], review_for(sv, files[i].path)) by {
        if files[i].path == p {
            if i < j {
                assert(files[i].path != files[j].path);
            } else {
                assert(files[j].path != files[i].path);
            }
        }
    }
}

/// Toggling a file's reviewed flag twice restores the session — and with
/// it every render height — exactly.
pub proof fn law_toggle_reviewed_twice(sv: SessionView, p: Seq<char>)
    requires
        sv.wf(),
        sv.contains_path(p),
    ensures
        ({
            let pi = path_index(sv.files, p);
            let sv2 = with_review(sv, pi, flip_reviewed(sv.files[pi].1));
            let pi2 = path_index(sv2.files, p);
            &&& pi2 == pi
            &&& with_review(sv2, pi2, flip_reviewed(sv2.files[pi2].1)) == sv
        }),
{
    let pi = path_index(sv.files, p);
    lemma_path_index_from(sv.files, p, 0);
    let rv = sv.files[pi].1;
    let sv2 = with_review(sv, pi, flip_reviewed(rv));
    lemma_with_review_lookup(sv, pi, flip_reviewed(rv), p);
    assert(sv2.files[pi].1 == flip_reviewed(rv));
    assert(flip_reviewed(flip_reviewed(rv)) == rv);
    let sv3 = with_review(sv2, pi, flip_reviewed(sv2.files[pi].1));
    assert(sv3.files =~~= sv.files);
    assert(sv3 =~~= sv);
}

/// Moving the cursor down and then up by the same distance returns it to
/// its start, as long as the downward move was not clamped at the end of
/// the flattened space.
pub proof fn law_cursor_round_trip_down_up(c: int, n: int, total: int)
    requires
        0 <= c,
        0 <= n,
        c + n <= total - 1,
    ensures
        cursor_after_up(cursor_after_down(c, n, total), n) == c,
{
}

/// Moving the cursor up and then down by the same distance returns it to
/// its start, as long as the upward move was not clamped at the start and
/// the cursor was inside the flattened space.
pub proof fn law_cursor_round_trip_up_down(c: int, n: int, total: int)
    requires
        0 <= n <= c,
        c <= total - 1,
    ensures
        cursor_after_down(cursor_after_up(c, n), n, total) == c,
{
}

/// A freshly added line comment becomes the last comment of its side at
/// its line: it is found there under exactly that side-filtered index, and
/// deleting it at that index restores the record exactly.
pub proof fn law_line_comment_round_trip(rv: FileReviewView, ln: u32, c: CommentView)
    requires
        rv.wf(),
        c.side is Some,
    ensures
        ({
            let side = effective_side(c);
            let n = side_count(comments_at(rv.line_comments, ln), side, 0) as int;
            &&& line_comment_found(with_line_comment(rv, ln, c), ln, side, n)
            &&& without_line_comment(with_line_comment(rv, ln, c), ln, side, n) == rv
        }),
{
    lemma_add_then_delete_line(rv, ln, c);
}

/// Adding one line comment grows the total line count by exactly the
/// comment block's display height, once per diff line of the anchoring
/// file that displays the anchor — so by exactly the block's height when
/// the anchor stands on one diff line, and not at all when the file shows
/// no such line.
pub proof fn law_line_comment_growth(
    files: Seq<DiffFileView>,
    sv: SessionView,
    p: Seq<char>,
    ln: u32,
    c: CommentView,
)
    requires
        sv.wf(),
        distinct_paths(files),
        sv.contains_path(p),
        0 <= snap_index(files, p),
        !review_for(sv, p).reviewed,
        c.side is Some,
    ensures
        ({
            let pi = path_index(sv.files, p);
            let sv2 = with_review(sv, pi, with_line_comment(sv.files[pi].1, ln, c));
            let j = snap_index(files, p);
            total_height(files, sv2) == total_height(files, sv) + comment_height(c)
                * file_anchors(files[j], ln, effective_side(c))
        }),
{
    let pi = path_index(sv.files, p);
    lemma_path_index_from(sv.files, p, 0);
    let rv = sv.files[pi].1;
    let rv2 = with_line_comment(rv, ln, c);
    let sv2 = with_review(sv, pi, rv2);
    let side = effective_side(c);
    let h = comment_height(c);
    assert forall|q: Seq<char>| q != p implies #[trigger] review_for(sv2, q) == review_for(
        sv,
        q,
    ) by {
        lemma_with_review_lookup(sv, pi, rv2, q);
    }
    lemma_with_review_lookup(sv, pi, rv2, p);
    assert(rv.wf());
    assert forall|q: u32, sd: LineSide|
        #[trigger] side_comments_height(comments_at(rv2.line_comments, q), sd, 0)
            == side_comments_height(comments_at(rv.line_comments, q), sd, 0) + (if q == ln && sd
            == side {
            h
        } else {
            0
        }) by {
        lemma_comments_at_with_line(rv, ln, c, q);
        if q == ln {
            lemma_side_height_push(comments_at(rv.line_comments, ln), c, sd, 0);
        }
    }
    let j = snap_index(files, p);
    lemma_snap_index_from(files, p, 0);
    lemma_expanded_height_delta(
        files[j],
        rv.file_comments,
        rv.line_comments,
        rv2.line_comments,
        ln,
        side,
        h,
    );
    assert(file_height(files[j], rv2) == file_height(files[j], rv) + h * file_anchors(
        files[j],
        ln,
        side,
    ));
    lemma_heights_one_path_delta(files, sv, sv2, p, 0);
}

/// The selected file always follows the cursor: for an in-range cursor the
/// re-derived index is the file whose exact span contains it, and a cursor
/// at or past the end selects the last file.
pub proof fn law_selection_follows_cursor(files: Seq<DiffFileView>, sv: SessionView, pos: int)
    requires
        files.len() > 0,
        0 <= pos,
    ensures
        ({
            let i = file_index_at(files, sv, pos, 0);
            &&& 0 <= i < files.len()
            &&& pos < total_height(files, sv) ==> offset_of(files, sv, i) <= pos && pos
                < offset_of(files, sv, i + 1)
            &&& pos >= total_height(files, sv) ==> i == files.len() - 1
        }),
{
    lemma_file_index_at_from(files, sv, pos, 0);
}

proof fn lemma_file_index_at_from(files: Seq<DiffFileView>, sv: SessionView, pos: int, j: int)
    requires
        files.len() > 0,
        0 <= j <= files.len(),
        pos >= offset_of(files, sv, j),
    ensures
        ({
            let i = file_index_at(files, sv, pos, j);
            &&& 0 <= i < files.len()
            &&& pos < total_height(files, sv) ==> j <= i && offset_of(files, sv, i) <= pos && pos
                < offset_of(files, sv, i + 1)
            &&& pos >= total_height(files, sv) ==> i == files.len() - 1
        }),
    decreases files.len() - j,
{
    if j >= files.len() {
        lemma_offset_plus_suffix(files, sv, j);
        assert(heights_from(files, sv, j) == 0);
        assert(pos >= total_height(files, sv));
    } else if pos < offset_of(files, sv, j + 1) {
        lemma_offset_plus_suffix(files, sv, j + 1);
        lemma_heights_from_nonneg(files, sv, j + 1);
        assert(pos < total_height(files, sv));
    } else {
        lemma_file_index_at_from(files, sv, pos, j + 1);
    }
}

/// Re-establishing viewport containment is minimal and one-sided: an
/// already contained cursor leaves the scroll untouched; a cursor above
/// the window pulls the scroll up exactly to it; a cursor below pushes the
/// scroll down the least amount that shows it; and containment holds
/// afterwards in every case. The cursor itself never moves.
pub proof fn law_scroll_restoration(cursor: int, scroll: int, vh: int)
    requires
        0 <= cursor,
        0 <= scroll,
        vh > 0,
    ensures
        ({
            let s2 = visible_scroll(cursor, scroll, vh);
            &&& s2 <= cursor < s2 + vh
            &&& (scroll <= cursor < scroll + vh) ==> s2 == scroll
            &&& cursor < scroll ==> s2 == cursor
            &&& cursor >= scroll + vh ==> s2 == cursor - vh + 1
        }),
{
}

} // verus!
