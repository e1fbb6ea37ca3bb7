//! Flat, numbered report of a review session: every comment, one line
//! each, files ordered by path and line comments ordered by line number.
//! This consumes only the session's read-only traversal; the flattened
//! line space plays no part here.

use vstd::prelude::*;
use vstd::string::StrSliceExecFns;
use vstd::string::StringExecFns;

use crate::error::TuicrError;
use crate::model::{Comment, CommentType, CommentView, LineSide};
use crate::session::{FileReview, FileReviewView, ReviewSession, SessionView};
use crate::text::{dec_spec, push_decimal};

verus! {

/// Lexicographic order on character sequences, by code point, from
/// position `i` on. This is the order Rust strings sort in.
pub open spec fn lex_le_from(a: Seq<char>, b: Seq<char>, i: int) -> bool
    decreases a.len() - i,
{
    if i < 0 || i >= a.len() {
        true
    } else if i >= b.len() {
        false
    } else if (a[i] as int) < (b[i] as int) {
        true
    } else if (a[i] as int) > (b[i] as int) {
        false
    } else {
        lex_le_from(a, b, i + 1)
    }
}

/// Lexicographic order on character sequences, by code point.
pub open spec fn lex_le(a: Seq<char>, b: Seq<char>) -> bool {
    lex_le_from(a, b, 0)
}

/// Whether `a` sorts at or before `b`, in the order Rust strings sort in.
fn str_le(a: &str, b: &str) -> (r: bool)
    ensures
        r == lex_le(a@, b@),
{
    let alen = a.unicode_len();
    let blen = b.unicode_len();
    let mut i: usize = 0;
    while i < alen
        invariant_except_break
            0 <= i <= alen,
            alen == a@.len(),
            blen == b@.len(),
            lex_le_from(a@, b@, 0) == lex_le_from(a@, b@, i as int),
        ensures
            0 <= i <= alen,
            alen == a@.len(),
            blen == b@.len(),
            lex_le_from(a@, b@, 0) == lex_le_from(a@, b@, i as int),
            i < alen ==> i >= blen || a@[i as int] != b@[i as int],
        decreases alen - i,
    {
        if i >= blen {
            break ;
        }
        let ca = a.get_char(i);
        let cb = b.get_char(i);
        if (ca as u32) != (cb as u32) {
            proof {
                assert(a@[i as int] == ca && b@[i as int] == cb);
            }
            break ;
        }
        i += 1;
    }
    if i >= alen {
        true
    } else if i >= blen {
        false
    } else {
        let ca = a.get_char(i);
        let cb = b.get_char(i);
        proof {
            assert(a@[i as int] == ca && b@[i as int] == cb);
            assert(ca != cb);
            assert(lex_le_from(a@, b@, i as int) == ((ca as int) < (cb as int)));
        }
        (ca as u32) < (cb as u32)
    }
}

/// The position, within an index list already in order, where a new index
/// with key `keys[v]` is inserted: after every entry that sorts at or
/// before it.
pub open spec fn ins_pos(keys: Seq<Seq<char>>, s: Seq<usize>, v: usize, j: int) -> int
    decreases s.len() - j,
{
    if j < 0 || j >= s.len() {
        s.len() as int
    } else if lex_le(keys[s[j] as int], keys[v as int]) {
        ins_pos(keys, s, v, j + 1)
    } else {
        j
    }
}

/// The indices `0..i`, ordered by their keys; ties keep insertion order.
pub open spec fn sort_idx(keys: Seq<Seq<char>>, i: int) -> Seq<usize>
    decreases i,
{
    if i <= 0 {
        Seq::empty()
    } else {
        let prev = sort_idx(keys, i - 1);
        prev.insert(ins_pos(keys, prev, (i - 1) as usize, 0), (i - 1) as usize)
    }
}

/// The record paths of a session, as sorting keys.
pub open spec fn path_keys(sv: SessionView) -> Seq<Seq<char>> {
    Seq::new(sv.files.len(), |i: int| sv.files[i].0)
}

/// The positions of the session's records, ordered by path.
fn sorted_file_indices(session: &ReviewSession) -> (r: Vec<usize>)
    ensures
        r@ == sort_idx(path_keys(session@), session@.files.len() as int),
        r@.len() == session@.files.len(),
        forall|x: int| 0 <= x < r@.len() ==> (#[trigger] r@[x]) < session@.files.len(),
{
    let ghost keys = path_keys(session@);
    let mut order: Vec<usize> = Vec::new();
    let mut i: usize = 0;
    proof {
        assert(order@ =~= sort_idx(keys, 0));
    }
    while i < session.files.len()
        invariant
            0 <= i <= session@.files.len(),
            keys == path_keys(session@),
            session@.files.len() == session.files@.len(),
            order@ == sort_idx(keys, i as int),
            order@.len() == i,
            forall|x: int| 0 <= x < order@.len() ==> (#[trigger] order@[x]) < i,
        decreases session@.files.len() - i,
    {
        let mut pos: usize = 0;
        while pos < order.len()
            invariant_except_break
                0 <= pos <= order@.len(),
                keys == path_keys(session@),
                session@.files.len() == session.files@.len(),
                0 <= i < session@.files.len(),
                forall|x: int| 0 <= x < order@.len() ==> (#[trigger] order@[x]) < i,
                ins_pos(keys, order@, i, 0) == ins_pos(keys, order@, i, pos as int),
            ensures
                0 <= pos <= order@.len(),
                ins_pos(keys, order@, i, 0) == pos as int,
            decreases order@.len() - pos,
        {
            proof {
                assert(order@[pos as int] < i);
                assert(session.files@[order@[pos as int] as int].0@ == keys[order@[
                    pos as int] as int]);
                assert(session.files@[i as int].0@ == keys[i as int]);
            }
            if !str_le(&session.files[order[pos]].0, &session.files[i].0) {
                proof {
                    assert(ins_pos(keys, order@, i, pos as int) == pos as int);
                }
                break ;
            }
            pos += 1;
        }
        order.insert(pos, i);
        i += 1;
    }
    order
}

/// The position where a new line entry is inserted among ordered line
/// indices: after every entry whose line is at or before it.
pub open spec fn ins_pos_u32(keys: Seq<u32>, s: Seq<usize>, v: usize, j: int) -> int
    decreases s.len() - j,
{
    if j < 0 || j >= s.len() {
        s.len() as int
    } else if keys[s[j] as int] <= keys[v as int] {
        ins_pos_u32(keys, s, v, j + 1)
    } else {
        j
    }
}

/// The indices `0..i`, ordered by their line numbers; ties keep insertion
/// order.
pub open spec fn sort_idx_u32(keys: Seq<u32>, i: int) -> Seq<usize>
    decreases i,
{
    if i <= 0 {
        Seq::empty()
    } else {
        let prev = sort_idx_u32(keys, i - 1);
        prev.insert(ins_pos_u32(keys, prev, (i - 1) as usize, 0), (i - 1) as usize)
    }
}

/// The line numbers of a record's line-comment entries, as sorting keys.
pub open spec fn line_keys(rv: FileReviewView) -> Seq<u32> {
    Seq::new(rv.line_comments.len(), |i: int| rv.line_comments[i].0)
}

/// The positions of a record's line-comment entries, ordered by line
/// number.
fn sorted_line_indices(fr: &FileReview) -> (r: Vec<usize>)
    ensures
        r@ == sort_idx_u32(line_keys(fr@), fr@.line_comments.len() as int),
        r@.len() == fr@.line_comments.len(),
        forall|x: int| 0 <= x < r@.len() ==> (#[trigger] r@[x]) < fr@.line_comments.len(),
{
    let ghost keys = line_keys(fr@);
    let mut order: Vec<usize> = Vec::new();
    let mut i: usize = 0;
    proof {
        assert(order@ =~= sort_idx_u32(keys, 0));
    }
    while i < fr.line_comments.len()
        invariant
            0 <= i <= fr@.line_comments.len(),
            keys == line_keys(fr@),
            fr@.line_comments.len() == fr.line_comments@.len(),
            order@ == sort_idx_u32(keys, i as int),
            order@.len() == i,
            forall|x: int| 0 <= x < order@.len() ==> (#[trigger] order@[x]) < i,
        decreases fr@.line_comments.len() - i,
    {
        let mut pos: usize = 0;
        while pos < order.len()
            invariant_except_break
                0 <= pos <= order@.len(),
                keys == line_keys(fr@),
                fr@.line_comments.len() == fr.line_comments@.len(),
                0 <= i < fr@.line_comments.len(),
                forall|x: int| 0 <= x < order@.len() ==> (#[trigger] order@[x]) < i,
                ins_pos_u32(keys, order@, i, 0) == ins_pos_u32(keys, order@, i, pos as int),
            ensures
                0 <= pos <= order@.len(),
                ins_pos_u32(keys, order@, i, 0) == pos as int,
            decreases order@.len() - pos,
        {
            proof {
                assert(order@[pos as int] < i);
                assert(fr.line_comments@[order@[pos as int] as int].0 == keys[order@[
                    pos as int] as int]);
                assert(fr.line_comments@[i as int].0 == keys[i as int]);
            }
            if !(fr.line_comments[order[pos]].0 <= fr.line_comments[i].0) {
                proof {
                    assert(ins_pos_u32(keys, order@, i, pos as int) == pos as int);
                }
                break ;
            }
            pos += 1;
        }
        order.insert(pos, i);
        i += 1;
    }
    order
}

/// One comment of the flat report: owning path, optional line anchor and
/// side, kind and content.
#[derive(Debug, Clone, PartialEq, Eq)]
pub struct CommentEntry {
    pub path: String,
    pub line: Option<u32>,
    pub side: Option<LineSide>,
    pub comment_type: CommentType,
    pub content: String,
}

/// Mathematical image of a `CommentEntry`.
#[verifier::ext_equal]
pub ghost struct EntryView {
    pub path: Seq<char>,
    pub line: Option<u32>,
    pub side: Option<LineSide>,
    pub comment_type: CommentType,
    pub content: Seq<char>,
}

impl View for CommentEntry {
    type V = EntryView;

    open spec fn view(&self) -> EntryView {
        EntryView {
            path: self.path@,
            line: self.line,
            side: self.side,
            comment_type: self.comment_type,
            content: self.content@,
        }
    }
}

impl DeepView for CommentEntry {
    type V = EntryView;

    open spec fn deep_view(&self) -> EntryView {
        self.view()
    }
}

/// The first `k` file-level comments of a record, as report entries.
pub open spec fn fc_entries(p: Seq<char>, cs: Seq<CommentView>, k: int) -> Seq<EntryView>
    decreases k,
{
    if k <= 0 {
        Seq::empty()
    } else {
        fc_entries(p, cs, k - 1).push(
            EntryView {
                path: p,
                line: None,
                side: None,
                comment_type: cs[k - 1].comment_type,
                content: cs[k - 1].content,
            },
        )
    }
}

/// The first `k` comments of one line's list, as report entries.
pub open spec fn line_cs_entries(p: Seq<char>, ln: u32, cs: Seq<CommentView>, k: int) -> Seq<
    EntryView,
>
    decreases k,
{
    if k <= 0 {
        Seq::empty()
    } else {
        line_cs_entries(p, ln, cs, k - 1).push(
            EntryView {
                path: p,
                line: Some(ln),
                side: cs[k - 1].side,
                comment_type: cs[k - 1].comment_type,
                content: cs[k - 1].content,
            },
        )
    }
}

/// The entries of the first `k` line lists of a record, taken in the
/// given order.
pub open spec fn line_entries(
    p: Seq<char>,
    rv: FileReviewView,
    lorder: Seq<usize>,
    k: int,
) -> Seq<EntryView>
    decreases k,
{
    if k <= 0 {
        Seq::empty()
    } else {
        line_entries(p, rv, lorder, k - 1) + ({
            let e = rv.line_comments[lorder[k - 1] as int];
            line_cs_entries(p, e.0, e.1, e.1.len() as int)
        })
    }
}

/// All entries of one record: its file-level comments, then its line
/// comments ordered by line number.
pub open spec fn review_entries(p: Seq<char>, rv: FileReviewView) -> Seq<EntryView> {
    fc_entries(p, rv.file_comments, rv.file_comments.len() as int) + line_entries(
        p,
        rv,
        sort_idx_u32(line_keys(rv), rv.line_comments.len() as int),
        rv.line_comments.len() as int,
    )
}

/// The entries of the first `k` records of the session, taken in the
/// given order.
pub open spec fn session_entries(sv: SessionView, forder: Seq<usize>, k: int) -> Seq<EntryView>
    decreases k,
{
    if k <= 0 {
        Seq::empty()
    } else {
        session_entries(sv, forder, k - 1) + ({
            let f = sv.files[forder[k - 1] as int];
            review_entries(f.0, f.1)
        })
    }
}

/// Every comment of the session as a flat entry list: records ordered by
/// path, line comments within each record ordered by line number, and
/// insertion order kept within every scope.
pub open spec fn all_entries(sv: SessionView) -> Seq<EntryView> {
    session_entries(sv, sort_idx(path_keys(sv), sv.files.len() as int), sv.files.len() as int)
}

/// The location fragment of one report line: back-quoted path, with the
/// line number after a colon for line comments, and a tilde marking
/// old-side lines.
pub open spec fn loc_text(e: EntryView) -> Seq<char> {
    match e.line {
        Some(l) => if e.side == Some(LineSide::Old) {
            "`"@ + e.path + ":~"@ + dec_spec(l as int) + "`"@
        } else {
            "`"@ + e.path + ":"@ + dec_spec(l as int) + "`"@
        },
        None => "`"@ + e.path + "`"@,
    }
}

/// One numbered report line.
pub open spec fn entry_line(num: int, e: EntryView) -> Seq<char> {
    dec_spec(num) + ". **["@ + e.comment_type.spec_str() + "]** "@ + loc_text(e) + " - "@
        + e.content + "\n"@
}

/// The first `k` entries rendered as numbered report lines, counting from
/// 1.
pub open spec fn rendered_entries(entries: Seq<EntryView>, k: int) -> Seq<char>
    decreases k,
{
    if k <= 0 {
        Seq::empty()
    } else {
        rendered_entries(entries, k - 1) + entry_line(k, entries[k - 1])
    }
}

/// The report's opening: the fixed introduction, then the session summary
/// when one was written.
pub open spec fn header_text(notes: Option<Seq<char>>) -> Seq<char> {
    "I reviewed your code and have the following comments. Please address them.\n\n"@
        + "Comment types: ISSUE (problems to fix), SUGGESTION (improvements), NOTE (observations), PRAISE (positive feedback)\n\n"@
        + (match notes {
        Some(n) => "Summary: "@ + n + "\n\n"@,
        None => Seq::<char>::empty(),
    })
}

/// The whole report.
pub open spec fn markdown_spec(sv: SessionView) -> Seq<char> {
    header_text(sv.session_notes) + rendered_entries(all_entries(sv), all_entries(sv).len() as int)
}

/// Collect every comment of the session as a flat entry list.
fn collect_entries(session: &ReviewSession) -> (r: Vec<CommentEntry>)
    ensures
        r.deep_view() == all_entries(session@),
{
    let ghost sv = session@;
    let order = sorted_file_indices(session);
    let ghost fo = order@;
    let mut out: Vec<CommentEntry> = Vec::new();
    proof {
        assert(out.deep_view() =~= session_entries(sv, fo, 0));
    }
    let mut k: usize = 0;
    while k < order.len()
        invariant
            0 <= k <= fo.len(),
            fo == order@,
            sv == session@,
            fo.len() == sv.files.len(),
            sv.files.len() == session.files@.len(),
            forall|x: int| 0 <= x < fo.len() ==> (#[trigger] fo[x]) < sv.files.len(),
            out.deep_view() == session_entries(sv, fo, k as int),
        decreases fo.len() - k,
    {
        let fe_idx = order[k];
        let ghost p = sv.files[fe_idx as int].0;
        let ghost rv = sv.files[fe_idx as int].1;
        proof {
            assert(session.files@[fe_idx as int].0@ == p);
            assert(session.files@[fe_idx as int].1@ == rv);
        }
        let ghost base = session_entries(sv, fo, k as int);
        let fr = &session.files[fe_idx].1;
        let mut j: usize = 0;
        while j < fr.file_comments.len()
            invariant
                0 <= j <= rv.file_comments.len(),
                sv == session@,
                sv.files.len() == session.files@.len(),
                0 <= fe_idx < sv.files.len(),
                fr@ == rv,
                p == sv.files[fe_idx as int].0,
                fr.file_comments@.len() == rv.file_comments.len(),
                out.deep_view() == base + fc_entries(p, rv.file_comments, j as int),
            decreases rv.file_comments.len() - j,
        {
            proof {
                assert(fr.file_comments@[j as int]@ == rv.file_comments[j as int]);
                assert(sv.files[fe_idx as int] == session.files@[fe_idx as int].deep_view());
                assert(session.files@[fe_idx as int].0@ == p);
            }
            let c = &fr.file_comments[j];
            let ghost out0 = out.deep_view();
            let ghost ev = EntryView {
                path: p,
                line: None,
                side: None,
                comment_type: rv.file_comments[j as int].comment_type,
                content: rv.file_comments[j as int].content,
            };
            out.push(
                CommentEntry {
                    path: session.files[fe_idx].0.clone(),
                    line: None,
                    side: None,
                    comment_type: c.comment_type,
                    content: c.content.clone(),
                },
            );
            proof {
                assert(out.deep_view() =~~= out0.push(ev));
                assert(fc_entries(p, rv.file_comments, j as int + 1) == fc_entries(
                    p,
                    rv.file_comments,
                    j as int,
                ).push(ev));
                assert(out0.push(ev) =~~= base + fc_entries(p, rv.file_comments, j as int + 1));
            }
            j += 1;
        }
        let ghost base2 = base + fc_entries(p, rv.file_comments, rv.file_comments.len() as int);
        let lorder = sorted_line_indices(fr);
        let ghost lo = lorder@;
        let mut m: usize = 0;
        while m < lorder.len()
            invariant
                0 <= m <= lo.len(),
                lo == lorder@,
                sv == session@,
                sv.files.len() == session.files@.len(),
                0 <= fe_idx < sv.files.len(),
                fr@ == rv,
                p == sv.files[fe_idx as int].0,
                lo == sort_idx_u32(line_keys(rv), rv.line_comments.len() as int),
                lo.len() == rv.line_comments.len(),
                forall|x: int| 0 <= x < lo.len() ==> (#[trigger] lo[x]) < rv.line_comments.len(),
                fr.line_comments@.len() == rv.line_comments.len(),
                out.deep_view() == base2 + line_entries(p, rv, lo, m as int),
            decreases lo.len() - m,
        {
            let le_idx = lorder[m];
            let ln = fr.line_comments[le_idx].0;
            let ghost lcs = rv.line_comments[le_idx as int].1;
            proof {
                assert(fr.line_comments@[le_idx as int].0 == rv.line_comments[le_idx as int].0);
                assert(fr.line_comments@[le_idx as int].1.deep_view() == lcs);
            }
            let ghost base3 = base2 + line_entries(p, rv, lo, m as int);
            let mut q: usize = 0;
            while q < fr.line_comments[le_idx].1.len()
                invariant
                    0 <= q <= lcs.len(),
                    sv == session@,
                    sv.files.len() == session.files@.len(),
                    0 <= fe_idx < sv.files.len(),
                    fr@ == rv,
                    p == sv.files[fe_idx as int].0,
                    0 <= le_idx < rv.line_comments.len(),
                    ln == rv.line_comments[le_idx as int].0,
                    lcs == rv.line_comments[le_idx as int].1,
                    fr.line_comments@.len() == rv.line_comments.len(),
                    fr.line_comments@[le_idx as int].1@.len() == lcs.len(),
                    out.deep_view() == base3 + line_cs_entries(p, ln, lcs, q as int),
                decreases lcs.len() - q,
            {
                proof {
                    assert(fr.line_comments@[le_idx as int].1@[q as int]@ == lcs[q as int]);
                    assert(sv.files[fe_idx as int] == session.files@[fe_idx as int].deep_view());
                    assert(session.files@[fe_idx as int].0@ == p);
                }
                let c = &fr.line_comments[le_idx].1[q];
                let ghost out0 = out.deep_view();
                let ghost ev = EntryView {
                    path: p,
                    line: Some(ln),
                    side: lcs[q as int].side,
                    comment_type: lcs[q as int].comment_type,
                    content: lcs[q as int].content,
                };
                out.push(
                    CommentEntry {
                        path: session.files[fe_idx].0.clone(),
                        line: Some(ln),
                        side: c.side,
                        comment_type: c.comment_type,
                        content: c.content.clone(),
                    },
                );
                proof {
                    assert(out.deep_view() =~~= out0.push(ev));
                    assert(line_cs_entries(p, ln, lcs, q as int + 1) == line_cs_entries(
                        p,
                        ln,
                        lcs,
                        q as int,
                    ).push(ev));
                    assert(out0.push(ev) =~~= base3 + line_cs_entries(p, ln, lcs, q as int + 1));
                }
                q += 1;
            }
            proof {
                assert(out.deep_view() =~~= base2 + line_entries(p, rv, lo, m as int + 1));
            }
            m += 1;
        }
        proof {
            assert(out.deep_view() =~~= session_entries(sv, fo, k as int + 1));
        }
        k += 1;
    }
    proof {
        assert(out.deep_view() =~~= all_entries(sv));
    }
    out
}

/// Render the flat, numbered report of every comment in the session.
/// Append one numbered report line for `e`.
#[verifier::rlimit(80)]
fn append_entry_line(md: &mut String, num: u64, e: &CommentEntry)
    ensures
        final(md)@ == old(md)@ + entry_line(num as int, e@),
{
    push_decimal(md, num);
    md.append(". **[");
    md.append(e.comment_type.as_str());
    md.append("]** ");
    md.append("`");
    md.append(e.path.as_str());
    match e.line {
        Some(l) => {
            let old_side = match e.side {
                Some(LineSide::Old) => true,
                _ => false,
            };
            if old_side {
                md.append(":~");
            } else {
                md.append(":");
            }
            push_decimal(md, l as u64);
        },
        None => {},
    }
    md.append("`");
    md.append(" - ");
    md.append(e.content.as_str());
    md.append("\n");
    proof {
        assert(final(md)@ =~= old(md)@ + entry_line(num as int, e@));
    }
}

pub fn generate_markdown(session: &ReviewSession) -> (r: String)
    ensures
        r@ == markdown_spec(session@),
{
    let ghost sv = session@;
    let mut md = String::new();
    md.append("I reviewed your code and have the following comments. Please address them.\n\n");
    md.append(
        "Comment types: ISSUE (problems to fix), SUGGESTION (improvements), NOTE (observations), PRAISE (positive feedback)\n\n",
    );
    match &session.session_notes {
        Some(notes) => {
            md.append("Summary: ");
            md.append(notes.as_str());
            md.append("\n\n");
        },
        None => {},
    }
    proof {
        assert(md@ =~= header_text(sv.session_notes));
    }
    let entries = collect_entries(session);
    let ghost ev = all_entries(sv);
    let mut k: usize = 0;
    while k < entries.len()
        invariant
            0 <= k <= ev.len(),
            sv == session@,
            ev == all_entries(sv),
            entries.deep_view() == ev,
            entries@.len() == ev.len(),
            md@ == header_text(sv.session_notes) + rendered_entries(ev, k as int),
        decreases ev.len() - k,
    {
        proof {
            assert(entries@[k as int]@ == ev[k as int]);
        }
        let e = &entries[k];
        append_entry_line(&mut md, (k + 1) as u64, e);
        proof {
            assert(md@ =~= header_text(sv.session_notes) + rendered_entries(ev, k as int + 1));
        }
        k += 1;
    }
    md
}

/// The compute side of exporting a review: refuse a session with nothing
/// in it, render every other one.
pub fn export_markdown(session: &ReviewSession) -> (r: Result<String, TuicrError>)
    ensures
        match r {
            Ok(s) => session@.has_comments() && s@ == markdown_spec(session@),
            Err(e) => !session@.has_comments() && e == TuicrError::NoComments,
        },
{
    if !session.has_comments() {
        return Err(TuicrError::NoComments);
    }
    Ok(generate_markdown(session))
}

} // verus!
