//! Review session state: per-file review records (reviewed flag, file-level
//! comments, per-line comments) kept in insertion order and addressed by the
//! file's display path.
//!
//! Both maps of the model (path to review record, line number to comment
//! list) are kept as ordered association vectors with unique keys, so that
//! iteration order is the insertion order and every lookup has a direct
//! mathematical counterpart.

use vstd::prelude::*;

use crate::model::{Comment, CommentView, LineSide};

verus! {

/// Per-file review state.
#[derive(Debug, Clone, PartialEq, Eq)]
pub struct FileReview {
    pub reviewed: bool,
    pub file_comments: Vec<Comment>,
    pub line_comments: Vec<(u32, Vec<Comment>)>,
}

/// Mathematical image of a `FileReview`.
#[verifier::ext_equal]
pub ghost struct FileReviewView {
    pub reviewed: bool,
    pub file_comments: Seq<CommentView>,
    pub line_comments: Seq<(u32, Seq<CommentView>)>,
}

impl View for FileReview {
    type V = FileReviewView;

    open spec fn view(&self) -> FileReviewView {
        FileReviewView {
            reviewed: self.reviewed,
            file_comments: self.file_comments.deep_view(),
            line_comments: self.line_comments.deep_view(),
        }
    }
}

impl DeepView for FileReview {
    type V = FileReviewView;

    open spec fn deep_view(&self) -> FileReviewView {
        self.view()
    }
}

impl FileReviewView {
    /// A fresh record: not reviewed, no comments.
    pub open spec fn empty() -> FileReviewView {
        FileReviewView { reviewed: false, file_comments: Seq::empty(), line_comments: Seq::empty() }
    }

    /// Structural invariant: file comments carry no side, line-comment keys
    /// are unique, line-comment lists are non-empty and every line comment
    /// carries a side.
    pub open spec fn wf(self) -> bool {
        &&& forall|i: int|
            0 <= i < self.file_comments.len() ==> (#[trigger] self.file_comments[i]).side is None
        &&& forall|i: int, j: int|
            0 <= i < j < self.line_comments.len() ==> (#[trigger] self.line_comments[i].0)
                != (#[trigger] self.line_comments[j].0)
        &&& forall|i: int|
            0 <= i < self.line_comments.len() ==> (#[trigger] self.line_comments[i].1).len() > 0
        &&& forall|i: int, k: int|
            0 <= i < self.line_comments.len() && 0 <= k < self.line_comments[i].1.len() ==> (
            #[trigger] self.line_comments[i].1[k]).side is Some
    }

    /// Does this record hold any comment at all?
    pub open spec fn has_comments(self) -> bool {
        self.file_comments.len() > 0 || self.line_comments.len() > 0
    }
}

impl FileReview {
    /// A fresh record: not reviewed, no comments.
    pub fn new() -> (r: FileReview)
        ensures
            r@ == FileReviewView::empty(),
    {
        let r = FileReview { reviewed: false, file_comments: Vec::new(), line_comments: Vec::new() };
        proof {
            assert(r@.file_comments =~= Seq::<CommentView>::empty());
            assert(r@.line_comments =~= Seq::<(u32, Seq<CommentView>)>::empty());
        }
        r
    }
}

/// Index of the first entry of `entries` at or after `i` whose key is `ln`,
/// or `-1` if there is none.
pub open spec fn line_entry_index_from(
    entries: Seq<(u32, Seq<CommentView>)>,
    ln: u32,
    i: int,
) -> int
    decreases entries.len() - i,
{
    if i < 0 || i >= entries.len() {
        -1
    } else if entries[i].0 == ln {
        i
    } else {
        line_entry_index_from(entries, ln, i + 1)
    }
}

/// Index of the entry of `entries` keyed by `ln`, or `-1` if there is none.
pub open spec fn line_entry_index(entries: Seq<(u32, Seq<CommentView>)>, ln: u32) -> int {
    line_entry_index_from(entries, ln, 0)
}

pub proof fn lemma_line_entry_index_from(entries: Seq<(u32, Seq<CommentView>)>, ln: u32, i: int)
    requires
        0 <= i <= entries.len(),
    ensures
        ({
            let r = line_entry_index_from(entries, ln, i);
            &&& r == -1 ==> forall|j: int|
                i <= j < entries.len() ==> (#[trigger] entries[j].0) != ln
            &&& r != -1 ==> i <= r < entries.len() && entries[r].0 == ln && (forall|j: int|
                i <= j < r ==> (#[trigger] entries[j].0) != ln)
        }),
    decreases entries.len() - i,
{
    if i < entries.len() {
        lemma_line_entry_index_from(entries, ln, i + 1);
    }
}

/// The ordered comment list stored for line `ln`, or the empty sequence when
/// the line has no entry.
pub open spec fn comments_at(entries: Seq<(u32, Seq<CommentView>)>, ln: u32) -> Seq<CommentView> {
    let i = line_entry_index(entries, ln);
    if i >= 0 {
        entries[i].1
    } else {
        Seq::empty()
    }
}

/// Index of the first entry of `files` at or after `i` whose key is `p`, or
/// `-1` if there is none.
pub open spec fn path_index_from(
    files: Seq<(Seq<char>, FileReviewView)>,
    p: Seq<char>,
    i: int,
) -> int
    decreases files.len() - i,
{
    if i < 0 || i >= files.len() {
        -1
    } else if files[i].0 == p {
        i
    } else {
        path_index_from(files, p, i + 1)
    }
}

/// Index of the entry of `files` keyed by path `p`, or `-1` if there is none.
pub open spec fn path_index(files: Seq<(Seq<char>, FileReviewView)>, p: Seq<char>) -> int {
    path_index_from(files, p, 0)
}

pub proof fn lemma_path_index_from(files: Seq<(Seq<char>, FileReviewView)>, p: Seq<char>, i: int)
    requires
        0 <= i <= files.len(),
    ensures
        ({
            let r = path_index_from(files, p, i);
            &&& r == -1 ==> forall|j: int| i <= j < files.len() ==> (#[trigger] files[j].0) != p
            &&& r != -1 ==> i <= r < files.len() && files[r].0 == p && (forall|j: int|
                i <= j < r ==> (#[trigger] files[j].0) != p)
        }),
    decreases files.len() - i,
{
    if i < files.len() {
        lemma_path_index_from(files, p, i + 1);
    }
}

/// The side a comment is resolved under: a stored `Old` side stays `Old`,
/// anything else counts as `New`.
pub open spec fn effective_side(c: CommentView) -> LineSide {
    if c.side == Some(LineSide::Old) {
        LineSide::Old
    } else {
        LineSide::New
    }
}

/// Storage index of the `n`-th comment (counting from zero, starting at
/// position `i`) whose effective side is `side`, or `-1` if there are not
/// that many.
pub open spec fn nth_side_index_from(cs: Seq<CommentView>, side: LineSide, n: int, i: int) -> int
    decreases cs.len() - i,
{
    if i < 0 || i >= cs.len() {
        -1
    } else if effective_side(cs[i]) == side {
        if n == 0 {
            i
        } else {
            nth_side_index_from(cs, side, n - 1, i + 1)
        }
    } else {
        nth_side_index_from(cs, side, n, i + 1)
    }
}

/// Storage index of the `n`-th comment whose effective side is `side`, or
/// `-1` if there are not that many.
pub open spec fn nth_side_index(cs: Seq<CommentView>, side: LineSide, n: int) -> int {
    nth_side_index_from(cs, side, n, 0)
}

pub proof fn lemma_nth_side_index_from(cs: Seq<CommentView>, side: LineSide, n: int, i: int)
    requires
        0 <= i <= cs.len(),
        0 <= n,
    ensures
        ({
            let r = nth_side_index_from(cs, side, n, i);
            r != -1 ==> i <= r < cs.len() && effective_side(cs[r]) == side
        }),
    decreases cs.len() - i,
{
    if i < cs.len() {
        if effective_side(cs[i]) == side && n > 0 {
            lemma_nth_side_index_from(cs, side, n - 1, i + 1);
        } else if effective_side(cs[i]) != side {
            lemma_nth_side_index_from(cs, side, n, i + 1);
        }
    }
}

/// `rv` with the reviewed flag flipped.
pub open spec fn flip_reviewed(rv: FileReviewView) -> FileReviewView {
    FileReviewView { reviewed: !rv.reviewed, ..rv }
}

/// `rv` with `c` appended to its file-level comments.
pub open spec fn with_file_comment(rv: FileReviewView, c: CommentView) -> FileReviewView {
    FileReviewView { file_comments: rv.file_comments.push(c), ..rv }
}

/// `rv` with `c` appended to the comment list of line `ln`, the list being
/// created when the line had none.
pub open spec fn with_line_comment(rv: FileReviewView, ln: u32, c: CommentView) -> FileReviewView {
    let k = line_entry_index(rv.line_comments, ln);
    FileReviewView {
        line_comments: if k >= 0 {
            rv.line_comments.update(k, (ln, rv.line_comments[k].1.push(c)))
        } else {
            rv.line_comments.push((ln, seq![c]))
        },
        ..rv
    }
}

/// `rv` with its `index`-th file-level comment removed.
pub open spec fn without_file_comment(rv: FileReviewView, index: int) -> FileReviewView {
    FileReviewView { file_comments: rv.file_comments.remove(index), ..rv }
}

/// Whether line `ln` of `rv` holds an `n`-th comment of effective side
/// `side`.
pub open spec fn line_comment_found(rv: FileReviewView, ln: u32, side: LineSide, n: int) -> bool {
    let k = line_entry_index(rv.line_comments, ln);
    k >= 0 && nth_side_index(rv.line_comments[k].1, side, n) >= 0
}

/// `rv` with the `n`-th comment of effective side `side` removed from line
/// `ln`; the line's entry goes away when its list becomes empty.
pub open spec fn without_line_comment(
    rv: FileReviewView,
    ln: u32,
    side: LineSide,
    n: int,
) -> FileReviewView {
    let k = line_entry_index(rv.line_comments, ln);
    let cs = rv.line_comments[k].1;
    let m = nth_side_index(cs, side, n);
    let cs2 = cs.remove(m);
    FileReviewView {
        line_comments: if cs2.len() == 0 {
            rv.line_comments.remove(k)
        } else {
            rv.line_comments.update(k, (ln, cs2))
        },
        ..rv
    }
}

/// `sv` with the record at position `i` replaced by `rv` (same key).
pub open spec fn with_review(sv: SessionView, i: int, rv: FileReviewView) -> SessionView {
    SessionView { files: sv.files.update(i, (sv.files[i].0, rv)), ..sv }
}

/// The whole review session: base revision, one record per seen file path,
/// and an optional free-text summary.
#[derive(Debug, Clone, PartialEq, Eq)]
pub struct ReviewSession {
    pub root_path: String,
    pub base_commit: String,
    pub files: Vec<(String, FileReview)>,
    pub session_notes: Option<String>,
}

/// Mathematical image of a `ReviewSession`.
#[verifier::ext_equal]
pub ghost struct SessionView {
    pub root_path: Seq<char>,
    pub base_commit: Seq<char>,
    pub files: Seq<(Seq<char>, FileReviewView)>,
    pub session_notes: Option<Seq<char>>,
}

impl View for ReviewSession {
    type V = SessionView;

    open spec fn view(&self) -> SessionView {
        SessionView {
            root_path: self.root_path@,
            base_commit: self.base_commit@,
            files: self.files.deep_view(),
            session_notes: match self.session_notes {
                Some(ref n) => Some(n@),
                None => None,
            },
        }
    }
}

impl SessionView {
    /// Structural invariant: file paths are unique and every record is
    /// well-formed.
    pub open spec fn wf(self) -> bool {
        &&& forall|i: int, j: int|
            0 <= i < j < self.files.len() ==> (#[trigger] self.files[i].0)
                != (#[trigger] self.files[j].0)
        &&& forall|i: int| 0 <= i < self.files.len() ==> (#[trigger] self.files[i].1).wf()
    }

    pub open spec fn contains_path(self, p: Seq<char>) -> bool {
        path_index(self.files, p) >= 0
    }

    /// The review record stored for path `p`, if any.
    pub open spec fn review_opt(self, p: Seq<char>) -> Option<FileReviewView> {
        let i = path_index(self.files, p);
        if i >= 0 {
            Some(self.files[i].1)
        } else {
            None
        }
    }

    /// Whether the file at path `p` is marked reviewed; an unknown path is
    /// not reviewed.
    pub open spec fn is_reviewed(self, p: Seq<char>) -> bool {
        match self.review_opt(p) {
            Some(r) => r.reviewed,
            None => false,
        }
    }

    /// Number of records whose reviewed flag is set, among the first `i`.
    pub open spec fn reviewed_count_to(self, i: int) -> nat
        decreases i,
    {
        if i <= 0 {
            0
        } else {
            self.reviewed_count_to(i - 1) + (if 0 <= i - 1 < self.files.len()
                && self.files[i - 1].1.reviewed {
                1nat
            } else {
                0nat
            })
        }
    }

    /// Number of records whose reviewed flag is set.
    pub open spec fn reviewed_count(self) -> nat {
        self.reviewed_count_to(self.files.len() as int)
    }

    /// Does any record hold a comment?
    pub open spec fn has_comments(self) -> bool {
        exists|i: int| 0 <= i < self.files.len() && (#[trigger] self.files[i].1).has_comments()
    }
}

impl ReviewSession {
    /// A fresh session for the given working tree root and base revision.
    pub fn new(root_path: String, base_commit: String) -> (r: ReviewSession)
        ensures
            r@.root_path == root_path@,
            r@.base_commit == base_commit@,
            r@.files =~= Seq::<(Seq<char>, FileReviewView)>::empty(),
            r@.session_notes is None,
            r@.wf(),
    {
        let r = ReviewSession {
            root_path,
            base_commit,
            files: Vec::new(),
            session_notes: None,
        };
        proof {
            assert(r@.files =~= Seq::<(Seq<char>, FileReviewView)>::empty());
        }
        r
    }

    /// Position of the record for `path`, if one exists.
    fn find_file_index(&self, path: &String) -> (r: Option<usize>)
        ensures
            match r {
                Some(i) => 0 <= i < self@.files.len() && path_index(self@.files, path@) == i,
                None => path_index(self@.files, path@) == -1,
            },
    {
        let ghost files = self@.files;
        let mut i: usize = 0;
        while i < self.files.len()
            invariant
                0 <= i <= files.len(),
                files == self@.files,
                files.len() == self.files@.len(),
                path_index_from(files, path@, 0) == path_index_from(files, path@, i as int),
            decreases files.len() - i,
        {
            if self.files[i].0 == *path {
                assert(files[i as int].0 == path@);
                return Some(i);
            }
            assert(files[i as int].0 != path@);
            i += 1;
        }
        None
    }

    /// The review record for `path`, if one exists.
    pub fn get_file(&self, path: &String) -> (r: Option<&FileReview>)
        ensures
            match r {
                Some(fr) => self@.review_opt(path@) == Some(fr@),
                None => self@.review_opt(path@) is None,
            },
    {
        match self.find_file_index(path) {
            Some(i) => Some(&self.files[i].1),
            None => None,
        }
    }

    /// Whether `path` has a record with the reviewed flag set.
    pub fn is_file_reviewed(&self, path: &String) -> (r: bool)
        ensures
            r == self@.is_reviewed(path@),
    {
        match self.get_file(path) {
            Some(fr) => fr.reviewed,
            None => false,
        }
    }

    /// Record `path` in the session, creating a fresh record the first time
    /// the path is seen. An existing record is kept untouched, so review
    /// state survives snapshot reloads.
    pub fn add_file(&mut self, path: String)
        requires
            old(self)@.wf(),
        ensures
            final(self)@.wf(),
            final(self)@.root_path == old(self)@.root_path,
            final(self)@.base_commit == old(self)@.base_commit,
            final(self)@.session_notes == old(self)@.session_notes,
            old(self)@.contains_path(path@) ==> final(self)@ == old(self)@,
            !old(self)@.contains_path(path@) ==> final(self)@.files == old(self)@.files.push(
                (path@, FileReviewView::empty()),
            ),
    {
        match self.find_file_index(&path) {
            Some(_) => {
                assert(final(self)@ == old(self)@);
            },
            None => {
                proof {
                    lemma_path_index_from(self@.files, path@, 0);
                }
                let fr = FileReview::new();
                self.files.push((path, fr));
                proof {
                    assert(final(self)@.files =~= old(self)@.files.push(
                        (path@, FileReviewView::empty()),
                    ));
                    let nf = final(self)@.files;
                    let of = old(self)@.files;
                    assert forall|i: int, j: int| 0 <= i < j < nf.len() implies (
                    #[trigger] nf[i].0) != (#[trigger] nf[j].0) by {
                        if j < of.len() {
                        } else {
                            assert(nf[j].0 == path@);
                            assert(of[i].0 != path@);
                        }
                    }
                    assert(final(self)@.wf());
                }
            },
        }
    }
}

pub proof fn lemma_with_review_wf(sv: SessionView, i: int, rv: FileReviewView)
    requires
        sv.wf(),
        0 <= i < sv.files.len(),
        rv.wf(),
    ensures
        with_review(sv, i, rv).wf(),
        with_review(sv, i, rv).files.len() == sv.files.len(),
        path_index(with_review(sv, i, rv).files, sv.files[i].0) == path_index(
            sv.files,
            sv.files[i].0,
        ),
{
    let nf = with_review(sv, i, rv).files;
    assert forall|a: int, b: int| 0 <= a < b < nf.len() implies (#[trigger] nf[a].0) != (
    #[trigger] nf[b].0) by {
        assert(sv.files[a].0 != sv.files[b].0);
    }
    lemma_path_index_same_keys(sv.files, nf, sv.files[i].0, 0);
}

/// Two record sequences with the same keys resolve every path at the same
/// position.
pub proof fn lemma_path_index_same_keys(
    fa: Seq<(Seq<char>, FileReviewView)>,
    fb: Seq<(Seq<char>, FileReviewView)>,
    p: Seq<char>,
    i: int,
)
    requires
        fa.len() == fb.len(),
        forall|j: int| 0 <= j < fa.len() ==> (#[trigger] fa[j].0) == (#[trigger] fb[j].0),
        0 <= i,
    ensures
        path_index_from(fa, p, i) == path_index_from(fb, p, i),
    decreases fa.len() - i,
{
    if i < fa.len() {
        lemma_path_index_same_keys(fa, fb, p, i + 1);
    }
}

impl ReviewSession {
    /// Flip the reviewed flag of the record for `path`; reports whether the
    /// path had a record.
    pub fn toggle_file_reviewed(&mut self, path: &String) -> (r: bool)
        requires
            old(self)@.wf(),
        ensures
            final(self)@.wf(),
            r == old(self)@.contains_path(path@),
            !r ==> final(self)@ == old(self)@,
            r ==> final(self)@ == with_review(
                old(self)@,
                path_index(old(self)@.files, path@),
                flip_reviewed(old(self)@.files[path_index(old(self)@.files, path@)].1),
            ),
    {
        match self.find_file_index(path) {
            Some(i) => {
                let ghost sv = self@;
                let cur = self.files[i].1.reviewed;
                self.files[i].1.reviewed = !cur;
                proof {
                    let rv = flip_reviewed(sv.files[i as int].1);
                    assert(final(self)@.files =~= with_review(sv, i as int, rv).files);
                    lemma_with_review_wf(sv, i as int, rv);
                }
                true
            },
            None => false,
        }
    }

    /// Append a file-level comment to the record for `path`; reports whether
    /// the path had a record.
    pub fn add_file_comment(&mut self, path: &String, comment: Comment) -> (r: bool)
        requires
            old(self)@.wf(),
            comment@.side is None,
        ensures
            final(self)@.wf(),
            r == old(self)@.contains_path(path@),
            !r ==> final(self)@ == old(self)@,
            r ==> final(self)@ == with_review(
                old(self)@,
                path_index(old(self)@.files, path@),
                with_file_comment(
                    old(self)@.files[path_index(old(self)@.files, path@)].1,
                    comment@,
                ),
            ),
    {
        match self.find_file_index(path) {
            Some(i) => {
                let ghost sv = self@;
                self.files[i].1.file_comments.push(comment);
                proof {
                    let rv = with_file_comment(sv.files[i as int].1, comment@);
                    assert(final(self)@.files[i as int].1.file_comments =~= rv.file_comments);
                    assert(final(self)@.files[i as int].1 == rv);
                    assert(final(self)@.files =~= with_review(sv, i as int, rv).files);
                    assert forall|a: int|
                        0 <= a < rv.file_comments.len() implies (
                    #[trigger] rv.file_comments[a]).side is None by {
                        if a < sv.files[i as int].1.file_comments.len() {
                            assert(sv.files[i as int].1.wf());
                        }
                    }
                    lemma_with_review_wf(sv, i as int, rv);
                }
                true
            },
            None => false,
        }
    }

    /// Position of the entry for line `ln` in an ordered line-comment list.
    pub(crate) fn find_line_entry(entries: &Vec<(u32, Vec<Comment>)>, ln: u32) -> (r: Option<usize>)
        ensures
            match r {
                Some(k) => 0 <= k < entries.deep_view().len() && line_entry_index(
                    entries.deep_view(),
                    ln,
                ) == k,
                None => line_entry_index(entries.deep_view(), ln) == -1,
            },
    {
        let ghost ev = entries.deep_view();
        let mut k: usize = 0;
        while k < entries.len()
            invariant
                0 <= k <= ev.len(),
                ev == entries.deep_view(),
                ev.len() == entries@.len(),
                line_entry_index_from(ev, ln, 0) == line_entry_index_from(ev, ln, k as int),
            decreases ev.len() - k,
        {
            if entries[k].0 == ln {
                assert(ev[k as int].0 == ln);
                return Some(k);
            }
            assert(ev[k as int].0 != ln);
            k += 1;
        }
        None
    }

    /// Storage position of the `n`-th comment of effective side `side`.
    fn find_nth_side(cs: &Vec<Comment>, side: LineSide, n: usize) -> (r: Option<usize>)
        ensures
            match r {
                Some(m) => 0 <= m < cs.deep_view().len() && nth_side_index(
                    cs.deep_view(),
                    side,
                    n as int,
                ) == m,
                None => nth_side_index(cs.deep_view(), side, n as int) == -1,
            },
    {
        let ghost csv = cs.deep_view();
        let mut m: usize = 0;
        let mut seen: usize = 0;
        while m < cs.len()
            invariant
                0 <= m <= csv.len(),
                csv == cs.deep_view(),
                csv.len() == cs@.len(),
                seen <= n,
                nth_side_index_from(csv, side, n as int, 0) == nth_side_index_from(
                    csv,
                    side,
                    n - seen,
                    m as int,
                ),
            decreases csv.len() - m,
        {
            let es = match cs[m].side {
                Some(LineSide::Old) => LineSide::Old,
                _ => LineSide::New,
            };
            assert(es == effective_side(csv[m as int]));
            if es == side {
                if seen == n {
                    return Some(m);
                }
                seen += 1;
            }
            m += 1;
        }
        None
    }

    /// Append a line comment for line `line` of the record for `path`,
    /// creating the line's list when absent; reports whether the path had a
    /// record. Comments are never reordered: insertion order is display
    /// order within their scope.
    pub fn add_line_comment(&mut self, path: &String, line: u32, comment: Comment) -> (r: bool)
        requires
            old(self)@.wf(),
            comment@.side is Some,
        ensures
            final(self)@.wf(),
            r == old(self)@.contains_path(path@),
            !r ==> final(self)@ == old(self)@,
            r ==> final(self)@ == with_review(
                old(self)@,
                path_index(old(self)@.files, path@),
                with_line_comment(
                    old(self)@.files[path_index(old(self)@.files, path@)].1,
                    line,
                    comment@,
                ),
            ),
    {
        match self.find_file_index(path) {
            Some(i) => {
                let ghost sv = self@;
                let ghost rv0 = sv.files[i as int].1;
                let ghost rv = with_line_comment(rv0, line, comment@);
                let k_opt = Self::find_line_entry(&self.files[i].1.line_comments, line);
                match k_opt {
                    Some(k) => {
                        proof {
                            lemma_line_entry_index_from(rv0.line_comments, line, 0);
                        }
                        self.files[i].1.line_comments[k].1.push(comment);
                        proof {
                            assert(final(self)@.files[i as int].1.line_comments
                                =~~= rv.line_comments);
                            assert(final(self)@.files =~~= with_review(sv, i as int, rv).files);
                        }
                    },
                    None => {
                        let mut v: Vec<Comment> = Vec::new();
                        v.push(comment);
                        proof {
                            assert(v.deep_view() =~= seq![comment@]);
                            lemma_line_entry_index_from(rv0.line_comments, line, 0);
                        }
                        self.files[i].1.line_comments.push((line, v));
                        proof {
                            assert(final(self)@.files[i as int].1.line_comments
                                =~~= rv.line_comments);
                            assert(final(self)@.files =~~= with_review(sv, i as int, rv).files);
                        }
                    },
                }
                proof {
                    lemma_with_line_comment_wf(rv0, line, comment@);
                    lemma_with_review_wf(sv, i as int, rv);
                }
                true
            },
            None => false,
        }
    }

    /// Remove the `index`-th file-level comment of the record for `path`;
    /// reports whether there was one.
    pub fn delete_file_comment(&mut self, path: &String, index: usize) -> (r: bool)
        requires
            old(self)@.wf(),
        ensures
            final(self)@.wf(),
            ({
                let sv = old(self)@;
                let fi = path_index(sv.files, path@);
                if fi >= 0 && index < sv.files[fi].1.file_comments.len() {
                    r == true && final(self)@ == with_review(
                        sv,
                        fi,
                        without_file_comment(sv.files[fi].1, index as int),
                    )
                } else {
                    r == false && final(self)@ == sv
                }
            }),
    {
        match self.find_file_index(path) {
            Some(i) => {
                if index < self.files[i].1.file_comments.len() {
                    let ghost sv = self@;
                    let ghost rv0 = sv.files[i as int].1;
                    let ghost rv = without_file_comment(rv0, index as int);
                    self.files[i].1.file_comments.remove(index);
                    proof {
                        rv0.file_comments.remove_ensures(index as int);
                        assert(final(self)@.files[i as int].1.file_comments =~= rv.file_comments);
                        assert(final(self)@.files =~= with_review(sv, i as int, rv).files);
                        assert forall|a: int|
                            0 <= a < rv.file_comments.len() implies (
                        #[trigger] rv.file_comments[a]).side is None by {
                            assert(rv0.wf());
                        }
                        lemma_with_review_wf(sv, i as int, rv);
                    }
                    true
                } else {
                    false
                }
            },
            None => false,
        }
    }

    /// Remove the `side_index`-th comment of effective side `side` from line
    /// `line` of the record for `path`; the line's entry goes away when its
    /// list becomes empty. Reports whether a comment was removed.
    pub fn delete_line_comment(
        &mut self,
        path: &String,
        line: u32,
        side: LineSide,
        side_index: usize,
    ) -> (r: bool)
        requires
            old(self)@.wf(),
        ensures
            final(self)@.wf(),
            ({
                let sv = old(self)@;
                let fi = path_index(sv.files, path@);
                if fi >= 0 && line_comment_found(sv.files[fi].1, line, side, side_index as int) {
                    r == true && final(self)@ == with_review(
                        sv,
                        fi,
                        without_line_comment(sv.files[fi].1, line, side, side_index as int),
                    )
                } else {
                    r == false && final(self)@ == sv
                }
            }),
    {
        let i = match self.find_file_index(path) {
            Some(i) => i,
            None => {
                return false;
            },
        };
        let k = match Self::find_line_entry(&self.files[i].1.line_comments, line) {
            Some(k) => k,
            None => {
                return false;
            },
        };
        let m = match Self::find_nth_side(&self.files[i].1.line_comments[k].1, side, side_index) {
            Some(m) => m,
            None => {
                return false;
            },
        };
        let ghost sv = self@;
        let ghost rv0 = sv.files[i as int].1;
        let ghost rv = without_line_comment(rv0, line, side, side_index as int);
        proof {
            lemma_line_entry_index_from(rv0.line_comments, line, 0);
            lemma_nth_side_index_from(rv0.line_comments[k as int].1, side, side_index as int, 0);
        }
        self.files[i].1.line_comments[k].1.remove(m);
        let now_empty = self.files[i].1.line_comments[k].1.len() == 0;
        if now_empty {
            self.files[i].1.line_comments.remove(k);
        }
        proof {
            let cs = rv0.line_comments[k as int].1;
            let cs2 = cs.remove(m as int);
            cs.remove_ensures(m as int);
            if cs2.len() == 0 {
                rv0.line_comments.update(k as int, (line, cs2)).remove_ensures(k as int);
                rv0.line_comments.remove_ensures(k as int);
                assert(final(self)@.files[i as int].1.line_comments =~~= rv.line_comments);
            } else {
                assert(final(self)@.files[i as int].1.line_comments =~~= rv.line_comments);
            }
            assert(final(self)@.files =~~= with_review(sv, i as int, rv).files);
            lemma_without_line_comment_wf(rv0, line, side, side_index as int);
            lemma_with_review_wf(sv, i as int, rv);
        }
        true
    }

    /// Number of records whose reviewed flag is set.
    pub fn reviewed_count(&self) -> (r: usize)
        ensures
            r == self@.reviewed_count(),
    {
        let mut count: usize = 0;
        let mut i: usize = 0;
        while i < self.files.len()
            invariant
                0 <= i <= self@.files.len(),
                self@.files.len() == self.files@.len(),
                count == self@.reviewed_count_to(i as int),
                count <= i,
            decreases self@.files.len() - i,
        {
            if self.files[i].1.reviewed {
                count += 1;
            }
            i += 1;
        }
        count
    }

    /// Does any record of the session hold a comment?
    pub fn has_comments(&self) -> (r: bool)
        ensures
            r == self@.has_comments(),
    {
        let mut i: usize = 0;
        while i < self.files.len()
            invariant
                0 <= i <= self@.files.len(),
                self@.files.len() == self.files@.len(),
                forall|j: int| 0 <= j < i ==> !(#[trigger] self@.files[j].1).has_comments(),
            decreases self@.files.len() - i,
        {
            if self.files[i].1.file_comments.len() > 0 || self.files[i].1.line_comments.len() > 0 {
                assert(self@.files[i as int].1.has_comments());
                return true;
            }
            i += 1;
        }
        false
    }
}

pub proof fn lemma_with_line_comment_wf(rv: FileReviewView, ln: u32, c: CommentView)
    requires
        rv.wf(),
        c.side is Some,
    ensures
        with_line_comment(rv, ln, c).wf(),
{
    let k = line_entry_index(rv.line_comments, ln);
    lemma_line_entry_index_from(rv.line_comments, ln, 0);
    let ne = with_line_comment(rv, ln, c).line_comments;
    if k >= 0 {
        assert forall|a: int, b: int| 0 <= a < b < ne.len() implies (#[trigger] ne[a].0) != (
        #[trigger] ne[b].0) by {
            assert(rv.line_comments[a].0 != rv.line_comments[b].0);
        }
    } else {
        assert forall|a: int, b: int| 0 <= a < b < ne.len() implies (#[trigger] ne[a].0) != (
        #[trigger] ne[b].0) by {
            if b < rv.line_comments.len() {
                assert(rv.line_comments[a].0 != rv.line_comments[b].0);
            } else {
                assert(ne[b].0 == ln);
                assert(rv.line_comments[a].0 != ln);
            }
        }
    }
}

/// What every lookup yields after one record is replaced, under unique
/// keys: the new record at its own key, the old answer everywhere else.
pub proof fn lemma_with_review_lookup(sv: SessionView, i: int, rv2: FileReviewView, q: Seq<char>)
    requires
        sv.wf(),
        0 <= i < sv.files.len(),
    ensures
        path_index(with_review(sv, i, rv2).files, q) == path_index(sv.files, q),
        with_review(sv, i, rv2).review_opt(q) == if q == sv.files[i].0 {
            Some(rv2)
        } else {
            sv.review_opt(q)
        },
{
    let fb = with_review(sv, i, rv2).files;
    lemma_path_index_same_keys(sv.files, fb, q, 0);
    lemma_path_index_from(sv.files, q, 0);
    let idx = path_index(sv.files, q);
    if q == sv.files[i].0 {
        assert(idx >= 0);
        if idx != i {
            if idx < i {
                assert(sv.files[idx].0 != sv.files[i].0);
            } else {
                assert(sv.files[i].0 != sv.files[idx].0);
            }
        }
        assert(idx == i);
    } else {
        if idx >= 0 {
            assert(sv.files[idx].0 == q);
            assert(idx != i);
            assert(fb[idx] == sv.files[idx]);
        }
    }
}

/// Number of comments among `cs[j..]` whose effective side is `side`.
pub open spec fn side_count(cs: Seq<CommentView>, side: LineSide, j: int) -> nat
    decreases cs.len() - j,
{
    if j < 0 || j >= cs.len() {
        0
    } else {
        (if effective_side(cs[j]) == side {
            1nat
        } else {
            0nat
        }) + side_count(cs, side, j + 1)
    }
}

/// Two entry sequences with the same keys resolve every line at the same
/// position.
pub proof fn lemma_line_entry_same_keys(
    ea: Seq<(u32, Seq<CommentView>)>,
    eb: Seq<(u32, Seq<CommentView>)>,
    ln: u32,
    i: int,
)
    requires
        ea.len() == eb.len(),
        forall|j: int| 0 <= j < ea.len() ==> (#[trigger] ea[j].0) == (#[trigger] eb[j].0),
        0 <= i,
    ensures
        line_entry_index_from(ea, ln, i) == line_entry_index_from(eb, ln, i),
    decreases ea.len() - i,
{
    if i < ea.len() {
        lemma_line_entry_same_keys(ea, eb, ln, i + 1);
    }
}

/// Appending an entry does not change the position of lines already
/// present, and makes a fresh line resolve to the new entry.
pub proof fn lemma_line_entry_push(
    entries: Seq<(u32, Seq<CommentView>)>,
    e: (u32, Seq<CommentView>),
    ln: u32,
    i: int,
)
    requires
        0 <= i <= entries.len(),
    ensures
        line_entry_index_from(entries, ln, i) >= 0 ==> line_entry_index_from(entries.push(e), ln, i)
            == line_entry_index_from(entries, ln, i),
        line_entry_index_from(entries, ln, i) == -1 && e.0 == ln ==> line_entry_index_from(
            entries.push(e),
            ln,
            i,
        ) == entries.len(),
        line_entry_index_from(entries, ln, i) == -1 && e.0 != ln ==> line_entry_index_from(
            entries.push(e),
            ln,
            i,
        ) == -1,
    decreases entries.len() - i,
{
    if i < entries.len() {
        assert(entries.push(e)[i] == entries[i]);
        lemma_line_entry_push(entries, e, ln, i + 1);
    } else {
        assert(entries.push(e)[i] == e);
        assert(line_entry_index_from(entries.push(e), ln, i + 1) == -1);
    }
}

/// Appending a record does not change the position of paths already
/// present, and makes a fresh path resolve to the new record.
pub proof fn lemma_path_index_push(
    files: Seq<(Seq<char>, FileReviewView)>,
    e: (Seq<char>, FileReviewView),
    p: Seq<char>,
    i: int,
)
    requires
        0 <= i <= files.len(),
    ensures
        path_index_from(files, p, i) >= 0 ==> path_index_from(files.push(e), p, i)
            == path_index_from(files, p, i),
        path_index_from(files, p, i) == -1 && e.0 == p ==> path_index_from(files.push(e), p, i)
            == files.len(),
        path_index_from(files, p, i) == -1 && e.0 != p ==> path_index_from(files.push(e), p, i)
            == -1,
    decreases files.len() - i,
{
    if i < files.len() {
        assert(files.push(e)[i] == files[i]);
        lemma_path_index_push(files, e, p, i + 1);
    } else {
        assert(files.push(e)[i] == e);
        assert(path_index_from(files.push(e), p, i + 1) == -1);
    }
}

/// What `comments_at` yields after one entry is replaced by another with
/// the same key, under unique keys.
pub proof fn lemma_comments_at_update(
    entries: Seq<(u32, Seq<CommentView>)>,
    k: int,
    e: (u32, Seq<CommentView>),
    q: u32,
)
    requires
        0 <= k < entries.len(),
        e.0 == entries[k].0,
        forall|a: int, b: int|
            0 <= a < b < entries.len() ==> (#[trigger] entries[a].0) != (#[trigger] entries[b].0),
    ensures
        comments_at(entries.update(k, e), q) == if q == e.0 {
            e.1
        } else {
            comments_at(entries, q)
        },
{
    let eb = entries.update(k, e);
    lemma_line_entry_same_keys(entries, eb, q, 0);
    lemma_line_entry_index_from(entries, q, 0);
    let idx = line_entry_index(entries, q);
    if idx >= 0 {
        if q == e.0 {
            if idx != k {
                assert(entries[idx].0 == q);
                assert(entries[k].0 == q);
                if idx < k {
                    assert(entries[idx].0 != entries[k].0);
                } else {
                    assert(entries[k].0 != entries[idx].0);
                }
                assert(false);
            }
        }
    }
}

/// What `comments_at` yields after one entry is removed, under unique keys.
pub proof fn lemma_comments_at_remove(entries: Seq<(u32, Seq<CommentView>)>, k: int, q: u32)
    requires
        0 <= k < entries.len(),
        forall|a: int, b: int|
            0 <= a < b < entries.len() ==> (#[trigger] entries[a].0) != (#[trigger] entries[b].0),
    ensures
        comments_at(entries.remove(k), q) == if q == entries[k].0 {
            Seq::<CommentView>::empty()
        } else {
            comments_at(entries, q)
        },
{
    entries.remove_ensures(k);
    let eb = entries.remove(k);
    lemma_line_entry_index_from(entries, q, 0);
    lemma_line_entry_index_from(eb, q, 0);
    let ia = line_entry_index(entries, q);
    let ib = line_entry_index(eb, q);
    if q == entries[k].0 {
        if ib >= 0 {
            let ib0 = if ib < k {
                ib
            } else {
                ib + 1
            };
            assert(eb[ib] == entries[ib0]);
            assert(entries[ib0].0 == q);
            assert(ia >= 0);
            if ia != k {
                if ia < k {
                    assert(entries[ia].0 != entries[k].0);
                } else {
                    assert(entries[k].0 != entries[ia].0);
                }
            }
            assert(ia == k);
            if ib0 != k {
                if ib0 < k {
                    assert(entries[ib0].0 != entries[k].0);
                } else {
                    assert(entries[k].0 != entries[ib0].0);
                }
            }
            assert(false);
        }
    } else {
        if ia >= 0 {
            assert(ia != k);
            let ja = if ia < k {
                ia
            } else {
                ia - 1
            };
            assert(eb[ja] == entries[ia]);
            assert(ib >= 0 && eb[ib].0 == q);
            let ib0 = if ib < k {
                ib
            } else {
                ib + 1
            };
            assert(eb[ib] == entries[ib0]);
            assert(entries[ib0].0 == q && entries[ia].0 == q);
            if ib0 != ia {
                if ib0 < ia {
                    assert(entries[ib0].0 != entries[ia].0);
                } else {
                    assert(entries[ia].0 != entries[ib0].0);
                }
            }
            assert(eb[ib].1 == entries[ia].1);
        } else {
            if ib >= 0 {
                let ib0 = if ib < k {
                    ib
                } else {
                    ib + 1
                };
                assert(eb[ib] == entries[ib0]);
                assert(entries[ib0].0 == q);
                assert(false);
            }
        }
    }
}

/// What every line's stored list looks like after a line comment is added:
/// the anchor line's list gains the comment at its end, every other line's
/// list is untouched.
pub proof fn lemma_comments_at_with_line(rv: FileReviewView, ln: u32, c: CommentView, q: u32)
    requires
        rv.wf(),
    ensures
        comments_at(with_line_comment(rv, ln, c).line_comments, q) == if q == ln {
            comments_at(rv.line_comments, ln).push(c)
        } else {
            comments_at(rv.line_comments, q)
        },
{
    let entries = rv.line_comments;
    let k = line_entry_index(entries, ln);
    lemma_line_entry_index_from(entries, ln, 0);
    if k >= 0 {
        lemma_comments_at_update(entries, k, (ln, entries[k].1.push(c)), q);
    } else {
        let e = (ln, seq![c]);
        lemma_line_entry_push(entries, e, q, 0);
        lemma_line_entry_index_from(entries.push(e), q, 0);
        if q == ln {
            assert(entries.push(e)[entries.len() as int] == e);
            assert(line_entry_index(entries.push(e), ln) == entries.len());
            assert(comments_at(rv.line_comments, ln) =~= Seq::<CommentView>::empty());
            assert(Seq::<CommentView>::empty().push(c) =~= seq![c]);
        } else {
            lemma_line_entry_index_from(entries, q, 0);
            let iq = line_entry_index(entries, q);
            if iq >= 0 {
                assert(entries.push(e)[iq] == entries[iq]);
            } else {
                assert(iq == -1);
            }
        }
    }
    if q == ln {
        assert(comments_at(with_line_comment(rv, ln, c).line_comments, q) =~= comments_at(
            rv.line_comments,
            ln,
        ).push(c));
    } else {
        assert(comments_at(with_line_comment(rv, ln, c).line_comments, q) =~= comments_at(
            rv.line_comments,
            q,
        ));
    }
}

/// The position, in a list extended by one comment of side `side`, of that
/// new comment within the side-filtered view: it is the old side count.
pub proof fn lemma_nth_side_push(cs: Seq<CommentView>, c: CommentView, side: LineSide, j: int)
    requires
        effective_side(c) == side,
        0 <= j <= cs.len(),
    ensures
        nth_side_index_from(cs.push(c), side, side_count(cs, side, j) as int, j) == cs.len(),
    decreases cs.len() - j,
{
    if j == cs.len() {
        assert(cs.push(c)[j] == c);
    } else {
        assert(cs.push(c)[j] == cs[j]);
        lemma_nth_side_push(cs, c, side, j + 1);
    }
}

/// Adding a line comment and then deleting the last comment of its side at
/// that line restores the record exactly.
pub proof fn lemma_add_then_delete_line(rv: FileReviewView, ln: u32, c: CommentView)
    requires
        rv.wf(),
        c.side is Some,
    ensures
        ({
            let side = effective_side(c);
            let n = side_count(comments_at(rv.line_comments, ln), side, 0) as int;
            &&& line_comment_found(with_line_comment(rv, ln, c), ln, side, n)
            &&& without_line_comment(with_line_comment(rv, ln, c), ln, side, n) == rv
        }),
{
    let side = effective_side(c);
    let entries = rv.line_comments;
    let k = line_entry_index(entries, ln);
    lemma_line_entry_index_from(entries, ln, 0);
    if k >= 0 {
        let cs = entries[k].1;
        let n = side_count(cs, side, 0) as int;
        let e2 = (ln, cs.push(c));
        let eb = entries.update(k, e2);
        lemma_line_entry_same_keys(entries, eb, ln, 0);
        lemma_nth_side_push(cs, c, side, 0);
        assert(cs.push(c).remove(cs.len() as int) =~= cs);
        assert(rv.wf());
        assert(cs.len() > 0);
        assert(eb.update(k, (ln, cs)) =~~= entries);
        assert(without_line_comment(with_line_comment(rv, ln, c), ln, side, n) =~~= rv);
    } else {
        let n: int = 0;
        let eb = entries.push((ln, seq![c]));
        lemma_line_entry_push(entries, (ln, seq![c]), ln, 0);
        assert(line_entry_index(eb, ln) == entries.len());
        assert(eb[entries.len() as int].1 == seq![c]);
        assert(nth_side_index(seq![c], side, 0) == 0);
        assert(seq![c].remove(0) =~= Seq::<CommentView>::empty());
        assert(comments_at(entries, ln) =~= Seq::<CommentView>::empty());
        assert(side_count(comments_at(entries, ln), side, 0) == 0);
        assert(eb.remove(entries.len() as int) =~~= entries);
        assert(without_line_comment(with_line_comment(rv, ln, c), ln, side, n) =~~= rv);
    }
}

pub proof fn lemma_without_line_comment_wf(rv: FileReviewView, ln: u32, side: LineSide, n: int)
    requires
        rv.wf(),
        line_comment_found(rv, ln, side, n),
        0 <= n,
    ensures
        without_line_comment(rv, ln, side, n).wf(),
{
    let k = line_entry_index(rv.line_comments, ln);
    lemma_line_entry_index_from(rv.line_comments, ln, 0);
    let cs = rv.line_comments[k].1;
    let m = nth_side_index(cs, side, n);
    lemma_nth_side_index_from(cs, side, n, 0);
    let cs2 = cs.remove(m);
    cs.remove_ensures(m);
    let ne = without_line_comment(rv, ln, side, n).line_comments;
    if cs2.len() == 0 {
        rv.line_comments.remove_ensures(k);
        assert forall|a: int, b: int| 0 <= a < b < ne.len() implies (#[trigger] ne[a].0) != (
        #[trigger] ne[b].0) by {
            let a0 = if a < k {
                a
            } else {
                a + 1
            };
            let b0 = if b < k {
                b
            } else {
                b + 1
            };
            assert(ne[a].0 == rv.line_comments[a0].0);
            assert(ne[b].0 == rv.line_comments[b0].0);
        }
    } else {
        assert forall|a: int, b: int| 0 <= a < b < ne.len() implies (#[trigger] ne[a].0) != (
        #[trigger] ne[b].0) by {
            assert(rv.line_comments[a].0 != rv.line_comments[b].0);
        }
    }
}

} // verus!
