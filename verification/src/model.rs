//! Data model: diff snapshot types (files, hunks, lines) and review types
//! (comments, per-file review state, review session).

use vstd::prelude::*;

verus! {

/// Origin of a single diff line.
#[derive(Debug, Clone, Copy, PartialEq, Eq, Structural)]
pub enum LineOrigin {
    Addition,
    Deletion,
    Context,
}

/// Status of a changed file in the snapshot.
#[derive(Debug, Clone, Copy, PartialEq, Eq, Structural)]
pub enum FileStatus {
    Added,
    Modified,
    Deleted,
    Renamed,
    Untracked,
}

/// Which version of a line a comment anchors to: the pre-change (old) or
/// post-change (new) side of the diff.
#[derive(Debug, Clone, Copy, PartialEq, Eq, Structural)]
pub enum LineSide {
    Old,
    New,
}

/// The kind of a review comment.
#[derive(Debug, Clone, Copy, PartialEq, Eq, Structural)]
pub enum CommentType {
    Note,
    Suggestion,
    Issue,
    Praise,
}

impl CommentType {
    /// Upper-case label used in exported reports.
    pub fn as_str(&self) -> (r: &'static str)
        ensures
            r@ == self.spec_str(),
    {
        match self {
            CommentType::Note => "NOTE",
            CommentType::Suggestion => "SUGGESTION",
            CommentType::Issue => "ISSUE",
            CommentType::Praise => "PRAISE",
        }
    }

    pub open spec fn spec_str(self) -> Seq<char> {
        match self {
            CommentType::Note => "NOTE"@,
            CommentType::Suggestion => "SUGGESTION"@,
            CommentType::Issue => "ISSUE"@,
            CommentType::Praise => "PRAISE"@,
        }
    }
}

/// A review comment. `side` is `Some` exactly for line comments; file-level
/// comments carry `None`. The content may hold embedded line breaks.
#[derive(Debug, Clone, PartialEq, Eq)]
pub struct Comment {
    pub content: String,
    pub comment_type: CommentType,
    pub side: Option<LineSide>,
}

/// Mathematical image of a `Comment`.
#[verifier::ext_equal]
pub ghost struct CommentView {
    pub content: Seq<char>,
    pub comment_type: CommentType,
    pub side: Option<LineSide>,
}

impl View for Comment {
    type V = CommentView;

    open spec fn view(&self) -> CommentView {
        CommentView {
            content: self.content@,
            comment_type: self.comment_type,
            side: self.side,
        }
    }
}

impl DeepView for Comment {
    type V = CommentView;

    open spec fn deep_view(&self) -> CommentView {
        self.view()
    }
}

impl Comment {
    pub fn new(content: String, comment_type: CommentType, side: Option<LineSide>) -> (r: Comment)
        ensures
            r@ == (CommentView { content: content@, comment_type, side }),
    {
        Comment { content, comment_type, side }
    }
}

/// Number of `'\n'` characters among the first `n` characters of `s`.
pub open spec fn newline_count_prefix(s: Seq<char>, n: int) -> nat
    decreases n,
{
    if n <= 0 {
        0
    } else {
        newline_count_prefix(s, n - 1) + (if n <= s.len() && s[n - 1] == '\n' {
            1nat
        } else {
            0nat
        })
    }
}

/// Number of `'\n'` characters in `s`.
pub open spec fn newline_count(s: Seq<char>) -> nat {
    newline_count_prefix(s, s.len() as int)
}

/// A single line of a diff hunk. At least one of the two line numbers is
/// present: context lines carry both, additions only the new number,
/// deletions only the old one.
#[derive(Debug, Clone, PartialEq, Eq)]
pub struct DiffLine {
    pub origin: LineOrigin,
    pub old_lineno: Option<u32>,
    pub new_lineno: Option<u32>,
    pub content: String,
}

#[verifier::ext_equal]
pub ghost struct DiffLineView {
    pub origin: LineOrigin,
    pub old_lineno: Option<u32>,
    pub new_lineno: Option<u32>,
    pub content: Seq<char>,
}

impl View for DiffLine {
    type V = DiffLineView;

    open spec fn view(&self) -> DiffLineView {
        DiffLineView {
            origin: self.origin,
            old_lineno: self.old_lineno,
            new_lineno: self.new_lineno,
            content: self.content@,
        }
    }
}

impl DeepView for DiffLine {
    type V = DiffLineView;

    open spec fn deep_view(&self) -> DiffLineView {
        self.view()
    }
}

impl DiffLineView {
    /// The structural invariant of a diff line: its numbers agree with its
    /// origin.
    pub open spec fn wf(self) -> bool {
        match self.origin {
            LineOrigin::Context => self.old_lineno is Some && self.new_lineno is Some,
            LineOrigin::Addition => self.old_lineno is None && self.new_lineno is Some,
            LineOrigin::Deletion => self.old_lineno is Some && self.new_lineno is None,
        }
    }
}

/// A contiguous block of changed and context lines within one file's diff.
#[derive(Debug, Clone, PartialEq, Eq)]
pub struct Hunk {
    pub header: String,
    pub lines: Vec<DiffLine>,
}

#[verifier::ext_equal]
pub ghost struct HunkView {
    pub header: Seq<char>,
    pub lines: Seq<DiffLineView>,
}

impl View for Hunk {
    type V = HunkView;

    open spec fn view(&self) -> HunkView {
        HunkView { header: self.header@, lines: self.lines.deep_view() }
    }
}

impl DeepView for Hunk {
    type V = HunkView;

    open spec fn deep_view(&self) -> HunkView {
        self.view()
    }
}

/// One changed file of the diff snapshot, addressed by its current display
/// path.
#[derive(Debug, Clone, PartialEq, Eq)]
pub struct DiffFile {
    pub path: String,
    pub status: FileStatus,
    pub is_binary: bool,
    pub hunks: Vec<Hunk>,
}

#[verifier::ext_equal]
pub ghost struct DiffFileView {
    pub path: Seq<char>,
    pub status: FileStatus,
    pub is_binary: bool,
    pub hunks: Seq<HunkView>,
}

impl View for DiffFile {
    type V = DiffFileView;

    open spec fn view(&self) -> DiffFileView {
        DiffFileView {
            path: self.path@,
            status: self.status,
            is_binary: self.is_binary,
            hunks: self.hunks.deep_view(),
        }
    }
}

impl DeepView for DiffFile {
    type V = DiffFileView;

    open spec fn deep_view(&self) -> DiffFileView {
        self.view()
    }
}

impl DiffFile {
    /// The path a file is addressed by: after rename resolution this is the
    /// current display path.
    pub fn display_path(&self) -> (r: &String)
        ensures
            r@ == self@.path,
    {
        &self.path
    }
}

} // verus!
