//! The navigation and mutation controller: the stateful cursor, scroll and
//! selection object. It reads positions from the virtual line index and is
//! the only writer of the review session.
//!
//! The central invariant is viewport containment: whenever the viewport has
//! a height, every operation leaves the cursor inside the scrolled-to
//! window, moving the scroll offset — never the cursor — the minimal
//! distance that restores it.

use vstd::prelude::*;

use crate::index::{Location, calculate_file_scroll_offset, calculate_file_scroll_offset_approx,
    comment_height, distinct_paths, file_height_expanded, side_comments_height, distinct_paths_x, expanded_total_clipped, file_height, file_render_height,
    fits, lemma_body_mono, lemma_ch_remove,
    lemma_expanded_one_path_le, lemma_file_span_in_total, lemma_heights_congruence,
    lemma_heights_from_nonneg, lemma_rows_from_len,
    lemma_rows_owner, lemma_side_remove_le, locate, offset_approx_of, offset_of,
    review_for, rows, snap_index, snap_index_from, total_height, total_lines};
use crate::model::{Comment, CommentType, CommentView, DiffFile, DiffFileView, LineSide};
use crate::session::{FileReview, FileReviewView, ReviewSession, SessionView, comments_at, effective_side,
    flip_reviewed, lemma_add_then_delete_line, lemma_comments_at_remove, lemma_comments_at_update,
    lemma_line_entry_index_from, lemma_nth_side_index_from, lemma_path_index_from,
    lemma_path_index_push, lemma_with_review_lookup, line_comment_found, line_entry_index,
    nth_side_index, path_index, side_count, with_file_comment, with_line_comment, with_review,
    without_file_comment, without_line_comment};
use crate::text::{push_decimal, trim_spec, trimmed};
use vstd::string::StrSliceExecFns;
use vstd::string::StringExecFns;

verus! {

/// The input mode the controller is in.
#[derive(Debug, Clone, Copy, PartialEq, Eq, Structural)]
pub enum InputMode {
    Normal,
    Comment,
    Command,
    Help,
    Confirm,
}

/// An action awaiting the user's confirmation.
#[derive(Debug, Clone, Copy, PartialEq, Eq, Structural)]
pub enum ConfirmAction {
    CopyAndQuit,
}

/// Which panel has keyboard focus.
#[derive(Debug, Clone, Copy, PartialEq, Eq, Structural)]
pub enum FocusedPanel {
    FileList,
    Diff,
}

/// Severity of a transient status message.
#[derive(Debug, Clone, Copy, PartialEq, Eq, Structural)]
pub enum MessageType {
    Info,
    Warning,
    Error,
}

/// A transient status message.
#[derive(Debug, Clone, PartialEq, Eq)]
pub struct Message {
    pub content: String,
    pub message_type: MessageType,
}

/// A resolved comment position: the owning file's path, for line comments
/// the anchoring line and side, and the index within the side-filtered
/// view of its scope.
#[derive(Debug, Clone, PartialEq, Eq)]
pub enum CommentLocation {
    FileComment { path: String, index: usize },
    LineComment { path: String, line: u32, side: LineSide, index: usize },
}

/// Selection state of the file-list panel.
#[derive(Debug, Clone, Copy, PartialEq, Eq, Structural)]
pub struct FileListState {
    pub selected: usize,
}

/// Cursor and scroll state of the diff panel. All vertical positions index
/// the flattened line space; the viewport height is handed in by the
/// renderer each frame.
#[derive(Debug, Clone, Copy, PartialEq, Eq, Structural)]
pub struct DiffState {
    pub scroll_offset: usize,
    pub scroll_x: usize,
    pub cursor_line: usize,
    pub current_file_idx: usize,
    pub viewport_height: usize,
}

/// Index of the file whose exact span contains the flattened position
/// `pos`, scanning from `i`; the last file when `pos` lies past the end,
/// and 0 for an empty snapshot.
pub open spec fn file_index_at(
    files: Seq<DiffFileView>,
    sv: SessionView,
    pos: int,
    i: int,
) -> int
    decreases files.len() - i,
{
    if i < 0 || i >= files.len() {
        if files.len() == 0 {
            0
        } else {
            files.len() - 1
        }
    } else if pos < offset_of(files, sv, i + 1) {
        i
    } else {
        file_index_at(files, sv, pos, i + 1)
    }
}

/// The new cursor after moving `n` lines down: clamped to the last line.
pub open spec fn cursor_after_down(c: int, n: int, total: int) -> int {
    let m = if total > 0 {
        total - 1
    } else {
        0
    };
    if c + n <= m {
        c + n
    } else {
        m
    }
}

/// The new cursor after moving `n` lines up: saturated at the first line.
pub open spec fn cursor_after_up(c: int, n: int) -> int {
    if c >= n {
        c - n
    } else {
        0
    }
}

/// The scroll offset after re-establishing viewport containment: moved up
/// or down the minimal distance that brings the cursor into the window.
pub open spec fn visible_scroll(cursor: int, scroll: int, vh: int) -> int {
    let vp = if vh > 0 {
        vh
    } else {
        1
    };
    if cursor < scroll {
        cursor
    } else if cursor >= scroll + vp {
        cursor - vp + 1
    } else {
        scroll
    }
}

/// The file the reload remap re-selects: the old path's position when the
/// path survives, else the old index clamped into the new range.
pub open spec fn reload_target(
    nfv: Seq<DiffFileView>,
    prev_path: Option<Seq<char>>,
    prev_idx: int,
) -> int {
    let m = nfv.len() - 1;
    let clamped = if prev_idx <= m {
        prev_idx
    } else {
        m
    };
    match prev_path {
        Some(p) => {
            let si = snap_index(nfv, p);
            if si >= 0 {
                si
            } else {
                clamped
            }
        },
        None => clamped,
    }
}

/// The cursor's file-relative offset before a reload, measured against the
/// approximate (comment-free) heights.
pub open spec fn reload_prev_relative(app: App) -> int {
    if app.files_view().len() == 0 {
        0
    } else {
        let s = offset_approx_of(
            app.files_view(),
            app.session_view(),
            app.diff_state.current_file_idx as int,
        );
        if app.diff_state.cursor_line as int >= s {
            app.diff_state.cursor_line as int - s
        } else {
            0
        }
    }
}

/// Number of comments of effective side `side` stored at line `ln`.
fn count_side_at(fr: &FileReview, ln: u32, side: LineSide) -> (r: usize)
    ensures
        r as int == side_count(comments_at(fr@.line_comments, ln), side, 0) as int,
{
    match ReviewSession::find_line_entry(&fr.line_comments, ln) {
        Some(k) => {
            proof {
                assert(comments_at(fr@.line_comments, ln) == fr@.line_comments[k as int].1);
                assert(fr.line_comments@[k as int].1.deep_view() == fr@.line_comments[k as int].1);
            }
            let cs = &fr.line_comments[k].1;
            let ghost csv = cs.deep_view();
            let mut cnt: usize = 0;
            let mut j: usize = 0;
            while j < cs.len()
                invariant
                    0 <= j <= csv.len(),
                    csv == cs.deep_view(),
                    csv.len() == cs@.len(),
                    cnt <= j,
                    cnt as int == side_count(csv, side, 0) as int - side_count(
                        csv,
                        side,
                        j as int,
                    ) as int,
                decreases csv.len() - j,
            {
                proof {
                    assert(csv[j as int] == cs@[j as int]@);
                    assert(side_count(csv, side, j as int) == (if effective_side(csv[j as int])
                        == side {
                        1nat
                    } else {
                        0nat
                    }) + side_count(csv, side, j + 1));
                }
                let es = match cs[j].side {
                    Some(LineSide::Old) => LineSide::Old,
                    _ => LineSide::New,
                };
                if es == side {
                    cnt += 1;
                }
                j += 1;
            }
            cnt
        },
        None => {
            proof {
                assert(comments_at(fr@.line_comments, ln) =~= Seq::<CommentView>::empty());
            }
            0
        },
    }
}

/// Position of the first snapshot file whose display path is `p`.
fn find_path_position(files: &Vec<DiffFile>, p: &String) -> (r: Option<usize>)
    ensures
        match r {
            Some(j) => 0 <= j < files.deep_view().len() && snap_index(files.deep_view(), p@)
                == j,
            None => snap_index(files.deep_view(), p@) == -1,
        },
{
    let ghost fvv = files.deep_view();
    let mut j: usize = 0;
    while j < files.len()
        invariant
            0 <= j <= fvv.len(),
            fvv == files.deep_view(),
            fvv.len() == files@.len(),
            snap_index_from(fvv, p@, 0) == snap_index_from(fvv, p@, j as int),
        decreases fvv.len() - j,
    {
        if files[j].path == *p {
            proof {
                assert(fvv[j as int].path == p@);
            }
            return Some(j);
        }
        proof {
            assert(fvv[j as int].path == files@[j as int].path@);
        }
        j += 1;
    }
    None
}

/// The interactive review application: one diff snapshot, one review
/// session, and the controller state around them.
///
/// The snapshot and the session may only be replaced or mutated through the
/// methods here, which keep the structural invariants; the remaining fields
/// (buffers, modes, flags, viewport height) are free for the surrounding
/// program to read and write.
#[derive(Debug)]
pub struct App {
    pub session: ReviewSession,
    pub diff_files: Vec<DiffFile>,
    pub input_mode: InputMode,
    pub focused_panel: FocusedPanel,
    pub file_list_state: FileListState,
    pub diff_state: DiffState,
    pub command_buffer: String,
    pub comment_buffer: String,
    pub comment_cursor: usize,
    pub comment_type: CommentType,
    pub comment_is_file_level: bool,
    pub comment_line: Option<(u32, LineSide)>,
    pub should_quit: bool,
    pub dirty: bool,
    pub message: Option<Message>,
    pub pending_confirm: Option<ConfirmAction>,
}

impl App {
    /// The snapshot's mathematical image.
    pub open spec fn files_view(self) -> Seq<DiffFileView> {
        self.diff_files.deep_view()
    }

    /// The session's mathematical image.
    pub open spec fn session_view(self) -> SessionView {
        self.session@
    }

    /// Total number of lines of the flattened space.
    pub open spec fn spec_total_lines(self) -> int {
        total_height(self.files_view(), self.session_view())
    }

    /// Structural well-formedness: the session is well-formed, the
    /// flattened space fits the machine under every reviewed-flag
    /// assignment, the snapshot's paths are unique, and the file selection
    /// is in range.
    pub open spec fn wf(self) -> bool {
        &&& self.session_view().wf()
        &&& fits(self.files_view(), self.session_view())
        &&& distinct_paths(self.files_view())
        &&& forall|j: int|
            0 <= j < self.files_view().len() ==> self.session_view().contains_path(
                (#[trigger] self.files_view()[j]).path,
            )
        &&& self.files_view().len() > 0 ==> self.diff_state.current_file_idx
            < self.files_view().len() && self.file_list_state.selected < self.files_view().len()
        &&& self.files_view().len() == 0 ==> self.diff_state.current_file_idx == 0
            && self.file_list_state.selected == 0
    }

    /// The viewport containment invariant: whenever the viewport has a
    /// height, the cursor lies inside the scrolled-to window.
    pub open spec fn contained(self) -> bool {
        self.diff_state.viewport_height > 0 ==> {
            &&& self.diff_state.scroll_offset <= self.diff_state.cursor_line
            &&& (self.diff_state.cursor_line as int) < self.diff_state.scroll_offset as int
                + self.diff_state.viewport_height as int
        }
    }

    /// The state after a jump to file `t`'s header, relative to the state
    /// `prev` before it: the cursor stands on the header line, the header
    /// is the top of the viewport, both selections point at `t`, and the
    /// horizontal offset and viewport are untouched.
    pub open spec fn jumped_to(self, prev: App, t: int) -> bool {
        &&& self.diff_state.cursor_line as int == offset_of(
            prev.files_view(),
            prev.session_view(),
            t,
        )
        &&& self.diff_state.scroll_offset == self.diff_state.cursor_line
        &&& self.diff_state.current_file_idx as int == t
        &&& self.file_list_state.selected as int == t
        &&& self.diff_state.scroll_x == prev.diff_state.scroll_x
        &&& self.diff_state.viewport_height == prev.diff_state.viewport_height
        &&& self.contained()
    }

    /// Everything except the controller's cursor/scroll/selection state is
    /// unchanged.
    pub open spec fn same_but_view_state(self, other: App) -> bool {
        self == (App {
            file_list_state: self.file_list_state,
            diff_state: self.diff_state,
            ..other
        })
    }

    /// Build the application around a session and an initial snapshot.
    /// Every snapshot path is recorded in the session; existing records are
    /// kept. Yields `None` when the snapshot's paths collide or the
    /// flattened space cannot be addressed by the machine.
    pub fn new(session: ReviewSession, diff_files: Vec<DiffFile>) -> (r: Option<App>)
        requires
            session@.wf(),
        ensures
            match r {
                Some(app) => {
                    &&& app.wf()
                    &&& app.contained()
                    &&& app.diff_files@ == diff_files@
                    &&& forall|p: Seq<char>|
                        #[trigger] review_for(app.session_view(), p) == review_for(session@, p)
                    &&& app.session@.root_path == session@.root_path
                    &&& app.session@.base_commit == session@.base_commit
                    &&& app.session@.session_notes == session@.session_notes
                    &&& app.diff_state == (DiffState {
                        scroll_offset: 0,
                        scroll_x: 0,
                        cursor_line: 0,
                        current_file_idx: 0,
                        viewport_height: 0,
                    })
                    &&& app.input_mode == InputMode::Normal
                    &&& app.focused_panel == FocusedPanel::Diff
                    &&& app.file_list_state.selected == 0
                    &&& app.dirty == false
                    &&& app.should_quit == false
                    &&& app.message is None
                    &&& app.pending_confirm is None
                    &&& app.command_buffer@ == Seq::<char>::empty()
                    &&& app.comment_buffer@ == Seq::<char>::empty()
                    &&& app.comment_cursor == 0
                    &&& app.comment_type == CommentType::Note
                    &&& app.comment_is_file_level == true
                    &&& app.comment_line is None
                },
                None => !(distinct_paths(diff_files.deep_view()) && fits(
                    diff_files.deep_view(),
                    ingest_spec(session@, diff_files.deep_view(), 0),
                )),
            },
    {
        let mut session = session;
        ingest(&mut session, &diff_files);
        if !distinct_paths_x(&diff_files) {
            return None;
        }
        let t = expanded_total_clipped(&diff_files, &session);
        if t >= usize::MAX {
            return None;
        }
        Some(
            App {
                session,
                diff_files,
                input_mode: InputMode::Normal,
                focused_panel: FocusedPanel::Diff,
                file_list_state: FileListState { selected: 0 },
                diff_state: DiffState {
                    scroll_offset: 0,
                    scroll_x: 0,
                    cursor_line: 0,
                    current_file_idx: 0,
                    viewport_height: 0,
                },
                command_buffer: String::new(),
                comment_buffer: String::new(),
                comment_cursor: 0,
                comment_type: CommentType::Note,
                comment_is_file_level: true,
                comment_line: None,
                should_quit: false,
                dirty: false,
                message: None,
                pending_confirm: None,
            },
        )
    }
}

/// A session with one path recorded: unchanged when the path is known,
/// extended by a fresh record otherwise.
pub open spec fn add_path_spec(sv: SessionView, p: Seq<char>) -> SessionView {
    if path_index(sv.files, p) >= 0 {
        sv
    } else {
        SessionView { files: sv.files.push((p, FileReviewView::empty())), ..sv }
    }
}

/// The session after the paths of `files[i..]` have been recorded in
/// order.
pub open spec fn ingest_spec(sv: SessionView, files: Seq<DiffFileView>, i: int) -> SessionView
    decreases files.len() - i,
{
    if i < 0 || i >= files.len() {
        sv
    } else {
        ingest_spec(add_path_spec(sv, files[i].path), files, i + 1)
    }
}

/// Record every snapshot path in the session, creating fresh records for
/// paths seen for the first time and leaving existing records untouched:
/// no lookup changes its answer, and every snapshot path has a record
/// afterwards.
fn ingest(session: &mut ReviewSession, files: &Vec<DiffFile>)
    requires
        old(session)@.wf(),
    ensures
        final(session)@ == ingest_spec(old(session)@, files.deep_view(), 0),
        final(session)@.wf(),
        final(session)@.root_path == old(session)@.root_path,
        final(session)@.base_commit == old(session)@.base_commit,
        final(session)@.session_notes == old(session)@.session_notes,
        forall|p: Seq<char>|
            #[trigger] review_for(final(session)@, p) == review_for(old(session)@, p),
        forall|j: int|
            0 <= j < files.deep_view().len() ==> final(session)@.contains_path(
                #[trigger] files.deep_view()[j].path,
            ),
        final(session)@.files.len() >= old(session)@.files.len(),
        final(session)@.files.subrange(0, old(session)@.files.len() as int) == old(
            session,
        )@.files,
{
    let ghost sv0 = session@;
    let ghost fv = files.deep_view();
    let mut i: usize = 0;
    while i < files.len()
        invariant
            0 <= i <= fv.len(),
            fv == files.deep_view(),
            fv.len() == files@.len(),
            ingest_spec(sv0, fv, 0) == ingest_spec(session@, fv, i as int),
            session@.wf(),
            session@.root_path == sv0.root_path,
            session@.base_commit == sv0.base_commit,
            session@.session_notes == sv0.session_notes,
            forall|p: Seq<char>| #[trigger] review_for(session@, p) == review_for(sv0, p),
            forall|j: int| 0 <= j < i ==> session@.contains_path(#[trigger] fv[j].path),
            session@.files.len() >= sv0.files.len(),
            session@.files.subrange(0, sv0.files.len() as int) == sv0.files,
            forall|k: int|
                sv0.files.len() <= k < session@.files.len() ==> (#[trigger] session@.files[k]).1
                    == FileReviewView::empty(),
        decreases fv.len() - i,
    {
        let ghost svb = session@;
        let path = files[i].display_path().clone();
        proof {
            assert(files@[i as int]@ == fv[i as int]);
        }
        session.add_file(path);
        proof {
            assert(session@ == add_path_spec(svb, fv[i as int].path));
            if !svb.contains_path(fv[i as int].path) {
                let e = (fv[i as int].path, FileReviewView::empty());
                assert(session@.files == svb.files.push(e));
                assert(session@.files[svb.files.len() as int] == e);
                crate::session::lemma_path_index_from(svb.files, fv[i as int].path, 0);
                lemma_path_index_push(svb.files, e, fv[i as int].path, 0);
                assert(path_index(svb.files, fv[i as int].path) == -1);
                assert(session@.contains_path(fv[i as int].path));
                assert forall|p: Seq<char>| #[trigger]
                    review_for(session@, p) == review_for(sv0, p) by {
                    lemma_path_index_push(svb.files, e, p, 0);
                    crate::session::lemma_path_index_from(svb.files, p, 0);
                    let idx = path_index(svb.files, p);
                    if idx >= 0 {
                        assert(session@.files[idx] == svb.files[idx]);
                        assert(review_for(session@, p) == review_for(svb, p));
                    } else if p == fv[i as int].path {
                        assert(path_index(session@.files, p) == svb.files.len());
                        assert(review_for(session@, p) == FileReviewView::empty());
                        assert(review_for(svb, p) == FileReviewView::empty());
                    } else {
                        assert(path_index(session@.files, p) == -1);
                    }
                    assert(review_for(svb, p) == review_for(sv0, p));
                }
                assert(session@.files.subrange(0, sv0.files.len() as int) =~= sv0.files);
            }
            assert(session@.contains_path(fv[i as int].path));
            assert forall|j: int| 0 <= j < i + 1 implies session@.contains_path(
                #[trigger] fv[j].path,
            ) by {
                if j < i {
                    assert(svb.contains_path(fv[j].path));
                    if session@.files != svb.files {
                        let e = (fv[i as int].path, FileReviewView::empty());
                        lemma_path_index_push(svb.files, e, fv[j].path, 0);
                    }
                }
            }
        }
        i += 1;
    }
}

impl App {
    /// Total number of lines of the flattened space.
    pub fn total_lines(&self) -> (r: usize)
        requires
            self.wf(),
        ensures
            r as int == self.spec_total_lines(),
    {
        total_lines(&self.diff_files, &self.session)
    }

    /// The file the cursor-derived selection points at.
    pub fn current_file(&self) -> (r: Option<&DiffFile>)
        requires
            self.wf(),
        ensures
            match r {
                Some(f) => self.files_view().len() > 0 && f@ == self.files_view()[
                    self.diff_state.current_file_idx as int],
                None => self.files_view().len() == 0,
            },
    {
        if self.diff_state.current_file_idx < self.diff_files.len() {
            proof {
                assert(self.diff_files@[self.diff_state.current_file_idx as int]@
                    == self.files_view()[self.diff_state.current_file_idx as int]);
            }
            Some(&self.diff_files[self.diff_state.current_file_idx])
        } else {
            None
        }
    }

    /// The display path of the currently selected file.
    pub fn current_file_path(&self) -> (r: Option<&String>)
        requires
            self.wf(),
        ensures
            match r {
                Some(p) => self.files_view().len() > 0 && p@ == self.files_view()[
                    self.diff_state.current_file_idx as int].path,
                None => self.files_view().len() == 0,
            },
    {
        match self.current_file() {
            Some(f) => Some(f.display_path()),
            None => None,
        }
    }

    /// Number of files in the snapshot.
    pub fn file_count(&self) -> (r: usize)
        ensures
            r == self.files_view().len(),
    {
        self.diff_files.len()
    }

    /// Number of session records whose reviewed flag is set.
    pub fn reviewed_count(&self) -> (r: usize)
        ensures
            r == self.session_view().reviewed_count(),
    {
        self.session.reviewed_count()
    }

    /// Show an informational status message.
    pub fn set_message(&mut self, msg: String)
        ensures
            *final(self) == (App {
                message: Some(Message { content: msg, message_type: MessageType::Info }),
                ..*old(self)
            }),
    {
        self.message = Some(Message { content: msg, message_type: MessageType::Info });
    }

    /// Show a warning status message.
    pub fn set_warning(&mut self, msg: String)
        ensures
            *final(self) == (App {
                message: Some(Message { content: msg, message_type: MessageType::Warning }),
                ..*old(self)
            }),
    {
        self.message = Some(Message { content: msg, message_type: MessageType::Warning });
    }

    /// Show an error status message.
    pub fn set_error(&mut self, msg: String)
        ensures
            *final(self) == (App {
                message: Some(Message { content: msg, message_type: MessageType::Error }),
                ..*old(self)
            }),
    {
        self.message = Some(Message { content: msg, message_type: MessageType::Error });
    }

    /// Re-establish viewport containment by moving the scroll offset the
    /// minimal distance that brings the cursor into the window; the cursor
    /// never moves.
    fn ensure_cursor_visible(&mut self)
        ensures
            final(self).diff_state == (DiffState {
                scroll_offset: final(self).diff_state.scroll_offset,
                ..old(self).diff_state
            }),
            final(self).diff_state.scroll_offset as int == visible_scroll(
                old(self).diff_state.cursor_line as int,
                old(self).diff_state.scroll_offset as int,
                old(self).diff_state.viewport_height as int,
            ),
            final(self).contained(),
            final(self).file_list_state == old(self).file_list_state,
            final(self).same_but_view_state(*old(self)),
    {
        let vp: usize = if self.diff_state.viewport_height > 0 {
            self.diff_state.viewport_height
        } else {
            1
        };
        if self.diff_state.cursor_line < self.diff_state.scroll_offset {
            self.diff_state.scroll_offset = self.diff_state.cursor_line;
        } else if self.diff_state.cursor_line - self.diff_state.scroll_offset >= vp {
            self.diff_state.scroll_offset = self.diff_state.cursor_line - vp + 1;
        }
    }

    /// Re-derive the selected file from the cursor position: the file whose
    /// exact span contains it, or the last file when the cursor lies past
    /// the end.
    fn update_current_file_from_cursor(&mut self)
        requires
            old(self).wf(),
        ensures
            final(self).wf(),
            final(self).diff_state == (DiffState {
                current_file_idx: final(self).diff_state.current_file_idx,
                ..old(self).diff_state
            }),
            final(self).diff_state.current_file_idx as int == file_index_at(
                old(self).files_view(),
                old(self).session_view(),
                old(self).diff_state.cursor_line as int,
                0,
            ),
            old(self).files_view().len() > 0 ==> final(self).file_list_state.selected == final(
                self).diff_state.current_file_idx,
            old(self).files_view().len() == 0 ==> final(self).file_list_state == old(
                self).file_list_state,
            final(self).same_but_view_state(*old(self)),
    {
        let ghost fv = self.files_view();
        let ghost sv = self.session_view();
        let ghost pos = self.diff_state.cursor_line as int;
        let mut cum: usize = 0;
        let mut i: usize = 0;
        while i < self.diff_files.len()
            invariant
                0 <= i <= fv.len(),
                *self == *old(self),
                fv == self.files_view(),
                sv == self.session_view(),
                pos == self.diff_state.cursor_line as int,
                fv.len() == self.diff_files@.len(),
                self.wf(),
                cum as int == offset_of(fv, sv, i as int),
                file_index_at(fv, sv, pos, 0) == file_index_at(fv, sv, pos, i as int),
            decreases fv.len() - i,
        {
            proof {
                assert(self.diff_files@[i as int]@ == fv[i as int]);
                lemma_file_span_in_total(fv, sv, i as int);
                lemma_heights_from_nonneg(fv, sv, 0);
            }
            let h = crate::index::file_render_height(&self.diff_files[i], &self.session);
            if cum + h > self.diff_state.cursor_line {
                self.diff_state.current_file_idx = i;
                self.file_list_state.selected = i;
                return;
            }
            cum += h;
            i += 1;
        }
        if self.diff_files.len() > 0 {
            let last = self.diff_files.len() - 1;
            self.diff_state.current_file_idx = last;
            self.file_list_state.selected = last;
        }
    }

    /// Move the cursor `lines` down, clamped to the last flattened line,
    /// then restore viewport containment and re-derive the file selection.
    pub fn cursor_down(&mut self, lines: usize)
        requires
            old(self).wf(),
        ensures
            final(self).wf(),
            final(self).contained(),
            final(self).same_but_view_state(*old(self)),
            final(self).diff_state.cursor_line as int == cursor_after_down(
                old(self).diff_state.cursor_line as int,
                lines as int,
                old(self).spec_total_lines(),
            ),
            final(self).diff_state.scroll_offset as int == visible_scroll(
                final(self).diff_state.cursor_line as int,
                old(self).diff_state.scroll_offset as int,
                old(self).diff_state.viewport_height as int,
            ),
            final(self).diff_state.current_file_idx as int == file_index_at(
                old(self).files_view(),
                old(self).session_view(),
                final(self).diff_state.cursor_line as int,
                0,
            ),
            final(self).diff_state.scroll_x == old(self).diff_state.scroll_x,
            final(self).diff_state.viewport_height == old(self).diff_state.viewport_height,
    {
        let total = self.total_lines();
        let max_line: usize = if total > 0 {
            total - 1
        } else {
            0
        };
        let c = self.diff_state.cursor_line;
        let moved: usize = if lines <= usize::MAX - c {
            c + lines
        } else {
            usize::MAX
        };
        self.diff_state.cursor_line = if moved < max_line {
            moved
        } else {
            max_line
        };
        self.ensure_cursor_visible();
        self.update_current_file_from_cursor();
    }

    /// Move the cursor `lines` up, saturating at the first flattened line,
    /// then restore viewport containment and re-derive the file selection.
    pub fn cursor_up(&mut self, lines: usize)
        requires
            old(self).wf(),
        ensures
            final(self).wf(),
            final(self).contained(),
            final(self).same_but_view_state(*old(self)),
            final(self).diff_state.cursor_line as int == cursor_after_up(
                old(self).diff_state.cursor_line as int,
                lines as int,
            ),
            final(self).diff_state.scroll_offset as int == visible_scroll(
                final(self).diff_state.cursor_line as int,
                old(self).diff_state.scroll_offset as int,
                old(self).diff_state.viewport_height as int,
            ),
            final(self).diff_state.current_file_idx as int == file_index_at(
                old(self).files_view(),
                old(self).session_view(),
                final(self).diff_state.cursor_line as int,
                0,
            ),
            final(self).diff_state.scroll_x == old(self).diff_state.scroll_x,
            final(self).diff_state.viewport_height == old(self).diff_state.viewport_height,
    {
        let c = self.diff_state.cursor_line;
        self.diff_state.cursor_line = if c >= lines {
            c - lines
        } else {
            0
        };
        self.ensure_cursor_visible();
        self.update_current_file_from_cursor();
    }

    /// Page scrolling: move cursor and scroll offset down together, both
    /// clamped to the last flattened line, then restore containment.
    pub fn scroll_down(&mut self, lines: usize)
        requires
            old(self).wf(),
        ensures
            final(self).wf(),
            final(self).contained(),
            final(self).same_but_view_state(*old(self)),
            final(self).diff_state.cursor_line as int == cursor_after_down(
                old(self).diff_state.cursor_line as int,
                lines as int,
                old(self).spec_total_lines(),
            ),
            final(self).diff_state.scroll_offset as int == visible_scroll(
                final(self).diff_state.cursor_line as int,
                cursor_after_down(
                    old(self).diff_state.scroll_offset as int,
                    lines as int,
                    old(self).spec_total_lines(),
                ),
                old(self).diff_state.viewport_height as int,
            ),
            final(self).diff_state.current_file_idx as int == file_index_at(
                old(self).files_view(),
                old(self).session_view(),
                final(self).diff_state.cursor_line as int,
                0,
            ),
            final(self).diff_state.scroll_x == old(self).diff_state.scroll_x,
            final(self).diff_state.viewport_height == old(self).diff_state.viewport_height,
    {
        let total = self.total_lines();
        let max_line: usize = if total > 0 {
            total - 1
        } else {
            0
        };
        let c = self.diff_state.cursor_line;
        let moved: usize = if lines <= usize::MAX - c {
            c + lines
        } else {
            usize::MAX
        };
        self.diff_state.cursor_line = if moved < max_line {
            moved
        } else {
            max_line
        };
        let s = self.diff_state.scroll_offset;
        let smoved: usize = if lines <= usize::MAX - s {
            s + lines
        } else {
            usize::MAX
        };
        self.diff_state.scroll_offset = if smoved < max_line {
            smoved
        } else {
            max_line
        };
        self.ensure_cursor_visible();
        self.update_current_file_from_cursor();
    }

    /// Page scrolling: move cursor and scroll offset up together,
    /// saturating at the first flattened line, then restore containment.
    pub fn scroll_up(&mut self, lines: usize)
        requires
            old(self).wf(),
        ensures
            final(self).wf(),
            final(self).contained(),
            final(self).same_but_view_state(*old(self)),
            final(self).diff_state.cursor_line as int == cursor_after_up(
                old(self).diff_state.cursor_line as int,
                lines as int,
            ),
            final(self).diff_state.scroll_offset as int == visible_scroll(
                final(self).diff_state.cursor_line as int,
                cursor_after_up(old(self).diff_state.scroll_offset as int, lines as int),
                old(self).diff_state.viewport_height as int,
            ),
            final(self).diff_state.current_file_idx as int == file_index_at(
                old(self).files_view(),
                old(self).session_view(),
                final(self).diff_state.cursor_line as int,
                0,
            ),
            final(self).diff_state.scroll_x == old(self).diff_state.scroll_x,
            final(self).diff_state.viewport_height == old(self).diff_state.viewport_height,
    {
        let c = self.diff_state.cursor_line;
        self.diff_state.cursor_line = if c >= lines {
            c - lines
        } else {
            0
        };
        let s = self.diff_state.scroll_offset;
        self.diff_state.scroll_offset = if s >= lines {
            s - lines
        } else {
            0
        };
        self.ensure_cursor_visible();
        self.update_current_file_from_cursor();
    }

    /// Move the horizontal offset left, saturating at the left edge.
    pub fn scroll_left(&mut self, cols: usize)
        ensures
            final(self).diff_state == (DiffState {
                scroll_x: final(self).diff_state.scroll_x,
                ..old(self).diff_state
            }),
            final(self).diff_state.scroll_x as int == cursor_after_up(
                old(self).diff_state.scroll_x as int,
                cols as int,
            ),
            final(self).file_list_state == old(self).file_list_state,
            final(self).same_but_view_state(*old(self)),
    {
        let x = self.diff_state.scroll_x;
        self.diff_state.scroll_x = if x >= cols {
            x - cols
        } else {
            0
        };
    }

    /// Move the horizontal offset right; the rendering layer bounds it
    /// against actual content width.
    pub fn scroll_right(&mut self, cols: usize)
        ensures
            final(self).diff_state == (DiffState {
                scroll_x: final(self).diff_state.scroll_x,
                ..old(self).diff_state
            }),
            final(self).diff_state.scroll_x as int == if old(self).diff_state.scroll_x as int
                + cols as int <= usize::MAX as int {
                old(self).diff_state.scroll_x as int + cols as int
            } else {
                usize::MAX as int
            },
            final(self).file_list_state == old(self).file_list_state,
            final(self).same_but_view_state(*old(self)),
    {
        let x = self.diff_state.scroll_x;
        self.diff_state.scroll_x = if cols <= usize::MAX - x {
            x + cols
        } else {
            usize::MAX
        };
    }

    /// Scroll so that the cursor sits half a viewport below the top of the
    /// window.
    pub fn center_cursor(&mut self)
        ensures
            final(self).diff_state == (DiffState {
                scroll_offset: final(self).diff_state.scroll_offset,
                ..old(self).diff_state
            }),
            final(self).diff_state.scroll_offset as int == cursor_after_up(
                old(self).diff_state.cursor_line as int,
                ({
                    let vh = old(self).diff_state.viewport_height as int;
                    (if vh > 0 {
                        vh
                    } else {
                        1
                    }) / 2
                }),
            ),
            final(self).contained(),
            final(self).file_list_state == old(self).file_list_state,
            final(self).same_but_view_state(*old(self)),
    {
        let vp: usize = if self.diff_state.viewport_height > 0 {
            self.diff_state.viewport_height
        } else {
            1
        };
        let half = vp / 2;
        let c = self.diff_state.cursor_line;
        self.diff_state.scroll_offset = if c >= half {
            c - half
        } else {
            0
        };
    }

    /// Jump to the header line of file `idx`: the cursor moves there and
    /// the header becomes the top of the viewport. Does nothing when `idx`
    /// is out of range.
    pub fn jump_to_file(&mut self, idx: usize)
        requires
            old(self).wf(),
        ensures
            final(self).wf(),
            final(self).same_but_view_state(*old(self)),
            (idx as int) < old(self).files_view().len() ==> final(self).jumped_to(
                *old(self),
                idx as int,
            ),
            (idx as int) >= old(self).files_view().len() ==> *final(self) == *old(self),
            old(self).contained() ==> final(self).contained(),
    {
        if idx < self.diff_files.len() {
            let off = calculate_file_scroll_offset(&self.diff_files, &self.session, idx);
            self.diff_state.current_file_idx = idx;
            self.diff_state.cursor_line = off;
            self.diff_state.scroll_offset = off;
            self.file_list_state.selected = idx;
        }
    }

    /// Move the file-list selection `n` entries down and jump to it.
    pub fn file_list_down(&mut self, n: usize)
        requires
            old(self).wf(),
        ensures
            final(self).wf(),
            final(self).same_but_view_state(*old(self)),
            old(self).contained() ==> final(self).contained(),
            old(self).files_view().len() == 0 ==> *final(self) == *old(self),
            old(self).files_view().len() > 0 ==> final(self).jumped_to(
                *old(self),
                ({
                    let m = old(self).files_view().len() - 1;
                    let s = old(self).file_list_state.selected as int + n as int;
                    if s <= m {
                        s
                    } else {
                        m
                    }
                }),
            ),
    {
        let max_idx: usize = if self.diff_files.len() > 0 {
            self.diff_files.len() - 1
        } else {
            0
        };
        let s = self.file_list_state.selected;
        let moved: usize = if n <= usize::MAX - s {
            s + n
        } else {
            usize::MAX
        };
        let new_idx = if moved < max_idx {
            moved
        } else {
            max_idx
        };
        self.jump_to_file(new_idx);
    }

    /// Move the file-list selection `n` entries up and jump to it.
    pub fn file_list_up(&mut self, n: usize)
        requires
            old(self).wf(),
        ensures
            final(self).wf(),
            final(self).same_but_view_state(*old(self)),
            old(self).contained() ==> final(self).contained(),
            old(self).files_view().len() == 0 ==> *final(self) == *old(self),
            old(self).files_view().len() > 0 ==> final(self).jumped_to(
                *old(self),
                cursor_after_up(old(self).file_list_state.selected as int, n as int),
            ),
    {
        let s = self.file_list_state.selected;
        let new_idx: usize = if s >= n {
            s - n
        } else {
            0
        };
        self.jump_to_file(new_idx);
    }

    /// Jump to the next file's header.
    pub fn next_file(&mut self)
        requires
            old(self).wf(),
        ensures
            final(self).wf(),
            final(self).same_but_view_state(*old(self)),
            old(self).contained() ==> final(self).contained(),
            old(self).files_view().len() == 0 ==> *final(self) == *old(self),
            old(self).files_view().len() > 0 ==> final(self).jumped_to(
                *old(self),
                ({
                    let m = old(self).files_view().len() - 1;
                    let s = old(self).diff_state.current_file_idx as int + 1;
                    if s <= m {
                        s
                    } else {
                        m
                    }
                }),
            ),
    {
        let max_idx: usize = if self.diff_files.len() > 0 {
            self.diff_files.len() - 1
        } else {
            0
        };
        let c = self.diff_state.current_file_idx;
        let moved: usize = if c < usize::MAX {
            c + 1
        } else {
            usize::MAX
        };
        let next = if moved < max_idx {
            moved
        } else {
            max_idx
        };
        self.jump_to_file(next);
    }

    /// Jump to the previous file's header.
    pub fn prev_file(&mut self)
        requires
            old(self).wf(),
        ensures
            final(self).wf(),
            final(self).same_but_view_state(*old(self)),
            old(self).contained() ==> final(self).contained(),
            old(self).files_view().len() == 0 ==> *final(self) == *old(self),
            old(self).files_view().len() > 0 ==> final(self).jumped_to(
                *old(self),
                cursor_after_up(old(self).diff_state.current_file_idx as int, 1),
            ),
    {
        let c = self.diff_state.current_file_idx;
        let prev: usize = if c >= 1 {
            c - 1
        } else {
            0
        };
        self.jump_to_file(prev);
    }

    /// Enter command mode with an empty command line.
    pub fn enter_command_mode(&mut self)
        ensures
            *final(self) == (App {
                input_mode: InputMode::Command,
                command_buffer: final(self).command_buffer,
                ..*old(self)
            }),
            final(self).command_buffer@ == Seq::<char>::empty(),
    {
        self.input_mode = InputMode::Command;
        self.command_buffer = String::new();
    }

    /// Leave command mode, dropping the command line.
    pub fn exit_command_mode(&mut self)
        ensures
            *final(self) == (App {
                input_mode: InputMode::Normal,
                command_buffer: final(self).command_buffer,
                ..*old(self)
            }),
            final(self).command_buffer@ == Seq::<char>::empty(),
    {
        self.input_mode = InputMode::Normal;
        self.command_buffer = String::new();
    }

    /// Enter comment mode for a file-level comment, or for a line comment
    /// anchored at `line`.
    pub fn enter_comment_mode(&mut self, file_level: bool, line: Option<(u32, LineSide)>)
        ensures
            *final(self) == (App {
                input_mode: InputMode::Comment,
                comment_buffer: final(self).comment_buffer,
                comment_cursor: 0,
                comment_type: CommentType::Note,
                comment_is_file_level: file_level,
                comment_line: line,
                ..*old(self)
            }),
            final(self).comment_buffer@ == Seq::<char>::empty(),
    {
        self.input_mode = InputMode::Comment;
        self.comment_buffer = String::new();
        self.comment_cursor = 0;
        self.comment_type = CommentType::Note;
        self.comment_is_file_level = file_level;
        self.comment_line = line;
    }

    /// Leave comment mode, dropping the draft.
    pub fn exit_comment_mode(&mut self)
        ensures
            *final(self) == (App {
                input_mode: InputMode::Normal,
                comment_buffer: final(self).comment_buffer,
                comment_cursor: 0,
                ..*old(self)
            }),
            final(self).comment_buffer@ == Seq::<char>::empty(),
    {
        self.input_mode = InputMode::Normal;
        self.comment_buffer = String::new();
        self.comment_cursor = 0;
    }

    /// Step the draft comment's type through its cycle.
    pub fn cycle_comment_type(&mut self)
        ensures
            *final(self) == (App {
                comment_type: match old(self).comment_type {
                    CommentType::Note => CommentType::Suggestion,
                    CommentType::Suggestion => CommentType::Issue,
                    CommentType::Issue => CommentType::Praise,
                    CommentType::Praise => CommentType::Note,
                },
                ..*old(self)
            }),
    {
        self.comment_type = match self.comment_type {
            CommentType::Note => CommentType::Suggestion,
            CommentType::Suggestion => CommentType::Issue,
            CommentType::Issue => CommentType::Praise,
            CommentType::Praise => CommentType::Note,
        };
    }

    /// Toggle the help overlay.
    pub fn toggle_help(&mut self)
        ensures
            *final(self) == (App {
                input_mode: if old(self).input_mode == InputMode::Help {
                    InputMode::Normal
                } else {
                    InputMode::Help
                },
                ..*old(self)
            }),
    {
        if self.input_mode == InputMode::Help {
            self.input_mode = InputMode::Normal;
        } else {
            self.input_mode = InputMode::Help;
        }
    }

    /// Enter confirm mode for `action`.
    pub fn enter_confirm_mode(&mut self, action: ConfirmAction)
        ensures
            *final(self) == (App {
                input_mode: InputMode::Confirm,
                pending_confirm: Some(action),
                ..*old(self)
            }),
    {
        self.input_mode = InputMode::Confirm;
        self.pending_confirm = Some(action);
    }

    /// Flip the reviewed flag of the currently selected file and move the
    /// cursor to that file's header line: the file's body has just
    /// collapsed or expanded, so no interior position stays meaningful.
    pub fn toggle_reviewed(&mut self)
        requires
            old(self).wf(),
        ensures
            final(self).wf(),
            old(self).files_view().len() == 0 ==> *final(self) == *old(self),
            old(self).files_view().len() > 0 ==> ({
                let fv = old(self).files_view();
                let sv = old(self).session_view();
                let idx = old(self).diff_state.current_file_idx;
                let p = fv[idx as int].path;
                let pi = path_index(sv.files, p);
                &&& final(self).session@ == with_review(sv, pi, flip_reviewed(sv.files[pi].1))
                &&& final(self).dirty == true
                &&& final(self).diff_state.cursor_line as int == offset_of(
                    fv,
                    final(self).session@,
                    idx as int,
                )
                &&& final(self).diff_state.scroll_offset as int == visible_scroll(
                    final(self).diff_state.cursor_line as int,
                    old(self).diff_state.scroll_offset as int,
                    old(self).diff_state.viewport_height as int,
                )
                &&& final(self).diff_state.current_file_idx == idx
                &&& final(self).diff_state.scroll_x == old(self).diff_state.scroll_x
                &&& final(self).diff_state.viewport_height == old(self).diff_state.viewport_height
                &&& final(self).file_list_state == old(self).file_list_state
                &&& final(self).contained()
                &&& *final(self) == (App {
                    session: final(self).session,
                    dirty: true,
                    diff_state: final(self).diff_state,
                    ..*old(self)
                })
            }),
    {
        if self.diff_files.len() == 0 {
            return ;
        }
        let ghost fv = self.files_view();
        let ghost sv = self.session_view();
        let idx = self.diff_state.current_file_idx;
        let ghost p = fv[idx as int].path;
        let path = self.diff_files[idx].display_path().clone();
        proof {
            assert(self.diff_files@[idx as int]@ == fv[idx as int]);
            assert(path@ == p);
        }
        let found = self.session.toggle_file_reviewed(&path);
        proof {
            assert(sv.contains_path(p));
            assert(found);
            let pi = path_index(sv.files, p);
            let rv2 = flip_reviewed(sv.files[pi].1);
            lemma_path_index_from(sv.files, p, 0);
            assert(sv.files[pi].0 == p);
            assert(self.session@ == with_review(sv, pi, rv2));
            assert forall|q: Seq<char>| q != p implies #[trigger] review_for(self.session@, q)
                == review_for(sv, q) by {
                lemma_with_review_lookup(sv, pi, rv2, q);
            }
            lemma_with_review_lookup(sv, pi, rv2, p);
            assert forall|j: int|
                0 <= j < fv.len() && (#[trigger] fv[j].path) == p implies file_height_expanded(
                fv[j],
                review_for(self.session@, p).file_comments,
                review_for(self.session@, p).line_comments,
            ) <= file_height_expanded(
                fv[j],
                review_for(sv, p).file_comments,
                review_for(sv, p).line_comments,
            ) by {
                assert(review_for(self.session@, p).file_comments == review_for(
                    sv,
                    p,
                ).file_comments);
            }
            lemma_expanded_one_path_le(fv, sv, self.session@, p, 0);
            assert forall|j: int|
                0 <= j < fv.len() && (#[trigger] fv[j].path) == p implies file_height_expanded(
                fv[j],
                review_for(sv, p).file_comments,
                review_for(sv, p).line_comments,
            ) <= file_height_expanded(
                fv[j],
                review_for(self.session@, p).file_comments,
                review_for(self.session@, p).line_comments,
            ) by {
                assert(review_for(self.session@, p).file_comments == review_for(
                    sv,
                    p,
                ).file_comments);
            }
            lemma_expanded_one_path_le(fv, self.session@, sv, p, 0);
            assert(fits(fv, self.session@));
            assert forall|j: int| 0 <= j < fv.len() implies self.session@.contains_path(
                (#[trigger] fv[j]).path,
            ) by {
                lemma_with_review_lookup(sv, pi, rv2, fv[j].path);
            }
        }
        self.dirty = true;
        let header = calculate_file_scroll_offset(&self.diff_files, &self.session, idx);
        self.diff_state.cursor_line = header;
        self.ensure_cursor_visible();
    }

    /// The source line number and side at the cursor, when the cursor sits
    /// exactly on a diff line: deletion lines resolve to their old number
    /// on the old side, every other diff line to its new number on the new
    /// side, falling back to the old number when no new one exists.
    pub fn get_line_at_cursor(&self) -> (r: Option<(u32, LineSide)>)
        requires
            self.wf(),
        ensures
            ({
                let rws = rows(self.files_view(), self.session_view());
                let p = self.diff_state.cursor_line as int;
                if p < rws.len() {
                    match rws[p] {
                        Location::DiffLine { old_lineno, new_lineno, .. } => match new_lineno {
                            Some(n) => r == Some((n, LineSide::New)),
                            None => match old_lineno {
                                Some(o) => r == Some((o, LineSide::Old)),
                                None => r is None,
                            },
                        },
                        _ => r is None,
                    }
                } else {
                    r is None
                }
            }),
    {
        match locate(&self.diff_files, &self.session, self.diff_state.cursor_line) {
            Some(Location::DiffLine { old_lineno, new_lineno, .. }) => match new_lineno {
                Some(n) => Some((n, LineSide::New)),
                None => match old_lineno {
                    Some(o) => Some((o, LineSide::Old)),
                    None => None,
                },
            },
            _ => None,
        }
    }

    /// The comment block the cursor sits in, if any: the owning file's
    /// path, for line comments the anchoring line number and side, and the
    /// comment's index within its side-filtered view.
    pub fn find_comment_at_cursor(&self) -> (r: Option<CommentLocation>)
        requires
            self.wf(),
        ensures
            ({
                let fv = self.files_view();
                let rws = rows(fv, self.session_view());
                let p = self.diff_state.cursor_line as int;
                if p < rws.len() {
                    match rws[p] {
                        Location::FileComment { file, comment } => match r {
                            Some(CommentLocation::FileComment { path, index }) => path@ == fv[
                                file as int].path && index == comment,
                            _ => false,
                        },
                        Location::LineComment { file, line, side, comment } => match r {
                            Some(CommentLocation::LineComment { path, line: l2, side: s2, index }) => {
                                &&& path@ == fv[file as int].path
                                &&& l2 == line
                                &&& s2 == side
                                &&& index == comment
                            },
                            _ => false,
                        },
                        _ => r is None,
                    }
                } else {
                    r is None
                }
            }),
    {
        let ghost fv = self.files_view();
        let ghost sv = self.session_view();
        let n = self.diff_files.len();
        proof {
            assert(fv.len() == n as int);
            lemma_rows_owner(fv, sv, 0);
        }
        match locate(&self.diff_files, &self.session, self.diff_state.cursor_line) {
            Some(Location::FileComment { file, comment }) => {
                proof {
                    assert(self.diff_files@[file as int]@ == fv[file as int]);
                }
                let path = self.diff_files[file].display_path().clone();
                Some(CommentLocation::FileComment { path, index: comment })
            },
            Some(Location::LineComment { file, line, side, comment }) => {
                proof {
                    assert(self.diff_files@[file as int]@ == fv[file as int]);
                }
                let path = self.diff_files[file].display_path().clone();
                Some(CommentLocation::LineComment { path, line, side, index: comment })
            },
            _ => None,
        }
    }

    /// Delete the comment block the cursor sits in. For a line comment the
    /// true storage index is re-derived by counting same-side entries,
    /// because deletion addresses a side-partitioned view while storage
    /// interleaves both sides. Reports whether a deletion happened; the
    /// cursor and scroll stay put.
    pub fn delete_comment_at_cursor(&mut self) -> (r: bool)
        requires
            old(self).wf(),
        ensures
            final(self).wf(),
            old(self).contained() ==> final(self).contained(),
            final(self).diff_state == old(self).diff_state,
            final(self).file_list_state == old(self).file_list_state,
            ({
                let fv = old(self).files_view();
                let sv = old(self).session_view();
                let rws = rows(fv, sv);
                let p = old(self).diff_state.cursor_line as int;
                if p < rws.len() {
                    match rws[p] {
                        Location::FileComment { file, comment } => ({
                            let pi = path_index(sv.files, fv[file as int].path);
                            if pi >= 0 && (comment as int) < sv.files[pi].1.file_comments.len() {
                                &&& r == true
                                &&& final(self).session@ == with_review(
                                    sv,
                                    pi,
                                    without_file_comment(sv.files[pi].1, comment as int),
                                )
                                &&& final(self).dirty == true
                                &&& *final(self) == (App {
                                    session: final(self).session,
                                    dirty: true,
                                    message: final(self).message,
                                    ..*old(self)
                                })
                                &&& final(self).message matches Some(m) && m.content@
                                    == "Comment deleted"@ && m.message_type == MessageType::Info
                            } else {
                                &&& r == false
                                &&& final(self).session@ == sv
                                &&& *final(self) == (App {
                                    session: final(self).session,
                                    ..*old(self)
                                })
                            }
                        }),
                        Location::LineComment { file, line, side, comment } => ({
                            let pi = path_index(sv.files, fv[file as int].path);
                            if pi >= 0 && line_comment_found(
                                sv.files[pi].1,
                                line,
                                side,
                                comment as int,
                            ) {
                                &&& r == true
                                &&& final(self).session@ == with_review(
                                    sv,
                                    pi,
                                    without_line_comment(sv.files[pi].1, line, side, comment as int),
                                )
                                &&& final(self).dirty == true
                                &&& *final(self) == (App {
                                    session: final(self).session,
                                    dirty: true,
                                    message: final(self).message,
                                    ..*old(self)
                                })
                                &&& final(self).message matches Some(m) && m.content@
                                    == "Comment on line "@ + crate::text::dec_spec(line as int)
                                    + " deleted"@ && m.message_type == MessageType::Info
                            } else {
                                &&& r == false
                                &&& final(self).session@ == sv
                                &&& *final(self) == (App {
                                    session: final(self).session,
                                    ..*old(self)
                                })
                            }
                        }),
                        _ => r == false && *final(self) == *old(self),
                    }
                } else {
                    r == false && *final(self) == *old(self)
                }
            }),
    {
        let ghost fv = self.files_view();
        let ghost sv = self.session_view();
        let n = self.diff_files.len();
        proof {
            assert(fv.len() == n as int);
            lemma_rows_owner(fv, sv, 0);
        }
        match locate(&self.diff_files, &self.session, self.diff_state.cursor_line) {
            Some(Location::FileComment { file, comment }) => {
                proof {
                    assert(self.diff_files@[file as int]@ == fv[file as int]);
                }
                let path = self.diff_files[file].display_path().clone();
                let deleted = self.session.delete_file_comment(&path, comment);
                if deleted {
                    proof {
                        self.lemma_wf_after_file_comment_delete(*old(self), file as int, comment);
                    }
                    self.dirty = true;
                    self.set_message(String::from_str("Comment deleted"));
                    true
                } else {
                    false
                }
            },
            Some(Location::LineComment { file, line, side, comment }) => {
                proof {
                    assert(self.diff_files@[file as int]@ == fv[file as int]);
                }
                let path = self.diff_files[file].display_path().clone();
                let deleted = self.session.delete_line_comment(&path, line, side, comment);
                if deleted {
                    proof {
                        self.lemma_wf_after_line_comment_delete(
                            *old(self),
                            file as int,
                            line,
                            side,
                            comment as int,
                        );
                    }
                    self.dirty = true;
                    let mut m = String::from_str("Comment on line ");
                    push_decimal(&mut m, line as u64);
                    m.append(" deleted");
                    self.set_message(m);
                    true
                } else {
                    false
                }
            },
            _ => false,
        }
    }

    /// After a file-level comment was removed from the record of one
    /// snapshot file, the application is still well-formed.
    proof fn lemma_wf_after_file_comment_delete(self, prev: App, file: int, comment: usize)
        requires
            prev.wf(),
            0 <= file < prev.files_view().len(),
            self.diff_files == prev.diff_files,
            ({
                let sv = prev.session_view();
                let pi = path_index(sv.files, prev.files_view()[file].path);
                &&& pi >= 0
                &&& (comment as int) < sv.files[pi].1.file_comments.len()
                &&& self.session@ == with_review(
                    sv,
                    pi,
                    without_file_comment(sv.files[pi].1, comment as int),
                )
            }),
        ensures
            self.session@.wf(),
            fits(self.files_view(), self.session@),
            forall|j: int|
                0 <= j < self.files_view().len() ==> self.session@.contains_path(
                    (#[trigger] self.files_view()[j]).path,
                ),
    {
        let fv = prev.files_view();
        let sv = prev.session_view();
        let p = fv[file].path;
        let pi = path_index(sv.files, p);
        let rv = sv.files[pi].1;
        let rv2 = without_file_comment(rv, comment as int);
        lemma_path_index_from(sv.files, p, 0);
        crate::session::lemma_with_review_wf(sv, pi, rv2);
        assert forall|a: int|
            0 <= a < rv2.file_comments.len() implies (#[trigger] rv2.file_comments[a]).side
            is None by {
            rv.file_comments.remove_ensures(comment as int);
            assert(rv.wf());
        }
        assert(rv2.wf());
        assert forall|q: Seq<char>| q != p implies #[trigger] review_for(self.session@, q)
            == review_for(sv, q) by {
            lemma_with_review_lookup(sv, pi, rv2, q);
        }
        lemma_with_review_lookup(sv, pi, rv2, p);
        assert forall|j: int|
            0 <= j < fv.len() && (#[trigger] fv[j].path) == p implies file_height_expanded(
            fv[j],
            review_for(self.session@, p).file_comments,
            review_for(self.session@, p).line_comments,
        ) <= file_height_expanded(
            fv[j],
            review_for(sv, p).file_comments,
            review_for(sv, p).line_comments,
        ) by {
            lemma_ch_remove(rv.file_comments, comment as int, 0);
            assert(comment_height(rv.file_comments[comment as int]) >= 3);
        }
        lemma_expanded_one_path_le(fv, sv, self.session@, p, 0);
        assert forall|j: int| 0 <= j < fv.len() implies self.session@.contains_path(
            (#[trigger] fv[j]).path,
        ) by {
            lemma_with_review_lookup(sv, pi, rv2, fv[j].path);
        }
    }

    /// After a line comment was removed from the record of one snapshot
    /// file, the application is still well-formed.
    proof fn lemma_wf_after_line_comment_delete(
        self,
        prev: App,
        file: int,
        line: u32,
        side: LineSide,
        n: int,
    )
        requires
            prev.wf(),
            0 <= file < prev.files_view().len(),
            self.diff_files == prev.diff_files,
            ({
                let sv = prev.session_view();
                let pi = path_index(sv.files, prev.files_view()[file].path);
                &&& pi >= 0
                &&& line_comment_found(sv.files[pi].1, line, side, n)
                &&& 0 <= n
                &&& self.session@ == with_review(
                    sv,
                    pi,
                    without_line_comment(sv.files[pi].1, line, side, n),
                )
            }),
        ensures
            self.session@.wf(),
            fits(self.files_view(), self.session@),
            forall|j: int|
                0 <= j < self.files_view().len() ==> self.session@.contains_path(
                    (#[trigger] self.files_view()[j]).path,
                ),
    {
        let fv = prev.files_view();
        let sv = prev.session_view();
        let p = fv[file].path;
        let pi = path_index(sv.files, p);
        let rv = sv.files[pi].1;
        let rv2 = without_line_comment(rv, line, side, n);
        lemma_path_index_from(sv.files, p, 0);
        assert(rv.wf());
        crate::session::lemma_without_line_comment_wf(rv, line, side, n);
        crate::session::lemma_with_review_wf(sv, pi, rv2);
        assert forall|q: Seq<char>| q != p implies #[trigger] review_for(self.session@, q)
            == review_for(sv, q) by {
            lemma_with_review_lookup(sv, pi, rv2, q);
        }
        lemma_with_review_lookup(sv, pi, rv2, p);
        let k = line_entry_index(rv.line_comments, line);
        lemma_line_entry_index_from(rv.line_comments, line, 0);
        let cs = rv.line_comments[k].1;
        let m = nth_side_index(cs, side, n);
        lemma_nth_side_index_from(cs, side, n, 0);
        let cs2 = cs.remove(m);
        assert forall|ln: u32, sd: LineSide| #[trigger]
            side_comments_height(comments_at(rv2.line_comments, ln), sd, 0)
            <= side_comments_height(comments_at(rv.line_comments, ln), sd, 0) by {
            if cs2.len() == 0 {
                lemma_comments_at_remove(rv.line_comments, k, ln);
                if ln == rv.line_comments[k].0 {
                    crate::index::lemma_side_comments_height_nonneg(
                        comments_at(rv.line_comments, ln),
                        sd,
                        0,
                    );
                }
            } else {
                lemma_comments_at_update(rv.line_comments, k, (line, cs2), ln);
                if ln == line {
                    lemma_side_remove_le(cs, sd, m, 0);
                }
            }
        }
        assert forall|j: int|
            0 <= j < fv.len() && (#[trigger] fv[j].path) == p implies file_height_expanded(
            fv[j],
            review_for(self.session@, p).file_comments,
            review_for(self.session@, p).line_comments,
        ) <= file_height_expanded(
            fv[j],
            review_for(sv, p).file_comments,
            review_for(sv, p).line_comments,
        ) by {
            lemma_body_mono(fv[j], rv.line_comments, rv2.line_comments);
        }
        lemma_expanded_one_path_le(fv, sv, self.session@, p, 0);
        assert forall|j: int| 0 <= j < fv.len() implies self.session@.contains_path(
            (#[trigger] fv[j]).path,
        ) by {
            lemma_with_review_lookup(sv, pi, rv2, fv[j].path);
        }
    }

    /// Move the cursor to the nearest hunk-header line strictly after it,
    /// if the flattened space holds one; otherwise stay put.
    pub fn next_hunk(&mut self)
        requires
            old(self).wf(),
        ensures
            final(self).wf(),
            final(self).same_but_view_state(*old(self)),
            old(self).contained() ==> final(self).contained(),
            ({
                let fv = old(self).files_view();
                let sv = old(self).session_view();
                let rws = rows(fv, sv);
                let c = old(self).diff_state.cursor_line as int;
                if exists|q: int| c < q < rws.len() && (#[trigger] rws[q]) is HunkHeader {
                    &&& rws[final(self).diff_state.cursor_line as int] is HunkHeader
                    &&& c < final(self).diff_state.cursor_line as int
                    &&& (final(self).diff_state.cursor_line as int) < rws.len()
                    &&& forall|q: int|
                        c < q < final(self).diff_state.cursor_line as int ==> !((
                        #[trigger] rws[q]) is HunkHeader)
                    &&& final(self).diff_state.scroll_offset as int == visible_scroll(
                        final(self).diff_state.cursor_line as int,
                        old(self).diff_state.scroll_offset as int,
                        old(self).diff_state.viewport_height as int,
                    )
                    &&& final(self).diff_state.current_file_idx as int == file_index_at(
                        fv,
                        sv,
                        final(self).diff_state.cursor_line as int,
                        0,
                    )
                    &&& final(self).diff_state.scroll_x == old(self).diff_state.scroll_x
                    &&& final(self).diff_state.viewport_height == old(
                        self,
                    ).diff_state.viewport_height
                    &&& final(self).contained()
                } else {
                    *final(self) == *old(self)
                }
            }),
    {
        let ghost fv = self.files_view();
        let ghost sv = self.session_view();
        let ghost rws = rows(fv, sv);
        let total = self.total_lines();
        proof {
            lemma_rows_from_len(fv, sv, 0);
        }
        if self.diff_state.cursor_line >= total {
            return ;
        }
        let c = self.diff_state.cursor_line;
        let mut q: usize = c + 1;
        while q < total
            invariant
                *self == *old(self),
                fv == self.files_view(),
                sv == self.session_view(),
                rws == rows(fv, sv),
                self.wf(),
                rws.len() == total as int,
                c == self.diff_state.cursor_line,
                c < q <= total,
                forall|x: int| c < x < q ==> !((#[trigger] rws[x]) is HunkHeader),
            decreases total - q,
        {
            let loc = locate(&self.diff_files, &self.session, q);
            match loc {
                Some(Location::HunkHeader { .. }) => {
                    self.diff_state.cursor_line = q;
                    self.ensure_cursor_visible();
                    self.update_current_file_from_cursor();
                    return ;
                },
                _ => {},
            }
            q += 1;
        }
    }

    /// Move the cursor to the nearest hunk-header line strictly before it,
    /// or to the first flattened line when there is none.
    pub fn prev_hunk(&mut self)
        requires
            old(self).wf(),
        ensures
            final(self).wf(),
            final(self).same_but_view_state(*old(self)),
            final(self).contained(),
            ({
                let fv = old(self).files_view();
                let sv = old(self).session_view();
                let rws = rows(fv, sv);
                let c = old(self).diff_state.cursor_line as int;
                &&& (exists|q: int|
                    0 <= q < c && q < rws.len() && (#[trigger] rws[q]) is HunkHeader) ==> {
                    &&& rws[final(self).diff_state.cursor_line as int] is HunkHeader
                    &&& (final(self).diff_state.cursor_line as int) < c
                    &&& forall|x: int|
                        (final(self).diff_state.cursor_line as int) < x < c && x < rws.len()
                            ==> !((#[trigger] rws[x]) is HunkHeader)
                }
                &&& !(exists|q: int|
                    0 <= q < c && q < rws.len() && (#[trigger] rws[q]) is HunkHeader) ==> final(
                    self).diff_state.cursor_line == 0
                &&& final(self).diff_state.scroll_offset as int == visible_scroll(
                    final(self).diff_state.cursor_line as int,
                    old(self).diff_state.scroll_offset as int,
                    old(self).diff_state.viewport_height as int,
                )
                &&& final(self).diff_state.current_file_idx as int == file_index_at(
                    fv,
                    sv,
                    final(self).diff_state.cursor_line as int,
                    0,
                )
                &&& final(self).diff_state.scroll_x == old(self).diff_state.scroll_x
                &&& final(self).diff_state.viewport_height == old(self).diff_state.viewport_height
            }),
    {
        let ghost fv = self.files_view();
        let ghost sv = self.session_view();
        let ghost rws = rows(fv, sv);
        let total = self.total_lines();
        proof {
            lemma_rows_from_len(fv, sv, 0);
        }
        let c = self.diff_state.cursor_line;
        let mut q: usize = c;
        while q > 0
            invariant
                *self == *old(self),
                fv == self.files_view(),
                sv == self.session_view(),
                rws == rows(fv, sv),
                self.wf(),
                rws.len() == total as int,
                c == self.diff_state.cursor_line,
                0 <= q <= c,
                forall|x: int| q <= x < c && x < rws.len() ==> !((#[trigger] rws[x]) is HunkHeader),
            decreases q,
        {
            q -= 1;
            let loc = locate(&self.diff_files, &self.session, q);
            match loc {
                Some(Location::HunkHeader { .. }) => {
                    self.diff_state.cursor_line = q;
                    self.ensure_cursor_visible();
                    self.update_current_file_from_cursor();
                    return ;
                },
                _ => {},
            }
        }
        self.diff_state.cursor_line = 0;
        self.ensure_cursor_visible();
        self.update_current_file_from_cursor();
    }

    /// Save the draft comment buffer to the selected file's record: as a
    /// file-level comment, or — when a line anchor was captured — as a line
    /// comment on that anchor. The draft is trimmed of surrounding
    /// whitespace first; an all-whitespace draft is refused with a message
    /// and the mode is kept. A comment whose blocks would push the
    /// flattened space past the machine bound is refused with a message
    /// and the session is left exactly as it was. Comment mode ends in
    /// every other case.
    pub fn save_comment(&mut self)
        requires
            old(self).wf(),
        ensures
            final(self).wf(),
            final(self).diff_state == old(self).diff_state,
            final(self).file_list_state == old(self).file_list_state,
            old(self).contained() ==> final(self).contained(),
            ({
                let t = trim_spec(old(self).comment_buffer@);
                let fv = old(self).files_view();
                let sv = old(self).session_view();
                if t.len() == 0 {
                    &&& *final(self) == (App { message: final(self).message, ..*old(self) })
                    &&& final(self).message matches Some(m) && m.content@
                        == "Comment cannot be empty"@ && m.message_type == MessageType::Info
                } else if fv.len() == 0 {
                    &&& final(self).session@ == sv
                    &&& *final(self) == (App {
                        session: final(self).session,
                        input_mode: InputMode::Normal,
                        comment_buffer: final(self).comment_buffer,
                        comment_cursor: 0,
                        ..*old(self)
                    })
                    &&& final(self).input_mode == InputMode::Normal
                    &&& final(self).comment_buffer@ == Seq::<char>::empty()
                } else {
                    let p = fv[old(self).diff_state.current_file_idx as int].path;
                    let pi = path_index(sv.files, p);
                    let file_level = old(self).comment_is_file_level || old(self).comment_line
                        is None;
                    let side = effective_side(
                        CommentView {
                            content: t,
                            comment_type: old(self).comment_type,
                            side: Some(old(self).comment_line.unwrap().1),
                        },
                    );
                    let c = if file_level {
                        CommentView { content: t, comment_type: old(self).comment_type, side: None }
                    } else {
                        CommentView {
                            content: t,
                            comment_type: old(self).comment_type,
                            side: Some(old(self).comment_line.unwrap().1),
                        }
                    };
                    let rv2 = if file_level {
                        with_file_comment(sv.files[pi].1, c)
                    } else {
                        with_line_comment(sv.files[pi].1, old(self).comment_line.unwrap().0, c)
                    };
                    let sv2 = with_review(sv, pi, rv2);
                    &&& *final(self) == (App {
                        session: final(self).session,
                        dirty: final(self).dirty,
                        message: final(self).message,
                        input_mode: InputMode::Normal,
                        comment_buffer: final(self).comment_buffer,
                        comment_cursor: 0,
                        ..*old(self)
                    })
                    &&& final(self).comment_buffer@ == Seq::<char>::empty()
                    &&& if fits(fv, sv2) {
                        &&& final(self).session@ == sv2
                        &&& final(self).dirty == true
                        &&& final(self).message matches Some(m) && m.message_type
                            == MessageType::Info && m.content@ == (if file_level {
                            "File comment added"@
                        } else {
                            "Comment added to line "@ + crate::text::dec_spec(
                                old(self).comment_line.unwrap().0 as int,
                            )
                        })
                    } else {
                        &&& final(self).session@ == sv
                        &&& final(self).dirty == old(self).dirty
                        &&& final(self).message matches Some(m) && m.message_type
                            == MessageType::Info && m.content@
                            == "Comment too large to display"@
                    }
                }
            }),
    {
        let ghost fv = self.files_view();
        let ghost sv = self.session_view();
        let content = trimmed(self.comment_buffer.as_str());
        if content.as_str().is_empty() {
            self.set_message(String::from_str("Comment cannot be empty"));
            return ;
        }
        if self.diff_files.len() == 0 {
            self.exit_comment_mode();
            return ;
        }
        let idx = self.diff_state.current_file_idx;
        let path = self.diff_files[idx].display_path().clone();
        let ghost p = fv[idx as int].path;
        proof {
            assert(self.diff_files@[idx as int]@ == fv[idx as int]);
            assert(sv.contains_path(p));
            lemma_path_index_from(sv.files, p, 0);
        }
        let ghost pi = path_index(sv.files, p);
        let ghost rv = sv.files[pi].1;
        let file_level = self.comment_is_file_level || match self.comment_line {
            Some(_) => false,
            None => true,
        };
        if file_level {
            let prev_len = match self.session.get_file(&path) {
                Some(fr) => fr.file_comments.len(),
                None => {
                    proof {
                        assert(false);
                    }
                    0
                },
            };
            let comment = Comment::new(content, self.comment_type, None);
            let added = self.session.add_file_comment(&path, comment);
            proof {
                assert(added);
            }
            let ghost sv2 = self.session@;
            let t = expanded_total_clipped(&self.diff_files, &self.session);
            if t < usize::MAX {
                proof {
                    self.lemma_wf_after_review_change(*old(self), pi);
                }
                self.dirty = true;
                self.set_message(String::from_str("File comment added"));
            } else {
                let ghost cv2 = CommentView {
                    content: trim_spec(old(self).comment_buffer@),
                    comment_type: old(self).comment_type,
                    side: None,
                };
                proof {
                    assert(sv2 == with_review(sv, pi, with_file_comment(rv, cv2)));
                    lemma_with_review_lookup(sv, pi, with_file_comment(rv, cv2), p);
                    assert(path_index(sv2.files, p) == pi);
                    assert(sv2.files[pi].0 == p);
                    assert(sv2.files[pi].1 == with_file_comment(rv, cv2));
                    assert((prev_len as int) < sv2.files[pi].1.file_comments.len());
                }
                let removed = self.session.delete_file_comment(&path, prev_len);
                proof {
                    assert(removed);
                    assert(rv.file_comments.push(cv2).remove(prev_len as int)
                        =~= rv.file_comments);
                    assert(without_file_comment(with_file_comment(rv, cv2), prev_len as int)
                        =~~= rv);
                    assert(self.session@.files =~~= sv.files);
                    assert(self.session@ =~~= sv);
                }
                self.set_message(String::from_str("Comment too large to display"));
            }
            self.exit_comment_mode();
        } else {
            let (line, side) = match self.comment_line {
                Some(ls) => ls,
                None => {
                    proof {
                        assert(false);
                    }
                    (0, LineSide::New)
                },
            };
            let prev_count = match self.session.get_file(&path) {
                Some(fr) => count_side_at(fr, line, side),
                None => {
                    proof {
                        assert(false);
                    }
                    0
                },
            };
            let comment = Comment::new(content, self.comment_type, Some(side));
            let ghost cv = comment@;
            proof {
                assert(effective_side(cv) == side);
            }
            let added = self.session.add_line_comment(&path, line, comment);
            proof {
                assert(added);
            }
            let ghost sv2 = self.session@;
            let t = expanded_total_clipped(&self.diff_files, &self.session);
            if t < usize::MAX {
                proof {
                    self.lemma_wf_after_review_change(*old(self), pi);
                }
                self.dirty = true;
                let mut m = String::from_str("Comment added to line ");
                push_decimal(&mut m, line as u64);
                self.set_message(m);
            } else {
                proof {
                    lemma_add_then_delete_line(rv, line, cv);
                    lemma_with_review_lookup(sv, pi, with_line_comment(rv, line, cv), p);
                    assert(path_index(sv2.files, p) == pi);
                    assert(sv2.files[pi].0 == p);
                    assert(sv2.files[pi].1 == with_line_comment(rv, line, cv));
                }
                let removed = self.session.delete_line_comment(&path, line, side, prev_count);
                proof {
                    assert(removed);
                    assert(without_line_comment(
                        with_line_comment(rv, line, cv),
                        line,
                        side,
                        prev_count as int,
                    ) == rv);
                    assert(self.session@.files =~~= sv.files);
                    assert(self.session@ =~~= sv);
                }
                self.set_message(String::from_str("Comment too large to display"));
            }
            self.exit_comment_mode();
        }
    }

    /// After one path's record changed in a session that still fits the
    /// machine, the application is well-formed again.
    proof fn lemma_wf_after_review_change(self, prev: App, pi: int)
        requires
            prev.wf(),
            0 <= pi < prev.session_view().files.len(),
            self.diff_files == prev.diff_files,
            self.session@.wf(),
            self.session@.files == prev.session_view().files.update(
                pi,
                (prev.session_view().files[pi].0, self.session@.files[pi].1),
            ),
            fits(self.files_view(), self.session@),
        ensures
            forall|j: int|
                0 <= j < self.files_view().len() ==> self.session@.contains_path(
                    (#[trigger] self.files_view()[j]).path,
                ),
    {
        let sv = prev.session_view();
        let fv = prev.files_view();
        assert forall|j: int| 0 <= j < fv.len() implies self.session@.contains_path(
            (#[trigger] fv[j]).path,
        ) by {
            crate::session::lemma_path_index_same_keys(sv.files, self.session@.files, fv[j].path, 0);
        }
    }

    /// Replace the diff snapshot, preserving the user's logical position:
    /// the previously selected file is resolved again by path (falling back
    /// to the clamped old index), the cursor keeps its file-relative offset
    /// (measured approximately, clamped by the new exact height) and its
    /// offset within the viewport. Newly seen paths get fresh records;
    /// every existing record is kept. Yields `None` — leaving the snapshot
    /// and the view state untouched — when the new snapshot's paths collide
    /// or its flattened space cannot be addressed by the machine.
    #[verifier::rlimit(80)]
    pub fn reload_diff_files(&mut self, new_files: Vec<DiffFile>) -> (r: Option<usize>)
        requires
            old(self).wf(),
        ensures
            final(self).wf(),
            final(self).session@ == ingest_spec(
                old(self).session_view(),
                new_files.deep_view(),
                0,
            ),
            forall|q: Seq<char>|
                #[trigger] review_for(final(self).session@, q) == review_for(
                    old(self).session_view(),
                    q,
                ),
            *final(self) == (App {
                session: final(self).session,
                diff_files: final(self).diff_files,
                diff_state: final(self).diff_state,
                file_list_state: final(self).file_list_state,
                ..*old(self)
            }),
            ({
                let nfv = new_files.deep_view();
                let svi = ingest_spec(old(self).session_view(), nfv, 0);
                match r {
                    Some(n) => {
                        &&& n == nfv.len()
                        &&& final(self).diff_files@ == new_files@
                        &&& nfv.len() == 0 ==> final(self).diff_state == (DiffState {
                            scroll_offset: 0,
                            cursor_line: 0,
                            current_file_idx: 0,
                            ..old(self).diff_state
                        }) && final(self).file_list_state.selected == 0
                        &&& nfv.len() > 0 ==> ({
                            let target = reload_target(
                                nfv,
                                if old(self).files_view().len() > 0 {
                                    Some(
                                        old(self).files_view()[
                                            old(self).diff_state.current_file_idx as int].path,
                                    )
                                } else {
                                    None
                                },
                                old(self).diff_state.current_file_idx as int,
                            );
                            let fh = file_height(nfv[target], review_for(svi, nfv[target].path));
                            let rel = ({
                                let pr = reload_prev_relative(*old(self));
                                if pr <= fh - 1 {
                                    pr
                                } else {
                                    fh - 1
                                }
                            });
                            let cur = offset_of(nfv, svi, target) + rel;
                            let vp = ({
                                let vh = old(self).diff_state.viewport_height as int;
                                if vh > 0 {
                                    vh
                                } else {
                                    1
                                }
                            });
                            let ro = ({
                                let pvo = old(self).diff_state.cursor_line as int - old(
                                    self,
                                ).diff_state.scroll_offset as int;
                                let pvo2 = if pvo >= 0 {
                                    pvo
                                } else {
                                    0
                                };
                                if pvo2 <= vp - 1 {
                                    pvo2
                                } else {
                                    vp - 1
                                }
                            });
                            let maxs = total_height(nfv, svi) - 1;
                            let desired = ({
                                let d = if cur - ro >= 0 {
                                    cur - ro
                                } else {
                                    0
                                };
                                if d <= maxs {
                                    d
                                } else {
                                    maxs
                                }
                            });
                            &&& final(self).diff_state.cursor_line as int == cur
                            &&& final(self).diff_state.scroll_offset as int == visible_scroll(
                                cur,
                                desired,
                                old(self).diff_state.viewport_height as int,
                            )
                            &&& final(self).diff_state.current_file_idx as int == file_index_at(
                                nfv,
                                svi,
                                cur,
                                0,
                            )
                            &&& final(self).diff_state.scroll_x == old(self).diff_state.scroll_x
                            &&& final(self).diff_state.viewport_height == old(
                                self,
                            ).diff_state.viewport_height
                            &&& final(self).contained()
                        })
                    },
                    None => {
                        &&& final(self).diff_files@ == old(self).diff_files@
                        &&& final(self).diff_state == old(self).diff_state
                        &&& final(self).file_list_state == old(self).file_list_state
                        &&& !(distinct_paths(nfv) && fits(nfv, svi))
                    },
                }
            }),
    {
        let ghost fv0 = self.files_view();
        let ghost sv0 = self.session_view();
        let prev_idx = self.diff_state.current_file_idx;
        let prev_cursor = self.diff_state.cursor_line;
        let prev_viewport_offset: usize = if prev_cursor >= self.diff_state.scroll_offset {
            prev_cursor - self.diff_state.scroll_offset
        } else {
            0
        };
        let current_path: Option<String> = match self.current_file_path() {
            Some(pp) => Some(pp.clone()),
            None => None,
        };
        let prev_relative: usize = if self.diff_files.len() == 0 {
            0
        } else {
            let start = calculate_file_scroll_offset_approx(
                &self.diff_files,
                &self.session,
                prev_idx,
            );
            if prev_cursor >= start {
                prev_cursor - start
            } else {
                0
            }
        };
        proof {
            assert(prev_relative as int == reload_prev_relative(*old(self)));
        }
        ingest(&mut self.session, &new_files);
        let ghost svi = self.session@;
        proof {
            lemma_heights_congruence(fv0, sv0, svi, 0);
            assert(fits(fv0, svi));
            assert forall|j: int| 0 <= j < fv0.len() implies svi.contains_path(
                (#[trigger] fv0[j]).path,
            ) by {
                let pj = fv0[j].path;
                assert(sv0.contains_path(pj));
                let pio = path_index(sv0.files, pj);
                lemma_path_index_from(sv0.files, pj, 0);
                assert(svi.files.subrange(0, sv0.files.len() as int)[pio] == sv0.files[pio]);
                assert(svi.files[pio].0 == pj);
                lemma_path_index_from(svi.files, pj, 0);
                if path_index(svi.files, pj) == -1 {
                    assert(svi.files[pio].0 != pj);
                }
            }
        }
        if !distinct_paths_x(&new_files) {
            return None;
        }
        let t = expanded_total_clipped(&new_files, &self.session);
        if t >= usize::MAX {
            return None;
        }
        self.diff_files = new_files;
        self.diff_state.current_file_idx = 0;
        self.file_list_state.selected = 0;
        if self.diff_files.len() == 0 {
            self.diff_state.cursor_line = 0;
            self.diff_state.scroll_offset = 0;
            return Some(0);
        }
        let ghost nfv = self.files_view();
        let last = self.diff_files.len() - 1;
        let target: usize = match current_path {
            Some(cp) => {
                match find_path_position(&self.diff_files, &cp) {
                    Some(j) => j,
                    None => {
                        if prev_idx < last {
                            prev_idx
                        } else {
                            last
                        }
                    },
                }
            },
            None => {
                if prev_idx < last {
                    prev_idx
                } else {
                    last
                }
            },
        };
        proof {
            assert(target as int == reload_target(
                nfv,
                if fv0.len() > 0 {
                    Some(fv0[prev_idx as int].path)
                } else {
                    None
                },
                prev_idx as int,
            ));
        }
        let file_start = calculate_file_scroll_offset(&self.diff_files, &self.session, target);
        proof {
            assert(self.diff_files@[target as int]@ == nfv[target as int]);
            lemma_file_span_in_total(nfv, svi, target as int);
            lemma_heights_from_nonneg(nfv, svi, 0);
        }
        let fh = file_render_height(&self.diff_files[target], &self.session);
        proof {
            crate::index::lemma_file_height_bounds(
                nfv[target as int],
                review_for(svi, nfv[target as int].path),
            );
        }
        let relative: usize = if prev_relative < fh - 1 {
            prev_relative
        } else {
            fh - 1
        };
        self.diff_state.cursor_line = file_start + relative;
        let viewport: usize = if self.diff_state.viewport_height > 0 {
            self.diff_state.viewport_height
        } else {
            1
        };
        let max_relative = viewport - 1;
        let relative_offset: usize = if prev_viewport_offset < max_relative {
            prev_viewport_offset
        } else {
            max_relative
        };
        let total = total_lines(&self.diff_files, &self.session);
        let max_scroll = total - 1;
        let stepped: usize = if self.diff_state.cursor_line >= relative_offset {
            self.diff_state.cursor_line - relative_offset
        } else {
            0
        };
        self.diff_state.scroll_offset = if stepped < max_scroll {
            stepped
        } else {
            max_scroll
        };
        self.ensure_cursor_visible();
        self.update_current_file_from_cursor();
        Some(self.diff_files.len())
    }

    /// Leave confirm mode without acting.
    pub fn exit_confirm_mode(&mut self)
        ensures
            *final(self) == (App { input_mode: InputMode::Normal, pending_confirm: None, ..*old(self) }),
    {
        self.input_mode = InputMode::Normal;
        self.pending_confirm = None;
    }
}

} // verus!
