//! The controller's command vocabulary: what a key press can mean. The
//! decoding of terminal events into these actions lives with the terminal
//! layer; the library only defines the actions themselves.

use vstd::prelude::*;

verus! {

/// One user command, already decoded from the terminal.
#[derive(Debug, Clone, PartialEq, Eq)]
pub enum Action {
    CursorDown(usize),
    CursorUp(usize),
    HalfPageDown,
    HalfPageUp,
    PageDown,
    PageUp,
    GoToTop,
    GoToBottom,
    NextFile,
    PrevFile,
    NextHunk,
    PrevHunk,
    PendingZCommand,
    ScrollLeft(usize),
    ScrollRight(usize),
    ToggleFocus,
    SelectFile,
    ToggleReviewed,
    AddLineComment,
    AddFileComment,
    EditComment,
    PendingDCommand,
    Quit,
    ExportToClipboard,
    EnterCommandMode,
    ExitMode,
    ToggleHelp,
    InsertChar(char),
    DeleteChar,
    DeleteWord,
    ClearLine,
    SubmitInput,
    TextCursorLeft,
    TextCursorRight,
    CycleCommentType,
    ConfirmYes,
    ConfirmNo,
    Noop,
}

} // verus!
