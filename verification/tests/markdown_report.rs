//! Tests of the flat, numbered report.

use tuicr::error::TuicrError;
use tuicr::markdown::{export_markdown, generate_markdown};
use tuicr::model::{Comment, CommentType, LineSide};
use tuicr::session::ReviewSession;

fn create_test_session() -> ReviewSession {
    let mut session = ReviewSession::new(
        String::from("/tmp/test-repo"),
        String::from("abc1234def"),
    );
    session.add_file(String::from("src/main.rs"));

    let path = String::from("src/main.rs");
    session.toggle_file_reviewed(&path);
    session.add_file_comment(
        &path,
        Comment::new(
            String::from("Consider adding documentation"),
            CommentType::Suggestion,
            None,
        ),
    );
    session.add_line_comment(
        &path,
        42,
        Comment::new(
            String::from("Magic number should be a constant"),
            CommentType::Issue,
            Some(LineSide::New),
        ),
    );

    session
}

#[test]
fn should_generate_valid_markdown() {
    // given
    let session = create_test_session();

    // when
    let markdown = generate_markdown(&session);

    // then
    assert!(markdown.contains("I reviewed your code and have the following comments"));
    assert!(markdown.contains("Comment types:"));
    assert!(markdown.contains("[SUGGESTION]"));
    assert!(markdown.contains("`src/main.rs`"));
    assert!(markdown.contains("Consider adding documentation"));
    assert!(markdown.contains("[ISSUE]"));
    assert!(markdown.contains("`src/main.rs:42`"));
    assert!(markdown.contains("Magic number"));
}

#[test]
fn should_number_comments_sequentially() {
    // given
    let session = create_test_session();

    // when
    let markdown = generate_markdown(&session);

    // then
    // Should have 2 numbered comments
    assert!(markdown.contains("1. **[SUGGESTION]**"));
    assert!(markdown.contains("2. **[ISSUE]**"));
}

#[test]
fn should_fail_export_when_no_comments() {
    // given
    let session = ReviewSession::new(
        String::from("/tmp/test-repo"),
        String::from("abc1234def"),
    );

    // when
    let result = export_markdown(&session);

    // then
    assert!(result.is_err());
    assert!(matches!(result.unwrap_err(), TuicrError::NoComments));
}

#[test]
fn old_side_comments_are_marked_with_a_tilde() {
    let mut session = ReviewSession::new(String::from("/r"), String::from("c0ffee"));
    session.add_file(String::from("lib.rs"));
    let path = String::from("lib.rs");
    session.add_line_comment(
        &path,
        7,
        Comment::new(
            String::from("was removed"),
            CommentType::Note,
            Some(LineSide::Old),
        ),
    );
    let markdown = generate_markdown(&session);
    assert!(markdown.contains("`lib.rs:~7`"));
    assert!(markdown.contains("[NOTE]"));
}

#[test]
fn files_are_reported_in_path_order() {
    let mut session = ReviewSession::new(String::from("/r"), String::from("c0ffee"));
    session.add_file(String::from("zz.rs"));
    session.add_file(String::from("aa.rs"));
    let za = String::from("zz.rs");
    let aa = String::from("aa.rs");
    session.add_file_comment(
        &za,
        Comment::new(String::from("second"), CommentType::Note, None),
    );
    session.add_file_comment(
        &aa,
        Comment::new(String::from("first"), CommentType::Note, None),
    );
    let markdown = generate_markdown(&session);
    assert!(markdown.contains("1. **[NOTE]** `aa.rs` - first"));
    assert!(markdown.contains("2. **[NOTE]** `zz.rs` - second"));
}

#[test]
fn summary_notes_appear_in_the_header() {
    let mut session = ReviewSession::new(String::from("/r"), String::from("c0ffee"));
    session.add_file(String::from("a.rs"));
    let path = String::from("a.rs");
    session.add_file_comment(
        &path,
        Comment::new(String::from("x"), CommentType::Praise, None),
    );
    session.session_notes = Some(String::from("looks good overall"));
    let markdown = generate_markdown(&session);
    assert!(markdown.contains("Summary: looks good overall"));
    assert!(markdown.contains("[PRAISE]"));
}

#[test]
fn error_messages_name_their_cause() {
    assert_eq!(
        TuicrError::NoComments.message(),
        "No comments to export - skipping copy"
    );
    assert_eq!(
        TuicrError::Git(String::from("boom")).message(),
        "Git error: boom"
    );
    assert_eq!(
        TuicrError::Clipboard(String::from("denied")).message(),
        "Clipboard error: denied"
    );
    assert_eq!(
        TuicrError::CorruptedSession(String::from("bad json")).message(),
        "Review session corrupted: bad json"
    );
    assert_eq!(TuicrError::NoChanges.message(), "No changes to review");
    assert_eq!(
        TuicrError::NotARepository.message(),
        "Not a git repository"
    );
}
