//! Tests of the virtual line index and the navigation controller.

use tuicr::app::{App, CommentLocation};
use tuicr::index::{comment_display_lines, file_render_height, locate, Location};
use tuicr::model::{Comment, CommentType, DiffFile, DiffLine, FileStatus, Hunk, LineOrigin,
    LineSide};
use tuicr::session::ReviewSession;

fn context_line(old_no: u32, new_no: u32, text: &str) -> DiffLine {
    DiffLine {
        origin: LineOrigin::Context,
        old_lineno: Some(old_no),
        new_lineno: Some(new_no),
        content: String::from(text),
    }
}

fn added_line(new_no: u32, text: &str) -> DiffLine {
    DiffLine {
        origin: LineOrigin::Addition,
        old_lineno: None,
        new_lineno: Some(new_no),
        content: String::from(text),
    }
}

fn deleted_line(old_no: u32, text: &str) -> DiffLine {
    DiffLine {
        origin: LineOrigin::Deletion,
        old_lineno: Some(old_no),
        new_lineno: None,
        content: String::from(text),
    }
}

/// File A of the two-file scenario: one hunk of three lines.
fn file_a() -> DiffFile {
    DiffFile {
        path: String::from("a.rs"),
        status: FileStatus::Modified,
        is_binary: false,
        hunks: vec![Hunk {
            header: String::from("@@ -9,2 +9,3 @@"),
            lines: vec![
                context_line(9, 9, "fn nine() {}"),
                added_line(10, "fn ten() {}"),
                deleted_line(11, "fn gone() {}"),
            ],
        }],
    }
}

/// File B of the two-file scenario: binary, no hunks.
fn file_b() -> DiffFile {
    DiffFile {
        path: String::from("b.bin"),
        status: FileStatus::Added,
        is_binary: true,
        hunks: vec![],
    }
}

fn fresh_app() -> App {
    let session = ReviewSession::new(String::from("/repo"), String::from("abc123"));
    App::new(session, vec![file_a(), file_b()]).unwrap()
}

#[test]
fn two_file_snapshot_has_the_documented_heights() {
    let app = fresh_app();
    // file A: header + hunk header + 3 lines + spacing = 6
    assert_eq!(
        file_render_height(&app.diff_files[0], &app.session),
        6
    );
    // file B: header + placeholder + spacing = 3
    assert_eq!(
        file_render_height(&app.diff_files[1], &app.session),
        3
    );
    assert_eq!(app.total_lines(), 9);
}

#[test]
fn jumping_to_the_binary_file_lands_on_no_diff_line() {
    let mut app = fresh_app();
    app.diff_state.viewport_height = 10;
    app.jump_to_file(1);
    assert_eq!(app.diff_state.cursor_line, 6);
    assert_eq!(app.get_line_at_cursor(), None);
}

#[test]
fn locate_resolves_every_position_of_the_flattened_space() {
    let app = fresh_app();
    let expected = [
        Location::FileHeader { file: 0 },
        Location::HunkHeader { file: 0, hunk: 0 },
        Location::DiffLine { file: 0, old_lineno: Some(9), new_lineno: Some(9) },
        Location::DiffLine { file: 0, old_lineno: None, new_lineno: Some(10) },
        Location::DiffLine { file: 0, old_lineno: Some(11), new_lineno: None },
        Location::Spacing { file: 0 },
        Location::FileHeader { file: 1 },
        Location::Placeholder { file: 1 },
        Location::Spacing { file: 1 },
    ];
    for (p, want) in expected.iter().enumerate() {
        assert_eq!(
            locate(&app.diff_files, &app.session, p).as_ref(),
            Some(want)
        );
    }
    assert_eq!(locate(&app.diff_files, &app.session, 9), None);
}

#[test]
fn diff_lines_resolve_to_their_source_coordinates() {
    let mut app = fresh_app();
    app.diff_state.cursor_line = 2;
    assert_eq!(app.get_line_at_cursor(), Some((9, LineSide::New)));
    app.diff_state.cursor_line = 3;
    assert_eq!(app.get_line_at_cursor(), Some((10, LineSide::New)));
    app.diff_state.cursor_line = 4;
    assert_eq!(app.get_line_at_cursor(), Some((11, LineSide::Old)));
    app.diff_state.cursor_line = 1;
    assert_eq!(app.get_line_at_cursor(), None);
}

#[test]
fn a_single_block_comment_renders_on_three_lines_and_grows_the_total_by_three() {
    let mut app = fresh_app();
    let before = app.total_lines();
    let comment = Comment::new(
        String::from("please rename this"),
        CommentType::Suggestion,
        Some(LineSide::New),
    );
    assert_eq!(comment_display_lines(&comment), 3);
    app.enter_comment_mode(false, Some((10, LineSide::New)));
    app.comment_buffer = String::from("please rename this");
    app.save_comment();
    assert_eq!(app.total_lines(), before + 3);
}

#[test]
fn embedded_line_breaks_add_display_lines() {
    let comment = Comment::new(
        String::from("first\nsecond\nthird"),
        CommentType::Note,
        None,
    );
    assert_eq!(comment_display_lines(&comment), 5);
}

#[test]
fn added_comment_is_found_at_its_first_display_line_and_deleted_once() {
    let mut app = fresh_app();
    app.enter_comment_mode(false, Some((10, LineSide::New)));
    app.comment_buffer = String::from("look here");
    app.save_comment();

    // the comment block starts right under its diff line
    let total = app.total_lines();
    let mut first = None;
    for p in 0..total {
        if let Some(Location::LineComment { .. }) = locate(&app.diff_files, &app.session, p) {
            first = Some(p);
            break;
        }
    }
    let first = first.expect("the added comment must occupy a display line");
    assert_eq!(first, 4);

    app.diff_state.cursor_line = first;
    assert_eq!(
        app.find_comment_at_cursor(),
        Some(CommentLocation::LineComment {
            path: String::from("a.rs"),
            line: 10,
            side: LineSide::New,
            index: 0,
        })
    );
    assert!(app.delete_comment_at_cursor());
    assert!(!app.delete_comment_at_cursor());
    assert_eq!(app.find_comment_at_cursor(), None);
}

#[test]
fn toggling_reviewed_twice_restores_flag_and_height() {
    let mut app = fresh_app();
    let path = String::from("a.rs");
    let before = file_render_height(&app.diff_files[0], &app.session);
    assert!(!app.session.is_file_reviewed(&path));

    app.toggle_reviewed();
    assert!(app.session.is_file_reviewed(&path));
    assert_eq!(file_render_height(&app.diff_files[0], &app.session), 1);
    assert_eq!(app.total_lines(), 9 - (before - 1));

    app.toggle_reviewed();
    assert!(!app.session.is_file_reviewed(&path));
    assert_eq!(file_render_height(&app.diff_files[0], &app.session), before);
    assert_eq!(app.total_lines(), 9);
}

#[test]
fn cursor_round_trip_returns_to_the_start() {
    let mut app = fresh_app();
    app.diff_state.viewport_height = 4;
    app.cursor_down(5);
    assert_eq!(app.diff_state.cursor_line, 5);
    app.cursor_up(5);
    assert_eq!(app.diff_state.cursor_line, 0);
    // clamped at both ends
    app.cursor_down(100);
    assert_eq!(app.diff_state.cursor_line, 8);
    app.cursor_up(100);
    assert_eq!(app.diff_state.cursor_line, 0);
}

#[test]
fn every_operation_leaves_the_cursor_inside_the_viewport() {
    let mut app = fresh_app();
    app.diff_state.viewport_height = 3;
    let contained = |app: &App| {
        app.diff_state.scroll_offset <= app.diff_state.cursor_line
            && app.diff_state.cursor_line < app.diff_state.scroll_offset + 3
    };
    app.cursor_down(7);
    assert!(contained(&app));
    app.cursor_up(2);
    assert!(contained(&app));
    app.scroll_down(4);
    assert!(contained(&app));
    app.scroll_up(1);
    assert!(contained(&app));
    app.jump_to_file(1);
    assert!(contained(&app));
    app.next_hunk();
    assert!(contained(&app));
    app.prev_hunk();
    assert!(contained(&app));
    app.center_cursor();
    assert!(contained(&app));
    app.toggle_reviewed();
    assert!(contained(&app));
}

#[test]
fn hunk_navigation_finds_the_only_hunk_header() {
    let mut app = fresh_app();
    app.diff_state.viewport_height = 9;
    app.next_hunk();
    assert_eq!(app.diff_state.cursor_line, 1);
    // no further hunk: stays put
    app.next_hunk();
    assert_eq!(app.diff_state.cursor_line, 1);
    app.cursor_down(4);
    app.prev_hunk();
    assert_eq!(app.diff_state.cursor_line, 1);
    // none before the hunk header: goes to the top
    app.prev_hunk();
    assert_eq!(app.diff_state.cursor_line, 0);
}

#[test]
fn horizontal_scrolling_saturates_at_the_left_edge() {
    let mut app = fresh_app();
    app.scroll_right(8);
    assert_eq!(app.diff_state.scroll_x, 8);
    app.scroll_left(3);
    assert_eq!(app.diff_state.scroll_x, 5);
    app.scroll_left(100);
    assert_eq!(app.diff_state.scroll_x, 0);
}

#[test]
fn reviewed_files_collapse_and_skip_their_interior() {
    let mut app = fresh_app();
    app.toggle_reviewed();
    assert_eq!(app.total_lines(), 4);
    assert_eq!(
        locate(&app.diff_files, &app.session, 0),
        Some(Location::FileHeader { file: 0 })
    );
    assert_eq!(
        locate(&app.diff_files, &app.session, 1),
        Some(Location::FileHeader { file: 1 })
    );
}

#[test]
fn empty_comments_are_refused() {
    let mut app = fresh_app();
    app.enter_comment_mode(true, None);
    app.comment_buffer = String::from("   \n\t ");
    app.save_comment();
    let msg = app.message.clone().expect("a refusal message is shown");
    assert_eq!(msg.content, "Comment cannot be empty");
    assert_eq!(app.total_lines(), 9);
}

#[test]
fn file_comments_are_trimmed_and_counted() {
    let mut app = fresh_app();
    app.enter_comment_mode(true, None);
    app.comment_buffer = String::from("  overall fine \n");
    app.save_comment();
    let path = String::from("a.rs");
    let review = app.session.get_file(&path).expect("record exists");
    assert_eq!(review.file_comments.len(), 1);
    assert_eq!(review.file_comments[0].content, "overall fine");
    assert_eq!(app.total_lines(), 12);
}

#[test]
fn reload_preserves_review_state_by_path() {
    let mut app = fresh_app();
    app.diff_state.viewport_height = 5;
    app.toggle_reviewed();
    let path = String::from("a.rs");
    assert!(app.session.is_file_reviewed(&path));

    // same paths, one more context line in file A
    let mut a2 = file_a();
    a2.hunks[0].lines.push(context_line(12, 13, "fn more() {}"));
    let n = app.reload_diff_files(vec![a2, file_b()]);
    assert_eq!(n, Some(2));
    assert!(app.session.is_file_reviewed(&path));
    // still collapsed: header + spacing bookkeeping unchanged for A
    assert_eq!(file_render_height(&app.diff_files[0], &app.session), 1);
}

#[test]
fn reload_after_a_rename_keeps_state_when_the_caller_rekeys() {
    let mut app = fresh_app();
    app.diff_state.viewport_height = 5;
    let old_path = String::from("a.rs");
    app.toggle_reviewed();
    app.session.add_file_comment(
        &old_path,
        Comment::new(String::from("keep me"), CommentType::Note, None),
    );
    assert!(app.session.is_file_reviewed(&old_path));

    // path identity across renames is the caller's responsibility: re-key
    // the record before handing over the renamed snapshot
    for entry in app.session.files.iter_mut() {
        if entry.0 == "a.rs" {
            entry.0 = String::from("a_renamed.rs");
        }
    }
    let mut renamed = file_a();
    renamed.path = String::from("a_renamed.rs");
    renamed.status = FileStatus::Renamed;
    let n = app.reload_diff_files(vec![renamed, file_b()]);
    assert_eq!(n, Some(2));

    let new_path = String::from("a_renamed.rs");
    assert!(app.session.is_file_reviewed(&new_path));
    let review = app.session.get_file(&new_path).expect("record kept");
    assert_eq!(review.file_comments.len(), 1);
    assert_eq!(review.file_comments[0].content, "keep me");
}

#[test]
fn reload_keeps_the_selected_file_by_path() {
    let mut app = fresh_app();
    app.diff_state.viewport_height = 5;
    app.jump_to_file(1);
    assert_eq!(app.diff_state.current_file_idx, 1);

    // file B moves to the front in the new snapshot
    let n = app.reload_diff_files(vec![file_b(), file_a()]);
    assert_eq!(n, Some(2));
    assert_eq!(app.diff_state.current_file_idx, 0);
    assert_eq!(app.diff_files[0].path, "b.bin");
}

#[test]
fn deleting_side_partitioned_comments_uses_the_side_filtered_index() {
    let mut app = fresh_app();
    let path = String::from("a.rs");
    // line 9 carries both sides in storage order: old, new, old
    app.session.add_line_comment(
        &path,
        9,
        Comment::new(String::from("old one"), CommentType::Note, Some(LineSide::Old)),
    );
    app.session.add_line_comment(
        &path,
        9,
        Comment::new(String::from("new one"), CommentType::Note, Some(LineSide::New)),
    );
    app.session.add_line_comment(
        &path,
        9,
        Comment::new(String::from("old two"), CommentType::Note, Some(LineSide::Old)),
    );
    // delete the second old-side comment: storage index 2, side index 1
    assert!(app.session.delete_line_comment(&path, 9, LineSide::Old, 1));
    let review = app.session.get_file(&path).expect("record exists");
    assert_eq!(review.line_comments[0].1.len(), 2);
    assert_eq!(review.line_comments[0].1[0].content, "old one");
    assert_eq!(review.line_comments[0].1[1].content, "new one");
}

#[test]
fn an_empty_snapshot_is_a_single_empty_space() {
    let session = ReviewSession::new(String::from("/repo"), String::from("abc123"));
    let mut app = App::new(session, vec![]).unwrap();
    assert_eq!(app.total_lines(), 0);
    assert_eq!(app.get_line_at_cursor(), None);
    app.cursor_down(3);
    assert_eq!(app.diff_state.cursor_line, 0);
    assert_eq!(app.reviewed_count(), 0);
    assert_eq!(app.file_count(), 0);
}

#[test]
fn file_navigation_jumps_to_the_neighbouring_header() {
    let mut app = fresh_app();
    app.diff_state.viewport_height = 9;
    app.next_file();
    // file B's header line, top of the viewport, both selections on B
    assert_eq!(app.diff_state.cursor_line, 6);
    assert_eq!(app.diff_state.scroll_offset, 6);
    assert_eq!(app.diff_state.current_file_idx, 1);
    assert_eq!(app.file_list_state.selected, 1);
    // already on the last file: a self-jump to its header
    app.next_file();
    assert_eq!(app.diff_state.cursor_line, 6);
    assert_eq!(app.diff_state.current_file_idx, 1);
    app.prev_file();
    assert_eq!(app.diff_state.cursor_line, 0);
    assert_eq!(app.diff_state.scroll_offset, 0);
    assert_eq!(app.diff_state.current_file_idx, 0);
    assert_eq!(app.file_list_state.selected, 0);
    // already on file 0: a self-jump to its header
    app.prev_file();
    assert_eq!(app.diff_state.cursor_line, 0);
    assert_eq!(app.diff_state.current_file_idx, 0);
}

#[test]
fn file_list_navigation_jumps_like_a_selection() {
    let mut app = fresh_app();
    app.diff_state.viewport_height = 9;
    app.file_list_down(5);
    assert_eq!(app.file_list_state.selected, 1);
    assert_eq!(app.diff_state.current_file_idx, 1);
    assert_eq!(app.diff_state.cursor_line, 6);
    assert_eq!(app.diff_state.scroll_offset, 6);
    app.file_list_up(1);
    assert_eq!(app.file_list_state.selected, 0);
    assert_eq!(app.diff_state.current_file_idx, 0);
    assert_eq!(app.diff_state.cursor_line, 0);
}
