use tmux_agent_sidebar::geometry::Rect;
use tmux_agent_sidebar::git::GitFileEntry;
use tmux_agent_sidebar::state::AppState;
use tmux_agent_sidebar::ui::bottom::git::{
    draw_git_content, file_row_text, header_row_text, place_clean, FileRow, GitContent, GitView,
    HeaderRow, Section, CLEAN_TEXT,
};
use tmux_agent_sidebar::ui::line::{no_texts, one_text, RowText};

fn put(rows: &mut [String], at: u16, text: String) {
    if let Some(row) = rows.get_mut(at as usize) {
        *row = text.trim_end().to_string();
    }
}

fn put_clean(rows: &mut [String], area: Rect) {
    let place = place_clean(area);
    let blanks = " ".repeat(place.x as usize);
    let shown: String = CLEAN_TEXT.chars().take(place.width as usize).collect();
    put(rows, place.y, format!("{blanks}{shown}"));
}

/// The git panel as plain text. Trailing white space on each row and trailing empty
/// rows are left out.
fn render(state: &mut AppState, width: u16, height: u16) -> String {
    let area = Rect::new(0, 0, width, height);
    let mut rows = vec![String::new(); height as usize];
    match draw_git_content(state, area) {
        GitView::Entries { .. } => panic!("no checkout"),
        GitView::Clean => put_clean(&mut rows, area),
        GitView::Checkout { header, header_area, content } => {
            for (index, row) in header.into_iter().enumerate() {
                let shown = header_row_text(&state.git, row, width as usize);
                put(&mut rows, header_area.y + index as u16, shown.line());
            }
            match content {
                GitContent::NoRoom => {}
                GitContent::Clean { area } => put_clean(&mut rows, area),
                GitContent::Files { area, rows: files, offset } => {
                    let seen = files.into_iter().skip(offset as usize);
                    for (index, row) in seen.take(area.height as usize).enumerate() {
                        let shown = file_row_text(&state.git, row, width as usize);
                        put(&mut rows, area.y + index as u16, shown.line());
                    }
                }
            }
        }
    }
    while rows.last().is_some_and(|row| row.is_empty()) {
        rows.pop();
    }
    rows.join("\n")
}

fn on_branch(branch: &str) -> AppState {
    let mut state = AppState::new(String::new());
    state.git.branch = branch.into();
    state
}

fn file_entry(status: char, name: &str, additions: usize, deletions: usize) -> GitFileEntry {
    GitFileEntry {
        status,
        name: name.into(),
        additions,
        deletions,
        path: String::new(),
    }
}

fn rule(width: usize) -> String {
    "─".repeat(width)
}

#[test]
fn header_renders_branch_with_ahead_behind_and_pr() {
    let mut state = on_branch("main");
    state.git.ahead_behind = Some((2, 1));
    state.git.pr_number = Some("7".into());
    let wanted = [
        "".to_string(),
        "main                             ↑2↓1 #7".to_string(),
        rule(40),
        "           Working tree clean".to_string(),
    ];
    assert_eq!(render(&mut state, 40, 4), wanted.join("\n"));
}

#[test]
fn header_renders_branch_with_ahead_behind_without_pr() {
    let mut state = on_branch("main");
    state.git.ahead_behind = Some((2, 1));
    let wanted = [
        "".to_string(),
        "main                                ↑2↓1".to_string(),
        rule(40),
        "           Working tree clean".to_string(),
    ];
    assert_eq!(render(&mut state, 40, 4), wanted.join("\n"));
}

#[test]
fn header_truncates_long_branch_to_fit_width() {
    let mut state = on_branch("feature/sidebar/really-long-branch-name-that-should-truncate");
    state.git.ahead_behind = Some((2, 1));
    state.git.pr_number = Some("7".into());
    let wanted = [
        "".to_string(),
        "feature/sidebar/really…  ↑2↓1 #7".to_string(),
        rule(32),
        "       Working tree clean".to_string(),
    ];
    assert_eq!(render(&mut state, 32, 4), wanted.join("\n"));
}

#[test]
fn header_includes_blank_row_branch_and_diff_summary() {
    let mut state = on_branch("main");
    state.git.diff_stat = Some((1, 0));
    let wanted = [
        "".to_string(),
        "main".to_string(),
        "+1/-0                            0 files".to_string(),
        rule(40),
        "           Working tree clean".to_string(),
    ];
    assert_eq!(render(&mut state, 40, 6), wanted.join("\n"));
}

#[test]
fn header_has_no_diff_row_when_no_changes() {
    let mut state = on_branch("main");
    let wanted = [
        "".to_string(),
        "main".to_string(),
        rule(40),
        "           Working tree clean".to_string(),
    ];
    assert_eq!(render(&mut state, 40, 5), wanted.join("\n"));
}

#[test]
fn header_diff_summary_right_aligns_file_count_with_stats() {
    let mut state = on_branch("main");
    state.git.diff_stat = Some((10, 3));
    let wanted = [
        "".to_string(),
        "main".to_string(),
        "+10/-3                           0 files".to_string(),
        rule(40),
    ];
    assert_eq!(render(&mut state, 40, 4), wanted.join("\n"));
}

#[test]
fn header_diff_summary_right_aligns_file_count_without_stats() {
    let mut state = on_branch("main");
    state.git.staged_files = vec![file_entry('A', "new.rs", 1, 0)];
    let wanted = [
        "".to_string(),
        "main".to_string(),
        "                                 1 files".to_string(),
        rule(40),
        "Staged (1)".to_string(),
        "A new.rs                           +1/-0".to_string(),
    ];
    assert_eq!(render(&mut state, 40, 6), wanted.join("\n"));
}

fn overflowing(count: usize, more: &str) -> Vec<String> {
    let mut wanted = vec![
        "".to_string(),
        "main".to_string(),
        format!("                      {count} files"),
        rule(30),
        format!("Untracked ({count})"),
    ];
    wanted.extend((0..10).map(|i| format!("? file{i}.tmp")));
    wanted.push(format!("                       {more}"));
    wanted
}

#[test]
fn untracked_more_indicator_right_aligned_single_overflow() {
    let mut state = on_branch("main");
    state.git.untracked_files = (0..11).map(|i| format!("file{i}.tmp")).collect();
    assert_eq!(render(&mut state, 30, 20), overflowing(11, "+1 more").join("\n"));
}

#[test]
fn untracked_more_indicator_right_aligned_two_overflow() {
    let mut state = on_branch("main");
    state.git.untracked_files = (0..12).map(|i| format!("file{i}.tmp")).collect();
    assert_eq!(render(&mut state, 30, 20), overflowing(12, "+2 more").join("\n"));
}

#[test]
fn staged_file_without_diff_uses_full_width() {
    let mut state = on_branch("main");
    state.git.staged_files = vec![file_entry('M', "medium-length-name.rs", 0, 0)];
    let wanted = [
        "".to_string(),
        "main".to_string(),
        "                                 1 files".to_string(),
        rule(40),
        "Staged (1)".to_string(),
        "M medium-length-name.rs".to_string(),
    ];
    assert_eq!(render(&mut state, 40, 6), wanted.join("\n"));
}

#[test]
fn untracked_filename_is_truncated_with_ellipsis_at_narrow_width() {
    let mut state = on_branch("main");
    state.git.untracked_files =
        vec!["a-very-long-untracked-filename-that-exceeds-width.tmp".into()];
    let wanted = [
        "".to_string(),
        "main".to_string(),
        "                  1 files".to_string(),
        rule(25),
        "Untracked (1)".to_string(),
        "? a-very-long-untracked-…".to_string(),
    ];
    assert_eq!(render(&mut state, 25, 6), wanted.join("\n"));
}

#[test]
fn staged_file_at_narrow_width_fits_diff_and_name() {
    let mut state = on_branch("main");
    state.git.staged_files = vec![file_entry('A', "index.tsx", 100, 50)];
    let wanted = [
        "".to_string(),
        "main".to_string(),
        "             1 files".to_string(),
        rule(20),
        "Staged (1)".to_string(),
        "A index.tsx +100/-50".to_string(),
    ];
    assert_eq!(render(&mut state, 20, 6), wanted.join("\n"));
}

#[test]
fn header_fits_narrow_width_with_long_diff_stats() {
    let mut state = on_branch("feature/branch");
    state.git.pr_number = Some("1".into());
    state.git.diff_stat = Some((999, 888));
    let wanted = [
        "".to_string(),
        "feature/branch    #1".to_string(),
        "+999/-888    0 files".to_string(),
        rule(20),
        " Working tree clean".to_string(),
    ];
    assert_eq!(render(&mut state, 20, 5), wanted.join("\n"));
}

#[test]
fn pieces_of_a_row_stand_apart() {
    let mut state = on_branch("main");
    state.git.ahead_behind = Some((0, 3));
    state.git.pr_number = Some("5".into());
    let row = header_row_text(&state.git, HeaderRow::Branch, 20);
    assert_eq!(row.left, ["main"]);
    assert_eq!(row.right, ["↓3", " ", "#5"]);
    assert_eq!(row.gap, 11);
    state.git.ahead_behind = Some((0, 0));
    assert_eq!(header_row_text(&state.git, HeaderRow::Branch, 20).right, ["#5"]);
    state.git.unstaged_files = vec![file_entry('M', "a.rs", 1, 0)];
    let row = file_row_text(&state.git, FileRow::File(Section::Unstaged, 0), 40);
    assert_eq!(row.left, ["M ", "a.rs"]);
    assert_eq!(row.right, ["+1", "/", "-0"]);
    let title = file_row_text(&state.git, FileRow::Title(Section::Unstaged), 40);
    assert_eq!(title.line(), "Unstaged (1)");
    let gone = file_row_text(&state.git, FileRow::File(Section::Unstaged, 1), 40);
    assert_eq!(gone.line(), "");
}

#[test]
fn a_row_with_two_ends_fills_its_width() {
    let row = RowText::new(one_text("left".into()), one_text("right".into()), 12);
    assert_eq!(row.line(), "left   right");
    let tight = RowText::new(one_text("left".into()), one_text("right".into()), 6);
    assert_eq!(tight.line(), "leftright");
    let open = RowText::new(one_text("left".into()), no_texts(), 12);
    assert_eq!(open.line(), "left");
}

#[test]
fn a_clean_tree_is_told_in_the_middle() {
    assert_eq!(place_clean(Rect::new(2, 3, 40, 5)), Rect::new(13, 5, 18, 1));
    assert_eq!(place_clean(Rect::new(0, 0, 10, 2)), Rect::new(0, 0, 10, 1));
    assert_eq!(place_clean(Rect::new(0, 0, 10, 0)).height, 0);
}
