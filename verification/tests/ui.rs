use pesto::ui::{
    category_color, dashboard_panel, eta_label, file_status_mark, files_shown, history_name_cell,
    history_title, pad_right, screen_layout, search_bar_view, short_file_name, tab_index, too_small_text,
    upload_help_text, AppState, DashboardPanel, FileStatus, ScreenLayout, Tint,
};

#[test]
fn layout_by_terminal_size() {
    assert_eq!(screen_layout(39, 50), ScreenLayout::TooSmall);
    assert_eq!(screen_layout(80, 9), ScreenLayout::TooSmall);
    assert_eq!(screen_layout(40, 10), ScreenLayout::Compact);
    assert_eq!(screen_layout(80, 19), ScreenLayout::Compact);
    assert_eq!(screen_layout(80, 20), ScreenLayout::Full);
    assert_eq!(too_small_text(30, 8), "Terminal too small\n30x8 — need 40x10");
}

#[test]
fn tabs_and_panels() {
    assert_eq!(tab_index(AppState::Dashboard), 0);
    assert_eq!(tab_index(AppState::Browser), 1);
    assert_eq!(tab_index(AppState::History), 2);
    assert_eq!(tab_index(AppState::Config), 3);
    assert_eq!(dashboard_panel(true, 2, 0), DashboardPanel::FileProgress);
    assert_eq!(dashboard_panel(true, 0, 3), DashboardPanel::Settings);
    assert_eq!(dashboard_panel(false, 2, 3), DashboardPanel::Settings);
    assert_eq!(dashboard_panel(false, 0, 0), DashboardPanel::Idle);
}

#[test]
fn eta_formats_minutes_and_padded_seconds() {
    assert_eq!(eta_label(Some(0)), "ETA 0:00");
    assert_eq!(eta_label(Some(65)), "ETA 1:05");
    assert_eq!(eta_label(Some(3600)), "ETA 60:00");
    assert_eq!(eta_label(None), "ETA --:--");
}

#[test]
fn file_rows_fit_the_panel() {
    assert_eq!(files_shown(0, 10), 0);
    assert_eq!(files_shown(5, 0), 0);
    assert_eq!(files_shown(5, 1), 1);
    assert_eq!(files_shown(5, 6), 3);
    assert_eq!(files_shown(2, 10), 2);
}

#[test]
fn file_states() {
    assert_eq!(file_status_mark(FileStatus::Done), ("✓".to_string(), Tint::Green));
    assert_eq!(file_status_mark(FileStatus::Failed), ("✗".to_string(), Tint::Red));
    assert_eq!(file_status_mark(FileStatus::Active), ("▶".to_string(), Tint::Cyan));
    assert_eq!(file_status_mark(FileStatus::Pending), (" ".to_string(), Tint::DarkGray));
}

#[test]
fn long_names_are_shortened() {
    assert_eq!(short_file_name("abcdefghij", 6), "abcde…");
    assert_eq!(short_file_name("abcdef", 6), "abcdef");
    assert_eq!(short_file_name("abcdefghij", 3), "abcdefghij");
    assert_eq!(short_file_name("ééééé", 5), "éé…");
}

#[test]
fn history_columns() {
    assert_eq!(history_name_cell("short"), format!("{:<35}", "short"));
    let long = "a".repeat(40);
    assert_eq!(history_name_cell(&long), format!("{:<35}", format!("{}…", "a".repeat(33))));
    assert_eq!(pad_right("Movie", 8), format!("{:<8}", "Movie"));
    assert_eq!(pad_right("Documentary", 8), "Documentary");
    assert_eq!(history_title(7), " History (7 records) ");
}

#[test]
fn search_bar_modes() {
    assert_eq!(search_bar_view(true, "abc"), (" /abc_".to_string(), Tint::Yellow));
    assert_eq!(
        search_bar_view(false, ""),
        (" Press / to search, s for stats, Tab to switch tab".to_string(), Tint::DarkGray)
    );
    assert_eq!(
        search_bar_view(false, "x"),
        (" Filter: x  (/ to edit, Esc to clear)".to_string(), Tint::Cyan)
    );
}

#[test]
fn status_help_and_categories() {
    assert_eq!(
        upload_help_text("Uploading", true),
        "Uploading  •  p: resume  •  x: cancel  •  Tab: switch  •  q: quit"
    );
    assert_eq!(
        upload_help_text("", false),
        "  •  p: pause  •  x: cancel  •  Tab: switch  •  q: quit"
    );
    assert_eq!(category_color("Movie"), Tint::Magenta);
    assert_eq!(category_color("TV"), Tint::Blue);
    assert_eq!(category_color("Anime"), Tint::Yellow);
    assert_eq!(category_color("Other"), Tint::DarkGray);
}
