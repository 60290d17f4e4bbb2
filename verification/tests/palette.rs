use lib::palette::{
    command_palette_text_matches_terms, filter_command_palette_items_by_query,
    ordered_theme_ids_for_palette, CommandAction, CommandPaletteEscapeAction, CommandPaletteItem,
    CommandPaletteItemKind, CommandPaletteMode, CommandPaletteState, SHELL_DECIDE_THEME_ID,
};
use lib::view::TerminalView;

fn command_item(title: &str, keywords: &str, action: CommandAction) -> CommandPaletteItem {
    CommandPaletteItem::command(title, keywords, action)
}

fn actions_of(items: Vec<CommandPaletteItem>) -> Vec<CommandAction> {
    items
        .into_iter()
        .filter_map(|item| match item.kind {
            CommandPaletteItemKind::Command(action) => Some(action),
            CommandPaletteItemKind::Theme(_) => None,
        })
        .collect()
}

#[test]
fn escape_action_is_mode_dependent() {
    assert_eq!(
        TerminalView::command_palette_escape_action(CommandPaletteMode::Commands),
        CommandPaletteEscapeAction::ClosePalette
    );
    assert_eq!(
        TerminalView::command_palette_escape_action(CommandPaletteMode::Themes),
        CommandPaletteEscapeAction::BackToCommands
    );
}

#[test]
fn query_re_prefers_title_matches_over_keywords() {
    let items = vec![
        command_item("Close Tab", "remove tab", CommandAction::CloseTab),
        command_item("Rename Tab", "title name", CommandAction::RenameTab),
        command_item(
            "Restart App",
            "relaunch reopen restart",
            CommandAction::RestartApp,
        ),
        command_item("Reset Zoom", "font default", CommandAction::ZoomReset),
        command_item(
            "Check for Updates",
            "release version updater",
            CommandAction::CheckForUpdates,
        ),
    ];

    let filtered = filter_command_palette_items_by_query(items, "re");
    let actions = actions_of(filtered);

    assert_eq!(
        actions,
        vec![
            CommandAction::RenameTab,
            CommandAction::RestartApp,
            CommandAction::ZoomReset
        ]
    );
}

#[test]
fn query_uses_keywords_when_no_titles_match() {
    let items = vec![
        command_item("Zoom In", "font increase", CommandAction::ZoomIn),
        command_item("Zoom Out", "font decrease", CommandAction::ZoomOut),
        command_item("Reset Zoom", "font default", CommandAction::ZoomReset),
    ];

    let filtered = filter_command_palette_items_by_query(items, "font");
    let actions = actions_of(filtered);

    assert_eq!(
        actions,
        vec![
            CommandAction::ZoomIn,
            CommandAction::ZoomOut,
            CommandAction::ZoomReset
        ]
    );
}

#[test]
fn ordered_theme_ids_pin_current_theme_first() {
    let ordered = ordered_theme_ids_for_palette(
        vec![
            "nord".to_string(),
            "termy".to_string(),
            "dracula".to_string(),
            "nord".to_string(),
        ],
        "termy",
    );

    assert_eq!(
        ordered,
        vec!["termy", "dracula", "nord", SHELL_DECIDE_THEME_ID]
    );

    let ordered_with_missing_current =
        ordered_theme_ids_for_palette(vec!["nord".to_string(), "dracula".to_string()], "tokyo-night");

    assert_eq!(
        ordered_with_missing_current,
        vec!["tokyo-night", "dracula", "nord", SHELL_DECIDE_THEME_ID]
    );
}

#[test]
fn state_reset_clears_transient_fields() {
    let mut state = CommandPaletteState::new(false);
    state.open = true;
    state.mode = CommandPaletteMode::Themes;
    state.input.set_text("theme".to_string());
    state.filtered_items = vec![CommandPaletteItem::command(
        "New Tab",
        "tab",
        CommandAction::NewTab,
    )];
    state.selected = 99;
    state.scroll_animating = true;

    state.reset();

    assert!(state.input.text().is_empty());
    assert!(state.filtered_items.is_empty());
    assert_eq!(state.selected, 0);
    assert!(!state.scroll_animating);
    assert!(state.open);
    assert_eq!(state.mode, CommandPaletteMode::Themes);
}

#[test]
fn blank_query_keeps_every_item_in_order() {
    let items = vec![
        command_item("Zoom In", "font increase", CommandAction::ZoomIn),
        command_item("Quit", "exit", CommandAction::Quit),
    ];
    let filtered = filter_command_palette_items_by_query(items, "  \t ");
    assert_eq!(actions_of(filtered), vec![CommandAction::ZoomIn, CommandAction::Quit]);
}

#[test]
fn query_terms_must_all_prefix_words_and_ignore_case() {
    let items = vec![
        command_item("Move Tab Left", "reorder", CommandAction::MoveTabLeft),
        command_item("Move Tab Right", "reorder", CommandAction::MoveTabRight),
        command_item("Switch Tab Left", "previous", CommandAction::SwitchTabLeft),
    ];
    let filtered = filter_command_palette_items_by_query(items, "  MOVE   le ");
    assert_eq!(actions_of(filtered), vec![CommandAction::MoveTabLeft]);
}

#[test]
fn query_without_any_match_gives_nothing() {
    let items = vec![command_item("Zoom In", "font increase", CommandAction::ZoomIn)];
    let filtered = filter_command_palette_items_by_query(items, "xyz");
    assert!(filtered.is_empty());
}

#[test]
fn filtering_twice_equals_filtering_once() {
    let make = || {
        vec![
            command_item("Close Tab", "remove tab", CommandAction::CloseTab),
            command_item("Rename Tab", "title name", CommandAction::RenameTab),
            command_item("Reset Zoom", "font default", CommandAction::ZoomReset),
            command_item("Zoom In", "font increase", CommandAction::ZoomIn),
        ]
    };
    for query in ["re", "font", "tab", "zzz", ""] {
        let once = filter_command_palette_items_by_query(make(), query);
        let twice = filter_command_palette_items_by_query(once.clone(), query);
        assert_eq!(once, twice);
    }
}

#[test]
fn text_matches_terms_splits_on_punctuation() {
    let terms = vec!["sdk".to_string(), "ex".to_string()];
    assert!(command_palette_text_matches_terms("Native-SDK (example)", &terms));
    assert!(!command_palette_text_matches_terms("Native SDK", &terms));
    assert!(command_palette_text_matches_terms("anything", &[]));
    let dash = vec!["a-b".to_string()];
    assert!(!command_palette_text_matches_terms("a-b", &dash));
}

#[test]
fn ordering_theme_ids_twice_changes_nothing() {
    let once = ordered_theme_ids_for_palette(
        vec!["zenburn".to_string(), "ayu".to_string(), "ayu".to_string()],
        "monokai",
    );
    assert_eq!(once, vec!["monokai", "ayu", SHELL_DECIDE_THEME_ID, "zenburn"]);
    let twice = ordered_theme_ids_for_palette(once.clone(), "monokai");
    assert_eq!(once, twice);
}

#[test]
fn shell_decide_as_current_theme_is_listed_once() {
    let ordered = ordered_theme_ids_for_palette(vec![], SHELL_DECIDE_THEME_ID);
    assert_eq!(ordered, vec![SHELL_DECIDE_THEME_ID]);
}

#[test]
fn theme_entry_marks_the_active_theme() {
    let active = CommandPaletteItem::theme("tokyo-night".to_string(), true);
    assert_eq!(active.title, "\u{2713} tokyo-night");
    assert_eq!(active.keywords, "theme palette colors tokyo night");
    assert_eq!(active.kind, CommandPaletteItemKind::Theme("tokyo-night".to_string()));
    let other = CommandPaletteItem::theme("nord".to_string(), false);
    assert_eq!(other.title, "nord");
}

#[test]
fn clamp_selection_keeps_the_selection_on_the_list() {
    let mut state = CommandPaletteState::new(true);
    state.selected = 5;
    state.clamp_selection();
    assert_eq!(state.selected, 0);
    state.filtered_items = vec![
        command_item("A", "", CommandAction::Copy),
        command_item("B", "", CommandAction::Paste),
    ];
    state.selected = 7;
    state.clamp_selection();
    assert_eq!(state.selected, 1);
    state.clamp_selection();
    assert_eq!(state.selected, 1);
    state.selected = 0;
    state.clamp_selection();
    assert_eq!(state.selected, 0);
}
