use lib::palette::{
    CommandAction, CommandPaletteItem, CommandPaletteItemKind,
    CommandPaletteMode, SHELL_DECIDE_THEME_ID,
};
use lib::quit::{QuitCommand, QuitDecision, RestartOutcome};
use lib::tab_strip::{
    TabDragState, TabStripControlAction, TabStripControlOutcome, TabStripMouseMove,
    TitlebarMouseDown,
};
use lib::view::{
    CommandPaletteActionOutcome, CommandPaletteItemRun, CommandPaletteKeyOutcome, TerminalTab,
    TerminalView, Toast, ToastLevel,
};

fn tab(title: &str, running_process: bool, alternate_screen_mode: bool) -> TerminalTab {
    TerminalTab { title: title.to_string(), running_process, alternate_screen_mode }
}

fn entries() -> Vec<CommandPaletteItem> {
    vec![
        CommandPaletteItem::command("New Tab", "open tab", CommandAction::NewTab),
        CommandPaletteItem::command("Switch Theme", "colors", CommandAction::SwitchTheme),
        CommandPaletteItem::command("Zoom In", "font increase", CommandAction::ZoomIn),
    ]
}

fn view_with(tabs: Vec<TerminalTab>, warn: bool) -> TerminalView {
    TerminalView::new("nord".to_string(), tabs, true, warn, true)
}

#[test]
fn tab_strip_chrome_visible_matches_auto_hide_policy() {
    assert!(!TerminalView::tab_strip_chrome_visible(true, 1));
    assert!(!TerminalView::tab_strip_chrome_visible(true, 0));
    assert!(TerminalView::tab_strip_chrome_visible(false, 1));
    assert!(TerminalView::tab_strip_chrome_visible(true, 2));
}

#[test]
fn should_render_tab_strip_chrome_reads_the_view() {
    let one = view_with(vec![tab("a", false, false)], false);
    assert!(!one.should_render_tab_strip_chrome());
    let two = view_with(vec![tab("a", false, false), tab("b", false, false)], false);
    assert!(two.should_render_tab_strip_chrome());
}

#[test]
fn compact_vertical_tab_labels() {
    assert_eq!(TerminalView::compact_vertical_tab_label(0, "zsh"), "1");
    assert_eq!(TerminalView::compact_vertical_tab_label(8, "zsh"), "9");
    assert_eq!(TerminalView::compact_vertical_tab_label(9, "zsh"), "z");
    assert_eq!(TerminalView::compact_vertical_tab_label(41, "\u{e9}t\u{e9}"), "\u{e9}");
    assert_eq!(TerminalView::compact_vertical_tab_label(9, ""), "\u{2022}");
}

#[test]
fn palette_opens_on_commands_and_escape_closes_it() {
    let mut view = view_with(vec![], false);
    assert!(!view.is_command_palette_open());
    assert!(view.open_command_palette(entries(), vec![]));
    assert!(view.is_command_palette_open());
    assert_eq!(view.filtered_command_palette_items().len(), 3);
    view.command_palette.input.set_text("zoom".to_string());
    let out = view.handle_command_palette_key_down("escape", entries(), vec![]);
    assert_eq!(out, CommandPaletteKeyOutcome::Closed(true));
    assert!(!view.is_command_palette_open());
    assert!(view.filtered_command_palette_items().is_empty());
    assert!(view.command_palette.input.text().is_empty());
    assert_eq!(view.command_palette.mode, CommandPaletteMode::Commands);
    assert!(!view.close_command_palette());
    assert_eq!(
        view.handle_command_palette_key_down("escape", entries(), vec![]),
        CommandPaletteKeyOutcome::Closed(false)
    );
}

#[test]
fn arrow_keys_move_the_selection_within_the_list() {
    let mut view = view_with(vec![], false);
    view.open_command_palette(entries(), vec![]);
    let key = |view: &mut TerminalView, k: &str| view.handle_command_palette_key_down(k, entries(), vec![]);
    assert_eq!(key(&mut view, "up"), CommandPaletteKeyOutcome::Unchanged);
    assert_eq!(key(&mut view, "down"), CommandPaletteKeyOutcome::SelectionMoved(3));
    assert_eq!(key(&mut view, "down"), CommandPaletteKeyOutcome::SelectionMoved(3));
    assert_eq!(view.command_palette.selected, 2);
    assert_eq!(key(&mut view, "down"), CommandPaletteKeyOutcome::Unchanged);
    assert_eq!(key(&mut view, "up"), CommandPaletteKeyOutcome::SelectionMoved(3));
    assert_eq!(view.command_palette.selected, 1);
    assert_eq!(key(&mut view, "tab"), CommandPaletteKeyOutcome::Unchanged);
    assert_eq!(
        key(&mut view, "enter"),
        CommandPaletteKeyOutcome::Executed(Some(CommandPaletteItemRun::Action(
            CommandAction::SwitchTheme,
            CommandPaletteActionOutcome { keep_open: true, toast: None, notify: false },
        )))
    );
    assert!(view.is_command_palette_open());
    assert_eq!(view.command_palette.selected, 1);
}

#[test]
fn selection_past_the_end_runs_the_last_item() {
    let mut view = view_with(vec![], false);
    assert_eq!(view.execute_command_palette_selection(), None);
    assert_eq!(
        view.handle_command_palette_key_down("enter", entries(), vec![]),
        CommandPaletteKeyOutcome::Executed(None)
    );
    view.open_command_palette(entries(), vec![]);
    view.command_palette.selected = 40;
    assert_eq!(
        view.execute_command_palette_selection(),
        Some(CommandPaletteItemRun::Action(
            CommandAction::ZoomIn,
            CommandPaletteActionOutcome {
                keep_open: false,
                toast: Some(Toast { level: ToastLevel::Info, message: "Zoomed in".to_string() }),
                notify: false,
            },
        ))
    );
    assert!(!view.is_command_palette_open());
    assert!(view.filtered_command_palette_items().is_empty());
}

#[test]
fn theme_mode_lists_ordered_themes_and_escape_goes_back() {
    let mut view = view_with(vec![], false);
    view.open_command_palette(entries(), vec![]);
    assert!(view.set_command_palette_mode(
        CommandPaletteMode::Themes,
        entries(),
        vec!["dracula".to_string(), "nord".to_string()],
    ));
    let titles: Vec<String> =
        view.filtered_command_palette_items().iter().map(|item| item.title.clone()).collect();
    assert_eq!(titles, vec!["\u{2713} nord", "dracula", SHELL_DECIDE_THEME_ID]);
    view.command_palette.selected = 2;
    assert_eq!(
        view.handle_command_palette_key_down("escape", entries(), vec!["dracula".to_string()]),
        CommandPaletteKeyOutcome::BackToCommands(true)
    );
    assert!(view.is_command_palette_open());
    assert_eq!(view.command_palette.mode, CommandPaletteMode::Commands);
    assert_eq!(view.command_palette.selected, 0);
    assert_eq!(view.filtered_command_palette_items(), entries().as_slice());
}

#[test]
fn refresh_filters_by_the_query_and_clamps_the_selection() {
    let mut view = view_with(vec![], false);
    view.open_command_palette(entries(), vec![]);
    view.command_palette.selected = 2;
    view.command_palette.input.set_text("zoom".to_string());
    assert!(view.refresh_command_palette_matches(entries()));
    assert_eq!(view.filtered_command_palette_items().len(), 1);
    assert_eq!(view.command_palette.selected, 0);
    view.command_palette.scroll_animating = true;
    view.command_palette.input.set_text("nothing".to_string());
    assert!(!view.refresh_command_palette_matches(entries()));
    assert!(!view.command_palette.scroll_animating);
}

#[test]
fn palette_actions_close_the_palette_except_the_theme_switcher() {
    let mut view = view_with(vec![], false);
    view.open_command_palette(entries(), vec![]);
    match view.execute_command_palette_item(CommandPaletteItemKind::Command(CommandAction::SwitchTheme)) {
        CommandPaletteItemRun::Action(action, out) => {
            assert_eq!(action, CommandAction::SwitchTheme);
            assert!(out.keep_open);
            assert!(out.toast.is_none());
        }
        CommandPaletteItemRun::SelectTheme(_) => panic!("an action was expected"),
    }
    assert!(view.is_command_palette_open());
    let out = view.execute_command_palette_action(CommandAction::OpenConfig);
    assert!(!out.keep_open);
    assert!(out.notify);
    let toast = out.toast.unwrap();
    assert_eq!(toast.level, ToastLevel::Info);
    assert_eq!(toast.message, "Opened settings file");
    assert!(!view.is_command_palette_open());
    let out = view.execute_command_palette_action(CommandAction::NewTab);
    assert_eq!(out.toast.unwrap().level, ToastLevel::Success);
    assert!(view.execute_command_palette_action(CommandAction::Copy).toast.is_none());
}

#[test]
fn choosing_a_theme_reports_the_outcome() {
    let mut view = view_with(vec![], false);
    view.open_command_palette(entries(), vec![]);
    match view.execute_command_palette_item(CommandPaletteItemKind::Theme("dracula".to_string())) {
        CommandPaletteItemRun::SelectTheme(id) => assert_eq!(id, "dracula"),
        CommandPaletteItemRun::Action(..) => panic!("a theme was expected"),
    }
    let failed = view.select_theme_from_palette("dracula", Err("disk full".to_string()));
    assert_eq!(failed.toast.level, ToastLevel::Error);
    assert_eq!(failed.toast.message, "disk full");
    assert!(failed.notify);
    assert!(view.is_command_palette_open());
    let same = view.select_theme_from_palette("nord", Ok(false));
    assert_eq!(same.toast.message, "Theme already set to nord");
    assert!(same.notify);
    assert!(!view.is_command_palette_open());
    let again = view.select_theme_from_palette("nord", Ok(false));
    assert!(!again.notify);
    let set = view.select_theme_from_palette("dracula", Ok(true));
    assert_eq!(set.toast.level, ToastLevel::Success);
    assert_eq!(set.toast.message, "Theme set to nord");
    assert!(set.notify);
}

#[test]
fn shortcut_label_shown_only_with_key_bindings() {
    let view = view_with(vec![], false);
    assert_eq!(view.command_palette_shortcut(Some("ctrl-t".to_string())), Some("ctrl-t".to_string()));
    let hidden = TerminalView::new("nord".to_string(), vec![], false, false, false);
    assert_eq!(hidden.command_palette_shortcut(Some("ctrl-t".to_string())), None);
}

#[test]
fn busy_tabs_are_named_in_tab_order() {
    let view = view_with(
        vec![tab("  \t", true, false), tab("idle", false, false), tab(" htop ", false, true)],
        true,
    );
    assert_eq!(view.busy_tab_titles_for_quit("Terminal"), vec!["Terminal 1", "htop"]);
}

#[test]
fn quit_warning_names_and_counts_the_busy_tabs() {
    let view = view_with(vec![], true);
    assert_eq!(
        view.quit_warning_detail(&["vim".to_string()]),
        "1 tab has running a command or fullscreen terminal app:\n- vim\n\nQuit anyway?"
    );
    assert_eq!(
        view.quit_warning_detail(&["vim".to_string(), "Terminal 3".to_string()]),
        "2 tabs have running a command or fullscreen terminal app:\n- vim\n- Terminal 3\n\nQuit anyway?"
    );
    assert_eq!(
        view.quit_warning_detail(&[]),
        "0 tabs have running a command or fullscreen terminal app:\n\nQuit anyway?"
    );
}

#[test]
fn quitting_with_idle_tabs_needs_no_prompt() {
    let mut view = view_with(vec![tab("zsh", false, false)], true);
    assert_eq!(view.request_application_quit("Terminal"), QuitDecision::QuitApplication);
    assert!(view.allow_quit_without_prompt);
    assert_eq!(view.handle_window_should_close_request("Terminal"), QuitDecision::CloseWindow);
    assert!(!view.allow_quit_without_prompt);
    assert_eq!(view.handle_window_should_close_request("Terminal"), QuitDecision::CloseWindow);
}

#[test]
fn quitting_with_busy_tabs_prompts_once() {
    let mut view = view_with(vec![tab("vim", true, false)], true);
    match view.handle_window_should_close_request("Terminal") {
        QuitDecision::Prompt(detail) => assert!(detail.starts_with("1 tab has running")),
        other => panic!("a prompt was expected, got {:?}", other),
    }
    assert!(view.quit_prompt_in_flight);
    assert_eq!(view.request_application_quit("Terminal"), QuitDecision::Ignored);
    assert!(!view.quit_prompt_answered(false));
    assert!(!view.allow_quit_without_prompt);
    assert!(matches!(view.request_application_quit("Terminal"), QuitDecision::Prompt(_)));
    assert!(view.quit_prompt_answered(true));
    assert!(view.allow_quit_without_prompt);
    assert_eq!(view.handle_window_should_close_request("Terminal"), QuitDecision::CloseWindow);
}

#[test]
fn busy_tabs_without_warning_quit_at_once() {
    let mut view = view_with(vec![tab("vim", true, false)], false);
    assert_eq!(view.request_quit(lib::quit::QuitRequestTarget::WindowClose, "T"), QuitDecision::CloseWindow);
    assert!(!view.allow_quit_without_prompt);
}

#[test]
fn quit_and_restart_commands() {
    let mut view = view_with(vec![], true);
    assert_eq!(view.execute_quit_command_action(CommandAction::NewTab, "T"), None);
    assert_eq!(view.execute_quit_command_action(CommandAction::RestartApp, "T"), Some(QuitCommand::Restart));
    match view.restart_finished(Err("no exe".to_string())) {
        RestartOutcome::Failed(toast) => assert_eq!(toast.message, "Restart failed: no exe"),
        RestartOutcome::QuitNow => panic!("a failure was expected"),
    }
    assert!(!view.allow_quit_without_prompt);
    assert_eq!(view.restart_finished(Ok(())), RestartOutcome::QuitNow);
    assert!(view.allow_quit_without_prompt);
    assert_eq!(
        view.execute_quit_command_action(CommandAction::Quit, "T"),
        Some(QuitCommand::Quit(QuitDecision::QuitApplication))
    );
}

#[test]
fn titlebar_press_arms_the_window_move() {
    assert!(TerminalView::titlebar_move_armed_after_mouse_down(false, 1));
    assert!(!TerminalView::titlebar_move_armed_after_mouse_down(false, 2));
    assert!(!TerminalView::titlebar_move_armed_after_mouse_down(true, 1));
    assert!(!TerminalView::titlebar_move_armed_after_mouse_up());
    let mut view = view_with(vec![], false);
    assert_eq!(view.handle_unified_titlebar_mouse_down(false, false, 1), TitlebarMouseDown::Ignored);
    assert_eq!(view.handle_unified_titlebar_mouse_down(true, false, 2), TitlebarMouseDown::ToggleWindowZoom);
    assert!(!view.titlebar_move_armed);
    assert_eq!(view.handle_unified_titlebar_mouse_down(true, false, 1), TitlebarMouseDown::ArmedWindowMove);
    assert!(view.titlebar_move_armed);
    assert_eq!(view.handle_unified_titlebar_mouse_down(true, true, 1), TitlebarMouseDown::PassThrough);
    assert!(!view.titlebar_move_armed);
    view.handle_unified_titlebar_mouse_down(true, false, 1);
    assert!(view.handle_unified_titlebar_mouse_up(true));
    assert!(!view.titlebar_move_armed);
    assert!(!view.handle_unified_titlebar_mouse_up(false));
}

#[test]
fn window_move_starts_once_per_arming() {
    assert!(TerminalView::should_start_titlebar_window_move(true, true, false));
    assert!(!TerminalView::should_start_titlebar_window_move(true, true, true));
    assert!(!TerminalView::should_start_titlebar_window_move(true, false, false));
    let mut view = view_with(vec![], false);
    view.handle_unified_titlebar_mouse_down(true, false, 1);
    assert!(!view.maybe_start_titlebar_window_move(false));
    assert!(view.maybe_start_titlebar_window_move(true));
    assert!(!view.maybe_start_titlebar_window_move(true));
}

#[test]
fn mouse_move_clears_hover_and_reports_drags() {
    let mut view = view_with(vec![], false);
    view.tab_strip.hovered_tab = Some(1);
    view.tab_strip.hovered_tab_close = Some(1);
    assert_eq!(
        view.handle_titlebar_tab_strip_mouse_move(false),
        TabStripMouseMove::Settle { commit_drag: false, hover_changed: true }
    );
    assert_eq!(view.tab_strip.hovered_tab, None);
    assert_eq!(view.tab_strip.hovered_tab_close, Some(1));
    assert_eq!(
        view.handle_titlebar_tab_strip_mouse_move(false),
        TabStripMouseMove::Settle { commit_drag: false, hover_changed: true }
    );
    assert_eq!(view.tab_strip.hovered_tab_close, None);
    view.tab_strip.drag = Some(TabDragState { source_index: 0, drop_slot: Some(2) });
    view.handle_unified_titlebar_mouse_down(true, false, 1);
    assert_eq!(
        view.handle_titlebar_tab_strip_mouse_move(true),
        TabStripMouseMove::UpdateDragPreview { hover_changed: false }
    );
    view.tab_strip.drag = None;
    assert_eq!(view.handle_titlebar_tab_strip_mouse_move(true), TabStripMouseMove::StartWindowMove);
    assert!(!view.titlebar_move_armed);
}

#[test]
fn tab_strip_buttons_add_a_tab_or_flip_the_sidebar() {
    let mut view = view_with(vec![], false);
    view.handle_unified_titlebar_mouse_down(true, false, 1);
    assert!(view.titlebar_move_armed);
    assert_eq!(view.perform_tab_strip_control_action(TabStripControlAction::NewTab), TabStripControlOutcome::AddTab);
    assert!(!view.titlebar_move_armed);
    assert_eq!(
        view.perform_tab_strip_control_action(TabStripControlAction::ToggleVerticalSidebar),
        TabStripControlOutcome::SetVerticalTabsMinimized(true)
    );
    view.vertical_tabs_minimized = true;
    assert_eq!(
        view.perform_tab_strip_control_action(TabStripControlAction::ToggleVerticalSidebar),
        TabStripControlOutcome::SetVerticalTabsMinimized(false)
    );
}
