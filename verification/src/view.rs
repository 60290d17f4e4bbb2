//! The state of a terminal view that its decisions read and change, and the
//! command palette's part of them. Drawing, scrolling offsets, timers and the
//! terminals themselves stay with the caller, which performs what the
//! decisions return.
use vstd::prelude::*;
use crate::palette::{
    filter_command_palette_items_by_query, item_views, ordered_theme_ids_for_palette,
    palette_theme_order, string_views, theme_keywords, theme_title, CommandAction,
    CommandPaletteEscapeAction, CommandPaletteItem, CommandPaletteItemKind, CommandPaletteMode,
    CommandPaletteState, ItemKindView, ItemView, filter_items,
};
use crate::tab_strip::TabStripState;
use crate::text::{append_str, chars_equal, str_chars, string_of};

verus! {

/// One tab, as the view's decisions read it.
pub struct TerminalTab {
    pub title: String,
    pub running_process: bool,
    pub alternate_screen_mode: bool,
}

#[derive(Clone, Copy, Debug, PartialEq, Eq, Structural)]
pub enum ToastLevel {
    Info,
    Success,
    Error,
}

/// A notification to show.
#[derive(Clone, Debug, PartialEq, Eq)]
pub struct Toast {
    pub level: ToastLevel,
    pub message: String,
}

pub struct TerminalView {
    pub command_palette: CommandPaletteState,
    pub inline_input_selecting: bool,
    pub theme_id: String,
    pub tabs: Vec<TerminalTab>,
    pub active_tab: usize,
    pub auto_hide_tabbar: bool,
    pub allow_quit_without_prompt: bool,
    pub quit_prompt_in_flight: bool,
    pub warn_on_quit_with_running_process: bool,
    pub titlebar_move_armed: bool,
    pub vertical_tabs_minimized: bool,
    pub tab_strip: TabStripState,
}

/// What a key press in the open palette did.
#[derive(Debug, PartialEq, Eq)]
pub enum CommandPaletteKeyOutcome {
    /// Escape in command mode closed the palette; whether it was open (the
    /// view is then redrawn).
    Closed(bool),
    /// Escape in theme mode went back to the command list; whether it lists any entry.
    BackToCommands(bool),
    /// Enter ran the selected entry, if the list had one.
    Executed(Option<CommandPaletteItemRun>),
    /// An arrow moved the selection; the list holds this many items.
    SelectionMoved(usize),
    /// Nothing changed.
    Unchanged,
}

/// What running an action from the palette leaves to do after it ran.
#[derive(Debug, PartialEq, Eq)]
pub struct CommandPaletteActionOutcome {
    /// The palette stays open (the theme switcher).
    pub keep_open: bool,
    /// A notification to show once the action ran.
    pub toast: Option<Toast>,
    /// The view is to be redrawn.
    pub notify: bool,
}

/// How a palette entry is run.
#[derive(Debug, PartialEq, Eq)]
pub enum CommandPaletteItemRun {
    /// The action is to run; the palette was updated already.
    Action(CommandAction, CommandPaletteActionOutcome),
    /// The theme is to be stored; `select_theme_from_palette` then takes the result.
    SelectTheme(String),
}

/// What to show after a theme chosen in the palette was stored (or not).
#[derive(Debug, PartialEq, Eq)]
pub struct ThemeSelectionOutcome {
    pub toast: Toast,
    /// The view is to be redrawn.
    pub notify: bool,
}

/// The entries of the theme list: one per theme id, checked when it is `active`.
pub open spec fn theme_entries(o: Seq<Seq<char>>, active: Seq<char>) -> Seq<ItemView> {
    o.map_values(
        |t: Seq<char>|
            ItemView {
                title: theme_title(t, t == active),
                keywords: theme_keywords(t),
                kind: ItemKindView::Theme(t),
            },
    )
}

/// `r` is what the palette lists in `mode`: the command entries, or the
/// ordered theme list.
pub open spec fn palette_items(
    r: Seq<ItemView>,
    mode: CommandPaletteMode,
    entries: Seq<ItemView>,
    ids: Seq<Seq<char>>,
    active: Seq<char>,
) -> bool {
    match mode {
        CommandPaletteMode::Commands => r == entries,
        CommandPaletteMode::Themes => exists|o: Seq<Seq<char>>|
            palette_theme_order(o, ids, active) && r == theme_entries(o, active),
    }
}

/// The notification that follows an action run from the palette.
pub open spec fn action_notice(action: CommandAction) -> Option<(ToastLevel, Seq<char>)> {
    match action {
        CommandAction::OpenConfig => Some((ToastLevel::Info, "Opened settings file"@)),
        CommandAction::NewTab => Some((ToastLevel::Success, "Opened new tab"@)),
        CommandAction::CloseTab => Some((ToastLevel::Info, "Closed active tab"@)),
        CommandAction::ZoomIn => Some((ToastLevel::Info, "Zoomed in"@)),
        CommandAction::ZoomOut => Some((ToastLevel::Info, "Zoomed out"@)),
        CommandAction::ZoomReset => Some((ToastLevel::Info, "Zoom reset"@)),
        _ => None,
    }
}

/// Escape closes the palette in command mode and goes back to the commands in theme mode.
pub open spec fn escape_action_for(mode: CommandPaletteMode) -> CommandPaletteEscapeAction {
    match mode {
        CommandPaletteMode::Commands => CommandPaletteEscapeAction::ClosePalette,
        CommandPaletteMode::Themes => CommandPaletteEscapeAction::BackToCommands,
    }
}

/// Running `action` from the palette: the theme switcher keeps the palette
/// as it is; every other action closes it and is followed by its notice.
pub open spec fn palette_action_prepared(
    v: TerminalView,
    w: TerminalView,
    action: CommandAction,
    out: CommandPaletteActionOutcome,
) -> bool {
    &&& out.keep_open == (action == CommandAction::SwitchTheme)
    &&& out.keep_open ==> w == v && out.toast is None && !out.notify
    &&& !out.keep_open ==> {
        &&& palette_closed(w.command_palette)
        &&& !w.inline_input_selecting
        &&& w.command_palette.show_keybinds == v.command_palette.show_keybinds
        &&& same_outside_palette(v, w)
        &&& match action_notice(action) {
            None => out.toast is None,
            Some((level, message)) => out.toast matches Some(t) && t.level == level && t.message@ == message,
        }
        &&& out.notify == (action == CommandAction::OpenConfig)
    }
}

/// `w` is `v` after closing the palette: cleared if it was open, untouched otherwise.
pub open spec fn palette_closed_from(v: TerminalView, w: TerminalView) -> bool {
    &&& v.command_palette.open ==> palette_closed(w.command_palette) && !w.inline_input_selecting
    &&& !v.command_palette.open ==> w.command_palette == v.command_palette
        && w.inline_input_selecting == v.inline_input_selecting
    &&& !w.command_palette.open
    &&& w.command_palette.show_keybinds == v.command_palette.show_keybinds
    &&& same_outside_palette(v, w)
}

/// `w` is `v` with the palette switched to `mode`: query and selection
/// cleared, every entry of the mode listed; `r` says whether there is any.
pub open spec fn palette_mode_switched(
    v: TerminalView,
    w: TerminalView,
    mode: CommandPaletteMode,
    entries: Seq<ItemView>,
    ids: Seq<Seq<char>>,
    r: bool,
) -> bool {
    &&& w.command_palette.mode == mode
    &&& w.command_palette.open == v.command_palette.open
    &&& w.command_palette.show_keybinds == v.command_palette.show_keybinds
    &&& w.command_palette.input@ == Seq::<char>::empty()
    &&& w.command_palette.selected == 0
    &&& !w.command_palette.scroll_animating
    &&& !w.inline_input_selecting
    &&& palette_items(item_views(w.command_palette.filtered_items@), mode, entries, ids, v.theme_id@)
    &&& r == (w.command_palette.filtered_items@.len() > 0)
    &&& same_outside_palette(v, w)
}

/// Running an entry of kind `k`: an action updates the palette now; a theme
/// is handed back to be stored.
pub open spec fn palette_item_run(v: TerminalView, w: TerminalView, k: ItemKindView, r: CommandPaletteItemRun) -> bool {
    match k {
        ItemKindView::Command(a) => r matches CommandPaletteItemRun::Action(b, out) && a == b
            && palette_action_prepared(v, w, a, out),
        ItemKindView::Theme(t) => r matches CommandPaletteItemRun::SelectTheme(s) && s@ == t && w == v,
    }
}

/// Running the selected entry (the last one when the selection is past the
/// end); nothing when the list is empty.
pub open spec fn palette_selection_run(v: TerminalView, w: TerminalView, r: Option<CommandPaletteItemRun>) -> bool {
    let items = v.command_palette.filtered_items@;
    let sel = v.command_palette.selected;
    if items.len() == 0 {
        r is None && w == v
    } else {
        let index = if sel < items.len() - 1 {
            sel as int
        } else {
            items.len() - 1
        };
        r matches Some(run) && palette_item_run(v, w, items[index].kind@, run)
    }
}

/// The palette is closed: in command mode, with an empty query, no items, no
/// selection and no scroll animation.
pub open spec fn palette_closed(p: CommandPaletteState) -> bool {
    &&& !p.open
    &&& p.mode == CommandPaletteMode::Commands
    &&& p.input@ == Seq::<char>::empty()
    &&& p.filtered_items@.len() == 0
    &&& p.selected == 0
    &&& !p.scroll_animating
}

/// Only the palette and the input-selection flag may differ.
pub open spec fn same_outside_palette(a: TerminalView, b: TerminalView) -> bool {
    &&& a.theme_id == b.theme_id
    &&& a.tabs == b.tabs
    &&& a.active_tab == b.active_tab
    &&& a.auto_hide_tabbar == b.auto_hide_tabbar
    &&& a.allow_quit_without_prompt == b.allow_quit_without_prompt
    &&& a.quit_prompt_in_flight == b.quit_prompt_in_flight
    &&& a.warn_on_quit_with_running_process == b.warn_on_quit_with_running_process
    &&& a.titlebar_move_armed == b.titlebar_move_armed
    &&& a.vertical_tabs_minimized == b.vertical_tabs_minimized
    &&& a.tab_strip == b.tab_strip
}

fn toast(level: ToastLevel, message: &str) -> (t: Toast)
    ensures
        t.level == level,
        t.message@ == message@,
{
    let v = str_chars(message);
    Toast { level, message: string_of(v.as_slice()) }
}

fn str_is(a: &str, b: &str) -> (r: bool)
    ensures
        r == (a@ == b@),
{
    let x = str_chars(a);
    let y = str_chars(b);
    chars_equal(x.as_slice(), y.as_slice())
}

impl TerminalView {
    /// A view with a closed palette, the given tabs, and every flag cleared.
    pub fn new(theme_id: String, tabs: Vec<TerminalTab>, show_keybinds: bool, warn_on_quit_with_running_process: bool, auto_hide_tabbar: bool) -> (r: Self)
        ensures
            palette_closed(r.command_palette),
            r.command_palette.show_keybinds == show_keybinds,
            !r.inline_input_selecting,
            r.theme_id == theme_id,
            r.tabs == tabs,
            r.active_tab == 0,
            r.auto_hide_tabbar == auto_hide_tabbar,
            !r.allow_quit_without_prompt,
            !r.quit_prompt_in_flight,
            r.warn_on_quit_with_running_process == warn_on_quit_with_running_process,
            !r.titlebar_move_armed,
            !r.vertical_tabs_minimized,
            r.tab_strip.is_initial(),
    {
        TerminalView {
            command_palette: CommandPaletteState::new(show_keybinds),
            inline_input_selecting: false,
            theme_id,
            tabs,
            active_tab: 0,
            auto_hide_tabbar,
            allow_quit_without_prompt: false,
            quit_prompt_in_flight: false,
            warn_on_quit_with_running_process,
            titlebar_move_armed: false,
            vertical_tabs_minimized: false,
            tab_strip: TabStripState::new(),
        }
    }

    pub fn is_command_palette_open(&self) -> (r: bool)
        ensures
            r == self.command_palette.open,
    {
        self.command_palette.open
    }

    /// The key-binding label shown beside an action: `keybinding_label` when
    /// the palette shows key bindings, none otherwise.
    pub fn command_palette_shortcut(&self, keybinding_label: Option<String>) -> (r: Option<String>)
        ensures
            r == (if self.command_palette.show_keybinds {
                keybinding_label
            } else {
                None
            }),
    {
        if !self.command_palette.show_keybinds {
            return None;
        }
        keybinding_label
    }

    /// Switches the palette to `mode`: the query and selection are cleared and
    /// the list shows every entry of the mode. Returns whether there are any.
    pub fn set_command_palette_mode(
        &mut self,
        mode: CommandPaletteMode,
        command_entries: Vec<CommandPaletteItem>,
        theme_ids: Vec<String>,
    ) -> (r: bool)
        ensures
            palette_mode_switched(
                *old(self),
                *final(self),
                mode,
                item_views(command_entries@),
                string_views(theme_ids@),
                r,
            ),
    {
        self.command_palette.mode = mode;
        self.command_palette.reset();
        self.inline_input_selecting = false;
        let items = self.command_palette_items(command_entries, theme_ids);
        let ghost iv = item_views(items@);
        let r = self.refresh_command_palette_matches(items);
        assert(filter_items(iv, Seq::<char>::empty()) == iv) by {
            let l = crate::text::lower_seq(Seq::<char>::empty());
            assert(l =~= Seq::<char>::empty());
            let sp = crate::text::split_by(l, crate::text::Sep::Whitespace);
            assert(sp =~= seq![Seq::<char>::empty()]);
            assert(sp.drop_last() =~= Seq::<Seq<char>>::empty());
            assert(crate::text::non_empty(sp.drop_last()).len() == 0);
            assert(crate::text::non_empty(sp) == crate::text::non_empty(sp.drop_last()));
            assert(crate::palette::query_terms(Seq::<char>::empty()).len() == 0);
        }
        r
    }

    /// Opens the palette on the command entries.
    pub fn open_command_palette(&mut self, command_entries: Vec<CommandPaletteItem>, theme_ids: Vec<String>) -> (r: bool)
        ensures
            final(self).command_palette.open,
            final(self).command_palette.mode == CommandPaletteMode::Commands,
            final(self).command_palette.input@ == Seq::<char>::empty(),
            final(self).command_palette.selected == 0,
            !final(self).command_palette.scroll_animating,
            final(self).command_palette.show_keybinds == old(self).command_palette.show_keybinds,
            !final(self).inline_input_selecting,
            item_views(final(self).command_palette.filtered_items@) == item_views(command_entries@),
            r == (command_entries@.len() > 0),
            same_outside_palette(*old(self), *final(self)),
    {
        self.command_palette.open = true;
        let ghost ev = item_views(command_entries@);
        let r = self.set_command_palette_mode(CommandPaletteMode::Commands, command_entries, theme_ids);
        assert(item_views(self.command_palette.filtered_items@).len() == self.command_palette.filtered_items@.len());
        assert(ev.len() == command_entries@.len());
        r
    }

    /// Closes the palette if it is open (and clears it). Returns whether it was open.
    pub fn close_command_palette(&mut self) -> (r: bool)
        ensures
            r == old(self).command_palette.open,
            palette_closed_from(*old(self), *final(self)),
    {
        if !self.command_palette.open {
            return false;
        }
        self.command_palette.open = false;
        self.command_palette.mode = CommandPaletteMode::Commands;
        self.command_palette.reset();
        self.inline_input_selecting = false;
        true
    }

    /// What the palette lists in its current mode: the command entries, or the
    /// theme list.
    pub fn command_palette_items(&self, command_entries: Vec<CommandPaletteItem>, theme_ids: Vec<String>) -> (r: Vec<CommandPaletteItem>)
        ensures
            palette_items(
                item_views(r@),
                self.command_palette.mode,
                item_views(command_entries@),
                string_views(theme_ids@),
                self.theme_id@,
            ),
    {
        match self.command_palette.mode {
            CommandPaletteMode::Commands => command_entries,
            CommandPaletteMode::Themes => self.command_palette_theme_items(theme_ids),
        }
    }

    /// The theme list: the current theme first, each entry checked when it is
    /// the current theme.
    pub fn command_palette_theme_items(&self, theme_ids: Vec<String>) -> (r: Vec<CommandPaletteItem>)
        ensures
            exists|o: Seq<Seq<char>>|
                palette_theme_order(o, string_views(theme_ids@), self.theme_id@) && item_views(r@)
                    == theme_entries(o, self.theme_id@),
    {
        let ghost idv = string_views(theme_ids@);
        let mut ordered = ordered_theme_ids_for_palette(theme_ids, self.theme_id.as_str());
        let ghost o = string_views(ordered@);
        let n = ordered.len();
        let mut r: Vec<CommandPaletteItem> = Vec::new();
        let mut i: usize = 0;
        while 0 < ordered.len()
            invariant
                i + ordered.len() == n,
                n == o.len(),
                string_views(ordered@) == o.skip(i as int),
                item_views(r@) == theme_entries(o.take(i as int), self.theme_id@),
            decreases ordered.len(),
        {
            let ghost before = ordered@;
            let theme = ordered.remove(0);
            assert(theme@ == o[i as int]) by {
                assert(string_views(before)[0] == o.skip(i as int)[0]);
            }
            let is_active = theme == self.theme_id;
            let ghost rb = item_views(r@);
            r.push(CommandPaletteItem::theme(theme, is_active));
            i = i + 1;
            assert(item_views(r@) =~= theme_entries(o.take(i as int), self.theme_id@)) by {
                assert(item_views(r@) =~= rb.push(item_views(r@)[i - 1]));
                assert(o.take(i as int) =~= o.take(i - 1).push(o[i - 1]));
            }
            assert forall|m: int| 0 <= m < ordered@.len() implies string_views(ordered@)[m] == o.skip(i as int)[m] by {
                assert(ordered@[m] == before[m + 1]);
                assert(string_views(before)[m + 1] == o.skip(i as int - 1)[m + 1]);
            }
            assert(string_views(ordered@) =~= o.skip(i as int));
        }
        assert(o.take(n as int) =~= o);
        r
    }

    pub fn filtered_command_palette_items(&self) -> (r: &[CommandPaletteItem])
        ensures
            r@ == self.command_palette.filtered_items@,
    {
        self.command_palette.filtered_items.as_slice()
    }

    /// Lists the items that match the query and keeps the selection on the
    /// list; with no match, the scroll animation stops. Returns whether any
    /// item matched.
    pub fn refresh_command_palette_matches(&mut self, items: Vec<CommandPaletteItem>) -> (r: bool)
        ensures
            item_views(final(self).command_palette.filtered_items@) == filter_items(
                item_views(items@),
                old(self).command_palette.input@,
            ),
            r == (final(self).command_palette.filtered_items@.len() > 0),
            final(self).command_palette.selected == (if !r {
                0
            } else if old(self).command_palette.selected >= final(self).command_palette.filtered_items@.len() {
                (final(self).command_palette.filtered_items@.len() - 1) as usize
            } else {
                old(self).command_palette.selected
            }),
            final(self).command_palette.scroll_animating == (r && old(self).command_palette.scroll_animating),
            final(self).command_palette.open == old(self).command_palette.open,
            final(self).command_palette.mode == old(self).command_palette.mode,
            final(self).command_palette.input@ == old(self).command_palette.input@,
            final(self).command_palette.show_keybinds == old(self).command_palette.show_keybinds,
            final(self).inline_input_selecting == old(self).inline_input_selecting,
            same_outside_palette(*old(self), *final(self)),
    {
        let filtered = filter_command_palette_items_by_query(items, self.command_palette.input.text());
        self.command_palette.filtered_items = filtered;
        self.command_palette.clamp_selection();
        if self.command_palette.filtered_items.is_empty() {
            self.command_palette.reset_scroll_animation_state();
            return false;
        }
        true
    }

    /// A key in the open palette: Escape closes it in command mode and goes
    /// back to the commands in theme mode, Enter runs the selected entry, the
    /// arrows move the selection.
    pub fn handle_command_palette_key_down(
        &mut self,
        key: &str,
        command_entries: Vec<CommandPaletteItem>,
        theme_ids: Vec<String>,
    ) -> (r: CommandPaletteKeyOutcome)
        ensures
            key@ == "escape"@ ==> match old(self).command_palette.mode {
                CommandPaletteMode::Commands => r == CommandPaletteKeyOutcome::Closed(old(self).command_palette.open)
                    && palette_closed_from(*old(self), *final(self)),
                CommandPaletteMode::Themes => r matches CommandPaletteKeyOutcome::BackToCommands(any)
                    && palette_mode_switched(
                    *old(self),
                    *final(self),
                    CommandPaletteMode::Commands,
                    item_views(command_entries@),
                    string_views(theme_ids@),
                    any,
                ),
            },
            key@ == "enter"@ ==> (r matches CommandPaletteKeyOutcome::Executed(run) && palette_selection_run(
                *old(self),
                *final(self),
                run,
            )),
            ({
                let len = old(self).command_palette.filtered_items@.len();
                let sel = old(self).command_palette.selected;
                &&& key@ == "up"@ ==> if len > 0 && sel > 0 {
                    final(self).command_palette.selected == sel - 1
                        && r == CommandPaletteKeyOutcome::SelectionMoved(len as usize)
                } else {
                    final(self).command_palette.selected == sel && r == CommandPaletteKeyOutcome::Unchanged
                }
                &&& key@ == "down"@ ==> if len > 0 && sel + 1 < len {
                    final(self).command_palette.selected == sel + 1
                        && r == CommandPaletteKeyOutcome::SelectionMoved(len as usize)
                } else {
                    final(self).command_palette.selected == sel && r == CommandPaletteKeyOutcome::Unchanged
                }
            }),
            key@ != "escape"@ && key@ != "enter"@ ==> {
                &&& key@ != "up"@ && key@ != "down"@ ==> r == CommandPaletteKeyOutcome::Unchanged
                    && final(self).command_palette.selected == old(self).command_palette.selected
                &&& old(self).command_palette.selected < old(self).command_palette.filtered_items@.len()
                    ==> final(self).command_palette.selected < final(self).command_palette.filtered_items@.len()
                &&& final(self).command_palette.open == old(self).command_palette.open
                &&& final(self).command_palette.mode == old(self).command_palette.mode
                &&& final(self).command_palette.input@ == old(self).command_palette.input@
                &&& final(self).command_palette.filtered_items@ == old(self).command_palette.filtered_items@
                &&& final(self).command_palette.scroll_animating == old(self).command_palette.scroll_animating
                &&& final(self).command_palette.show_keybinds == old(self).command_palette.show_keybinds
                &&& final(self).inline_input_selecting == old(self).inline_input_selecting
                &&& same_outside_palette(*old(self), *final(self))
            },
    {
        proof {
            reveal_strlit("escape");
            reveal_strlit("enter");
            reveal_strlit("up");
            reveal_strlit("down");
            assert("escape"@.len() == 6);
            assert("enter"@.len() == 5);
            assert("up"@.len() == 2);
            assert("down"@.len() == 4);
        }
        if str_is(key, "escape") {
            match Self::command_palette_escape_action(self.command_palette.mode) {
                CommandPaletteEscapeAction::ClosePalette => {
                    let was_open = self.close_command_palette();
                    return CommandPaletteKeyOutcome::Closed(was_open);
                },
                CommandPaletteEscapeAction::BackToCommands => {
                    let any = self.set_command_palette_mode(CommandPaletteMode::Commands, command_entries, theme_ids);
                    return CommandPaletteKeyOutcome::BackToCommands(any);
                },
            }
        }
        if str_is(key, "enter") {
            let run = self.execute_command_palette_selection();
            return CommandPaletteKeyOutcome::Executed(run);
        }
        if str_is(key, "up") {
            let len = self.command_palette.filtered_items.len();
            if len > 0 && self.command_palette.selected > 0 {
                self.command_palette.selected = self.command_palette.selected - 1;
                return CommandPaletteKeyOutcome::SelectionMoved(len);
            }
            return CommandPaletteKeyOutcome::Unchanged;
        }
        if str_is(key, "down") {
            let len = self.command_palette.filtered_items.len();
            if len > 0 && self.command_palette.selected < len - 1 {
                self.command_palette.selected = self.command_palette.selected + 1;
                return CommandPaletteKeyOutcome::SelectionMoved(len);
            }
            return CommandPaletteKeyOutcome::Unchanged;
        }
        CommandPaletteKeyOutcome::Unchanged
    }

    /// Escape closes the palette in command mode and goes back to the commands
    /// in theme mode.
    pub fn command_palette_escape_action(mode: CommandPaletteMode) -> (r: CommandPaletteEscapeAction)
        ensures
            r == escape_action_for(mode),
    {
        match mode {
            CommandPaletteMode::Commands => CommandPaletteEscapeAction::ClosePalette,
            CommandPaletteMode::Themes => CommandPaletteEscapeAction::BackToCommands,
        }
    }

    /// Runs the selected entry (the last one when the selection is past the
    /// end), if the list is not empty.
    pub fn execute_command_palette_selection(&mut self) -> (r: Option<CommandPaletteItemRun>)
        ensures
            palette_selection_run(*old(self), *final(self), r),
    {
        let kind = {
            let items = self.filtered_command_palette_items();
            if items.len() == 0 {
                return None;
            }
            let last = items.len() - 1;
            let index = if self.command_palette.selected < last {
                self.command_palette.selected
            } else {
                last
            };
            items[index].kind_copy()
        };
        Some(self.execute_command_palette_item(kind))
    }

    /// Runs a palette entry: an action updates the palette now; a theme is left
    /// to be stored.
    pub fn execute_command_palette_item(&mut self, item_kind: CommandPaletteItemKind) -> (r: CommandPaletteItemRun)
        ensures
            palette_item_run(*old(self), *final(self), item_kind@, r),
    {
        match item_kind {
            CommandPaletteItemKind::Command(action) => {
                let out = self.execute_command_palette_action(action);
                CommandPaletteItemRun::Action(action, out)
            },
            CommandPaletteItemKind::Theme(theme_id) => CommandPaletteItemRun::SelectTheme(theme_id),
        }
    }

    /// Records the result of storing a theme chosen in the palette and says
    /// what to show: on success the palette closes.
    pub fn select_theme_from_palette(&mut self, theme_id: &str, persisted: Result<bool, String>) -> (r: ThemeSelectionOutcome)
        ensures
            match persisted {
                Ok(changed) => {
                    &&& palette_closed_from(*old(self), *final(self))
                    &&& changed ==> r.toast.level == ToastLevel::Success && r.toast.message@ == "Theme set to "@
                        + old(self).theme_id@ && r.notify
                    &&& !changed ==> r.toast.level == ToastLevel::Info && r.toast.message@ == "Theme already set to "@
                        + theme_id@ && r.notify == old(self).command_palette.open
                },
                Err(e) => r.toast.level == ToastLevel::Error && r.toast.message@ == e@ && r.notify
                    && *final(self) == *old(self),
            },
    {
        match persisted {
            Ok(true) => {
                self.close_command_palette();
                let mut m: Vec<char> = Vec::new();
                append_str(&mut m, "Theme set to ");
                append_str(&mut m, self.theme_id.as_str());
                ThemeSelectionOutcome {
                    toast: Toast { level: ToastLevel::Success, message: string_of(m.as_slice()) },
                    notify: true,
                }
            },
            Ok(false) => {
                let was_open = self.close_command_palette();
                let mut m: Vec<char> = Vec::new();
                append_str(&mut m, "Theme already set to ");
                append_str(&mut m, theme_id);
                ThemeSelectionOutcome {
                    toast: Toast { level: ToastLevel::Info, message: string_of(m.as_slice()) },
                    notify: was_open,
                }
            },
            Err(error) => ThemeSelectionOutcome {
                toast: Toast { level: ToastLevel::Error, message: error },
                notify: true,
            },
        }
    }

    /// Prepares running `action` from the palette: every action but the theme
    /// switcher closes the palette first; says what to show once it ran.
    pub fn execute_command_palette_action(&mut self, action: CommandAction) -> (r: CommandPaletteActionOutcome)
        ensures
            palette_action_prepared(*old(self), *final(self), action, r),
    {
        let keep_open = match action {
            CommandAction::SwitchTheme => true,
            _ => false,
        };
        if keep_open {
            return CommandPaletteActionOutcome { keep_open, toast: None, notify: false };
        }
        self.command_palette.open = false;
        self.command_palette.mode = CommandPaletteMode::Commands;
        self.command_palette.reset();
        self.inline_input_selecting = false;
        let (toast_out, notify) = match action {
            CommandAction::OpenConfig => (Some(toast(ToastLevel::Info, "Opened settings file")), true),
            CommandAction::NewTab => (Some(toast(ToastLevel::Success, "Opened new tab")), false),
            CommandAction::CloseTab => (Some(toast(ToastLevel::Info, "Closed active tab")), false),
            CommandAction::ZoomIn => (Some(toast(ToastLevel::Info, "Zoomed in")), false),
            CommandAction::ZoomOut => (Some(toast(ToastLevel::Info, "Zoomed out")), false),
            CommandAction::ZoomReset => (Some(toast(ToastLevel::Info, "Zoom reset")), false),
            _ => (None, false),
        };
        CommandPaletteActionOutcome { keep_open, toast: toast_out, notify }
    }
}

} // verus!
