//! The tab strip: hover and drag state, moving the window by its title bar,
//! whether the strip is shown, and the labels of a narrow vertical strip.
use vstd::prelude::*;
use crate::text::{decimal, push_decimal, str_chars, string_of};
use crate::view::TerminalView;

verus! {

/// A tab being dragged, and where it would drop.
#[derive(Clone, Copy, Debug, PartialEq, Eq, Structural)]
pub struct TabDragState {
    pub source_index: usize,
    pub drop_slot: Option<usize>,
}

/// Hover and drag state of the tab strip (its scroll offsets stay with the caller).
pub struct TabStripState {
    pub hovered_tab: Option<usize>,
    pub hovered_tab_close: Option<usize>,
    pub drag: Option<TabDragState>,
    pub drag_autoscroll_animating: bool,
    pub layout_revision: u64,
    pub layout_last_synced_revision: u64,
}

/// What a mouse press on the title bar does.
#[derive(Clone, Copy, Debug, PartialEq, Eq, Structural)]
pub enum TitlebarMouseDown {
    /// Not the left button: nothing.
    Ignored,
    /// A double click outside the tabs: zoom (or maximize) the window.
    ToggleWindowZoom,
    /// The window may now be moved by dragging.
    ArmedWindowMove,
    /// Left to the element under the pointer.
    PassThrough,
}

/// What a mouse move over the tab strip does.
#[derive(Clone, Copy, Debug, PartialEq, Eq, Structural)]
pub enum TabStripMouseMove {
    /// Start moving the window.
    StartWindowMove,
    /// A drag goes on: update the drop preview; redraw if it did not and the hover changed.
    UpdateDragPreview { hover_changed: bool },
    /// No drag: commit a tab drag if one was going on; redraw if the hover changed.
    Settle { commit_drag: bool, hover_changed: bool },
}

/// The buttons at the end of the tab strip.
#[derive(Clone, Copy, Debug, PartialEq, Eq, Structural)]
pub enum TabStripControlAction {
    NewTab,
    ToggleVerticalSidebar,
}

/// What a tab-strip button asks for.
#[derive(Clone, Copy, Debug, PartialEq, Eq, Structural)]
pub enum TabStripControlOutcome {
    /// Add a tab (the title-bar move is disarmed).
    AddTab,
    /// Store this minimized state of the vertical sidebar; on failure show the
    /// error, else redraw.
    SetVerticalTabsMinimized(bool),
}

impl TabStripState {
    pub open spec fn is_initial(self) -> bool {
        &&& self.hovered_tab is None
        &&& self.hovered_tab_close is None
        &&& self.drag is None
        &&& !self.drag_autoscroll_animating
        &&& self.layout_revision == 0
        &&& self.layout_last_synced_revision == 0
    }

    /// Nothing hovered or dragged, layout at revision 0.
    pub fn new() -> (r: Self)
        ensures
            r.is_initial(),
    {
        TabStripState {
            hovered_tab: None,
            hovered_tab_close: None,
            drag: None,
            drag_autoscroll_animating: false,
            layout_revision: 0,
            layout_last_synced_revision: 0,
        }
    }
}

/// The label of a tab in a narrow vertical strip: its number for the first
/// nine tabs, else the first character of its title (a bullet for an empty title).
pub open spec fn compact_label(index: nat, title: Seq<char>) -> Seq<char> {
    if index < 9 {
        decimal(index + 1)
    } else if title.len() > 0 {
        seq![title[0]]
    } else {
        seq!['\u{2022}']
    }
}

/// Everything but the title-bar move flag stays.
pub open spec fn same_but_move_flag(a: TerminalView, b: TerminalView) -> bool {
    &&& a.command_palette == b.command_palette
    &&& a.inline_input_selecting == b.inline_input_selecting
    &&& a.theme_id == b.theme_id
    &&& a.tabs == b.tabs
    &&& a.active_tab == b.active_tab
    &&& a.auto_hide_tabbar == b.auto_hide_tabbar
    &&& a.allow_quit_without_prompt == b.allow_quit_without_prompt
    &&& a.quit_prompt_in_flight == b.quit_prompt_in_flight
    &&& a.warn_on_quit_with_running_process == b.warn_on_quit_with_running_process
    &&& a.vertical_tabs_minimized == b.vertical_tabs_minimized
    &&& a.tab_strip == b.tab_strip
}

impl TerminalView {
    fn arm_titlebar_window_move(&mut self)
        ensures
            final(self).titlebar_move_armed,
            same_but_move_flag(*old(self), *final(self)),
    {
        self.titlebar_move_armed = true;
    }

    pub fn disarm_titlebar_window_move(&mut self)
        ensures
            !final(self).titlebar_move_armed,
            same_but_move_flag(*old(self), *final(self)),
    {
        self.titlebar_move_armed = false;
    }

    /// A press outside the tabs that is not a double click arms the window move.
    pub fn titlebar_move_armed_after_mouse_down(interactive_hit: bool, click_count: usize) -> (r: bool)
        ensures
            r == (!interactive_hit && click_count != 2),
    {
        !interactive_hit && click_count != 2
    }

    /// A release always disarms the window move.
    pub fn titlebar_move_armed_after_mouse_up() -> (r: bool)
        ensures
            !r,
    {
        false
    }

    /// A mouse press on the title bar: `interactive_hit` says whether it landed
    /// on a tab or a button.
    pub fn handle_unified_titlebar_mouse_down(&mut self, left_button: bool, interactive_hit: bool, click_count: usize) -> (r: TitlebarMouseDown)
        ensures
            !left_button ==> r == TitlebarMouseDown::Ignored && *final(self) == *old(self),
            left_button ==> final(self).titlebar_move_armed == (!interactive_hit && click_count != 2),
            left_button && !interactive_hit && click_count == 2 ==> r == TitlebarMouseDown::ToggleWindowZoom,
            left_button && !interactive_hit && click_count != 2 ==> r == TitlebarMouseDown::ArmedWindowMove,
            left_button && interactive_hit ==> r == TitlebarMouseDown::PassThrough,
            same_but_move_flag(*old(self), *final(self)),
    {
        if !left_button {
            return TitlebarMouseDown::Ignored;
        }
        let next_move_armed = Self::titlebar_move_armed_after_mouse_down(interactive_hit, click_count);
        if !next_move_armed {
            self.disarm_titlebar_window_move();
        }
        if !interactive_hit && click_count == 2 {
            return TitlebarMouseDown::ToggleWindowZoom;
        }
        if next_move_armed {
            self.arm_titlebar_window_move();
            return TitlebarMouseDown::ArmedWindowMove;
        }
        TitlebarMouseDown::PassThrough
    }

    /// A mouse release on the title bar; returns whether it was handled (the left button).
    pub fn handle_unified_titlebar_mouse_up(&mut self, left_button: bool) -> (r: bool)
        ensures
            r == left_button,
            left_button ==> !final(self).titlebar_move_armed,
            !left_button ==> *final(self) == *old(self),
            same_but_move_flag(*old(self), *final(self)),
    {
        if !left_button {
            return false;
        }
        self.titlebar_move_armed = Self::titlebar_move_armed_after_mouse_up();
        true
    }

    /// Starts the window move when armed and dragging with no tab drag; the
    /// move then disarms. Returns whether to start it.
    pub fn maybe_start_titlebar_window_move(&mut self, dragging: bool) -> (r: bool)
        ensures
            r == should_start_window_move(
                old(self).titlebar_move_armed,
                dragging,
                old(self).tab_strip.drag is Some,
            ),
            final(self).titlebar_move_armed == (old(self).titlebar_move_armed && !r),
            same_but_move_flag(*old(self), *final(self)),
    {
        if !Self::should_start_titlebar_window_move(self.titlebar_move_armed, dragging, self.tab_strip.drag.is_some()) {
            return false;
        }
        self.disarm_titlebar_window_move();
        true
    }

    pub fn should_start_titlebar_window_move(titlebar_move_armed: bool, dragging: bool, tab_drag_active: bool) -> (r: bool)
        ensures
            r == (titlebar_move_armed && dragging && !tab_drag_active),
    {
        titlebar_move_armed && dragging && !tab_drag_active
    }

    /// A mouse move over the tab strip: starts the window move if it may,
    /// else clears the hover (the close button's only when no tab was hovered)
    /// and says what to do about a drag.
    pub fn handle_titlebar_tab_strip_mouse_move(&mut self, dragging: bool) -> (r: TabStripMouseMove)
        ensures
            ({
                let start = should_start_window_move(old(self).titlebar_move_armed, dragging, old(self).tab_strip.drag is Some);
                let changed = old(self).tab_strip.hovered_tab is Some || old(self).tab_strip.hovered_tab_close is Some;
                if start {
                    r == TabStripMouseMove::StartWindowMove && !final(self).titlebar_move_armed
                        && final(self).tab_strip == old(self).tab_strip
                } else {
                    &&& final(self).titlebar_move_armed == old(self).titlebar_move_armed
                    &&& final(self).tab_strip.hovered_tab is None
                    &&& final(self).tab_strip.hovered_tab_close == (if old(self).tab_strip.hovered_tab is Some {
                        old(self).tab_strip.hovered_tab_close
                    } else {
                        None
                    })
                    &&& final(self).tab_strip.drag == old(self).tab_strip.drag
                    &&& r == if dragging {
                        TabStripMouseMove::UpdateDragPreview { hover_changed: changed }
                    } else {
                        TabStripMouseMove::Settle { commit_drag: old(self).tab_strip.drag is Some, hover_changed: changed }
                    }
                }
            }),
            final(self).command_palette == old(self).command_palette,
            final(self).inline_input_selecting == old(self).inline_input_selecting,
            final(self).theme_id == old(self).theme_id,
            final(self).tabs == old(self).tabs,
            final(self).active_tab == old(self).active_tab,
            final(self).auto_hide_tabbar == old(self).auto_hide_tabbar,
            final(self).allow_quit_without_prompt == old(self).allow_quit_without_prompt,
            final(self).quit_prompt_in_flight == old(self).quit_prompt_in_flight,
            final(self).warn_on_quit_with_running_process == old(self).warn_on_quit_with_running_process,
            final(self).vertical_tabs_minimized == old(self).vertical_tabs_minimized,
            final(self).tab_strip.drag_autoscroll_animating == old(self).tab_strip.drag_autoscroll_animating,
            final(self).tab_strip.layout_revision == old(self).tab_strip.layout_revision,
            final(self).tab_strip.layout_last_synced_revision == old(self).tab_strip.layout_last_synced_revision,
    {
        if self.maybe_start_titlebar_window_move(dragging) {
            return TabStripMouseMove::StartWindowMove;
        }
        let mut changed = false;
        if self.tab_strip.hovered_tab.take().is_some() || self.tab_strip.hovered_tab_close.take().is_some() {
            changed = true;
        }
        if dragging {
            return TabStripMouseMove::UpdateDragPreview { hover_changed: changed };
        }
        TabStripMouseMove::Settle { commit_drag: self.tab_strip.drag.is_some(), hover_changed: changed }
    }

    /// A tab-strip button: a new tab disarms the title-bar move first; the
    /// sidebar button asks for the flipped minimized state.
    pub fn perform_tab_strip_control_action(&mut self, action: TabStripControlAction) -> (r: TabStripControlOutcome)
        ensures
            action == TabStripControlAction::NewTab ==> r == TabStripControlOutcome::AddTab
                && !final(self).titlebar_move_armed && same_but_move_flag(*old(self), *final(self)),
            action == TabStripControlAction::ToggleVerticalSidebar ==> r
                == TabStripControlOutcome::SetVerticalTabsMinimized(!old(self).vertical_tabs_minimized)
                && *final(self) == *old(self),
    {
        match action {
            TabStripControlAction::NewTab => {
                self.disarm_titlebar_window_move();
                TabStripControlOutcome::AddTab
            },
            TabStripControlAction::ToggleVerticalSidebar => TabStripControlOutcome::SetVerticalTabsMinimized(
                !self.vertical_tabs_minimized,
            ),
        }
    }

    /// The label of tab `index` in a narrow vertical strip.
    pub fn compact_vertical_tab_label(index: usize, title: &str) -> (r: String)
        ensures
            r@ == compact_label(index as nat, title@),
    {
        let mut out: Vec<char> = Vec::new();
        if index < 9 {
            push_decimal(&mut out, index + 1);
            assert(out@ =~= decimal((index + 1) as nat));
            return string_of(out.as_slice());
        }
        let t = str_chars(title);
        if t.len() > 0 {
            out.push(t[0]);
        } else {
            out.push('\u{2022}');
        }
        assert(out@ =~= compact_label(index as nat, title@));
        string_of(out.as_slice())
    }

    /// The strip is shown unless it hides itself and there is at most one tab.
    pub fn tab_strip_chrome_visible(auto_hide_tabbar: bool, tab_count: usize) -> (r: bool)
        ensures
            r == (!auto_hide_tabbar || tab_count > 1),
    {
        !auto_hide_tabbar || tab_count > 1
    }

    pub fn should_render_tab_strip_chrome(&self) -> (r: bool)
        ensures
            r == (!self.auto_hide_tabbar || self.tabs@.len() > 1),
    {
        Self::tab_strip_chrome_visible(self.auto_hide_tabbar, self.tabs.len())
    }
}

pub open spec fn should_start_window_move(titlebar_move_armed: bool, dragging: bool, tab_drag_active: bool) -> bool {
    titlebar_move_armed && dragging && !tab_drag_active
}

/// Once the window move started, it does not start again before the title bar
/// is armed anew: after a start the flag is down, so a second move never starts.
pub proof fn window_move_starts_once(armed: bool, dragging: bool, drag_active: bool, dragging2: bool, drag_active2: bool)
    requires
        should_start_window_move(armed, dragging, drag_active),
    ensures
        !should_start_window_move(armed && !should_start_window_move(armed, dragging, drag_active), dragging2, drag_active2),
{
}

} // verus!
