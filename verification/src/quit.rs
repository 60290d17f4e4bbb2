//! Quitting and closing the window: which tabs are busy, the warning that
//! lists them, and when to ask before going.
use vstd::prelude::*;
use crate::palette::{string_views, CommandAction};
use crate::text::{append_chars, append_str, decimal, push_decimal, str_chars, string_of, trim_whitespace, trim_ws};
use crate::view::{TerminalTab, TerminalView, Toast, ToastLevel};

verus! {

/// What a quit request is for.
#[derive(Clone, Copy, Debug, PartialEq, Eq, Structural)]
pub enum QuitRequestTarget {
    Application,
    WindowClose,
}

/// What to do about a quit request.
#[derive(Clone, Debug, PartialEq, Eq)]
pub enum QuitDecision {
    /// A prompt is already open: nothing.
    Ignored,
    /// Quit the application now.
    QuitApplication,
    /// Let the window close now.
    CloseWindow,
    /// Ask first, with this detail; `quit_prompt_answered` takes the answer.
    Prompt(String),
}

/// A command that quits or restarts.
#[derive(Clone, Debug, PartialEq, Eq)]
pub enum QuitCommand {
    Quit(QuitDecision),
    /// Restart the application; `restart_finished` takes the result.
    Restart,
}

/// What follows a restart attempt.
#[derive(Clone, Debug, PartialEq, Eq)]
pub enum RestartOutcome {
    /// The new instance started: quit the application now.
    QuitNow,
    /// It did not start: show this notice and redraw the view.
    Failed(Toast),
}

pub open spec fn is_busy(tab: TerminalTab) -> bool {
    tab.running_process || tab.alternate_screen_mode
}

/// The name of a busy tab in the warning: its trimmed title, or the fallback
/// title and the tab's number.
pub open spec fn busy_title(tab: TerminalTab, index: int, fallback: Seq<char>) -> Seq<char> {
    let t = trim_ws(tab.title@);
    if t.len() == 0 {
        fallback + seq![' '] + decimal((index + 1) as nat)
    } else {
        t
    }
}

/// The names of the busy tabs, in tab order.
pub open spec fn busy_titles(tabs: Seq<TerminalTab>, fallback: Seq<char>) -> Seq<Seq<char>>
    decreases tabs.len(),
{
    if tabs.len() == 0 {
        Seq::empty()
    } else {
        let r = busy_titles(tabs.drop_last(), fallback);
        if is_busy(tabs.last()) {
            r.push(busy_title(tabs.last(), tabs.len() - 1, fallback))
        } else {
            r
        }
    }
}

/// One `- title` line per title.
pub open spec fn bullet_lines(titles: Seq<Seq<char>>) -> Seq<char>
    decreases titles.len(),
{
    if titles.len() == 0 {
        Seq::empty()
    } else {
        bullet_lines(titles.drop_last()) + "- "@ + titles.last() + "\n"@
    }
}

/// The warning shown before quitting with busy tabs.
pub open spec fn quit_detail(titles: Seq<Seq<char>>) -> Seq<char> {
    let n = titles.len();
    decimal(n) + " tab"@ + (if n == 1 {
        Seq::<char>::empty()
    } else {
        "s"@
    }) + " "@ + (if n == 1 {
        "has"@
    } else {
        "have"@
    }) + " running a command or fullscreen terminal app:\n"@ + bullet_lines(titles)
        + "\nQuit anyway?"@
}

/// How many tabs are busy.
pub open spec fn busy_count(tabs: Seq<TerminalTab>) -> nat
    decreases tabs.len(),
{
    if tabs.len() == 0 {
        0
    } else {
        busy_count(tabs.drop_last()) + if is_busy(tabs.last()) {
            1nat
        } else {
            0nat
        }
    }
}

/// The warning names each busy tab once, in tab order: the busy tab at index
/// `i` has the entry after those of the busy tabs before it, and that entry is
/// its trimmed title or, for an untitled tab, the fallback title and `i + 1`,
/// its number among all the tabs.
pub proof fn busy_titles_name_each_busy_tab(tabs: Seq<TerminalTab>, fallback: Seq<char>, i: int)
    requires
        0 <= i < tabs.len(),
        is_busy(tabs[i]),
    ensures
        busy_titles(tabs, fallback).len() == busy_count(tabs),
        busy_count(tabs.take(i)) < busy_titles(tabs, fallback).len(),
        busy_titles(tabs, fallback)[busy_count(tabs.take(i)) as int] == (if trim_ws(tabs[i].title@).len() == 0 {
            fallback + seq![' '] + decimal((i + 1) as nat)
        } else {
            trim_ws(tabs[i].title@)
        }),
    decreases tabs.len(),
{
    let d = tabs.drop_last();
    lemma_busy_len(tabs, fallback);
    if i == tabs.len() - 1 {
        assert(tabs.take(i) =~= d);
        lemma_busy_len(d, fallback);
    } else {
        assert(d[i] == tabs[i]);
        busy_titles_name_each_busy_tab(d, fallback, i);
        assert(d.take(i) =~= tabs.take(i));
    }
}

proof fn lemma_busy_len(tabs: Seq<TerminalTab>, fallback: Seq<char>)
    ensures
        busy_titles(tabs, fallback).len() == busy_count(tabs),
    decreases tabs.len(),
{
    if tabs.len() > 0 {
        lemma_busy_len(tabs.drop_last(), fallback);
    }
}

/// Only the quit flags may differ.
pub open spec fn same_but_quit_flags(a: TerminalView, b: TerminalView) -> bool {
    &&& a.command_palette == b.command_palette
    &&& a.inline_input_selecting == b.inline_input_selecting
    &&& a.theme_id == b.theme_id
    &&& a.tabs == b.tabs
    &&& a.active_tab == b.active_tab
    &&& a.auto_hide_tabbar == b.auto_hide_tabbar
    &&& a.warn_on_quit_with_running_process == b.warn_on_quit_with_running_process
    &&& a.titlebar_move_armed == b.titlebar_move_armed
    &&& a.vertical_tabs_minimized == b.vertical_tabs_minimized
    &&& a.tab_strip == b.tab_strip
}

/// What a quit request decides, from the flags and the busy tabs.
pub open spec fn quit_decision(v: TerminalView, target: QuitRequestTarget, fallback: Seq<char>, d: QuitDecision, w: TerminalView) -> bool {
    let busy = busy_titles(v.tabs@, fallback);
    &&& same_but_quit_flags(v, w)
    &&& if v.quit_prompt_in_flight {
        d == QuitDecision::Ignored && w == v
    } else if !v.warn_on_quit_with_running_process || busy.len() == 0 {
        &&& w.quit_prompt_in_flight == v.quit_prompt_in_flight
        &&& match target {
            QuitRequestTarget::Application => d == QuitDecision::QuitApplication && w.allow_quit_without_prompt,
            QuitRequestTarget::WindowClose => d == QuitDecision::CloseWindow
                && w.allow_quit_without_prompt == v.allow_quit_without_prompt,
        }
    } else {
        &&& w.quit_prompt_in_flight
        &&& w.allow_quit_without_prompt == v.allow_quit_without_prompt
        &&& d matches QuitDecision::Prompt(detail) && detail@ == quit_detail(busy)
    }
}

impl TerminalView {
    /// Runs the quit and restart commands; other actions are not handled here.
    pub fn execute_quit_command_action(&mut self, action: CommandAction, fallback_title: &str) -> (r: Option<QuitCommand>)
        ensures
            action == CommandAction::Quit ==> (r matches Some(QuitCommand::Quit(d)) && quit_decision(
                *old(self),
                QuitRequestTarget::Application,
                fallback_title@,
                d,
                *final(self),
            )),
            action == CommandAction::RestartApp ==> r == Some(QuitCommand::Restart) && *final(self) == *old(self),
            action != CommandAction::Quit && action != CommandAction::RestartApp ==> r is None && *final(self)
                == *old(self),
    {
        match action {
            CommandAction::Quit => Some(QuitCommand::Quit(self.request_application_quit(fallback_title))),
            CommandAction::RestartApp => Some(QuitCommand::Restart),
            _ => None,
        }
    }

    /// Takes the result of a restart: on success the application may quit
    /// without asking, and quits; a failure is reported and the view redrawn.
    pub fn restart_finished(&mut self, result: Result<(), String>) -> (r: RestartOutcome)
        ensures
            same_but_quit_flags(*old(self), *final(self)),
            final(self).quit_prompt_in_flight == old(self).quit_prompt_in_flight,
            match result {
                Ok(()) => r == RestartOutcome::QuitNow && final(self).allow_quit_without_prompt,
                Err(e) => r matches RestartOutcome::Failed(t) && t.level == ToastLevel::Error && t.message@
                    == "Restart failed: "@ + e@ && final(self).allow_quit_without_prompt
                    == old(self).allow_quit_without_prompt,
            },
    {
        match result {
            Ok(()) => {
                self.allow_quit_without_prompt = true;
                RestartOutcome::QuitNow
            },
            Err(error) => {
                let mut m: Vec<char> = Vec::new();
                append_str(&mut m, "Restart failed: ");
                append_str(&mut m, error.as_str());
                RestartOutcome::Failed(Toast { level: ToastLevel::Error, message: string_of(m.as_slice()) })
            },
        }
    }

    /// The names of the tabs that run a command or a full-screen program.
    pub fn busy_tab_titles_for_quit(&self, fallback_title: &str) -> (r: Vec<String>)
        ensures
            string_views(r@) == busy_titles(self.tabs@, fallback_title@),
    {
        let fallback = str_chars(fallback_title);
        let mut r: Vec<String> = Vec::new();
        let mut i: usize = 0;
        while i < self.tabs.len()
            invariant
                i <= self.tabs@.len(),
                fallback@ == fallback_title@,
                string_views(r@) == busy_titles(self.tabs@.take(i as int), fallback_title@),
            decreases self.tabs.len() - i,
        {
            let tab = &self.tabs[i];
            proof {
                let t = self.tabs@.take(i as int + 1);
                assert(t.drop_last() =~= self.tabs@.take(i as int));
                assert(t.last() == self.tabs@[i as int]);
            }
            if tab.running_process || tab.alternate_screen_mode {
                let chars = str_chars(tab.title.as_str());
                let title = trim_whitespace(chars.as_slice());
                let ghost before = string_views(r@);
                if title.len() == 0 {
                    let mut m: Vec<char> = Vec::new();
                    append_chars(&mut m, fallback.as_slice());
                    m.push(' ');
                    push_decimal(&mut m, i + 1);
                    assert(m@ =~= fallback_title@ + seq![' '] + decimal((i + 1) as nat));
                    r.push(string_of(m.as_slice()));
                } else {
                    r.push(string_of(title.as_slice()));
                }
                assert(string_views(r@) =~= before.push(busy_title(self.tabs@[i as int], i as int, fallback_title@)));
            }
            i = i + 1;
        }
        assert(self.tabs@.take(self.tabs.len() as int) =~= self.tabs@);
        r
    }

    /// The warning that names the busy tabs.
    pub fn quit_warning_detail(&self, busy_titles: &[String]) -> (r: String)
        ensures
            r@ == quit_detail(string_views(busy_titles@)),
    {
        let count = busy_titles.len();
        let ghost ts = string_views(busy_titles@);
        let mut m: Vec<char> = Vec::new();
        push_decimal(&mut m, count);
        append_str(&mut m, " tab");
        if count != 1 {
            append_str(&mut m, "s");
        }
        append_str(&mut m, " ");
        if count == 1 {
            append_str(&mut m, "has");
        } else {
            append_str(&mut m, "have");
        }
        append_str(&mut m, " running a command or fullscreen terminal app:\n");
        let ghost head = m@;
        assert(head =~= decimal(count as nat) + " tab"@ + (if count == 1 {
            Seq::<char>::empty()
        } else {
            "s"@
        }) + " "@ + (if count == 1 {
            "has"@
        } else {
            "have"@
        }) + " running a command or fullscreen terminal app:\n"@);
        let mut i: usize = 0;
        while i < count
            invariant
                i <= count,
                count == busy_titles@.len(),
                ts == string_views(busy_titles@),
                m@ == head + bullet_lines(ts.take(i as int)),
            decreases count - i,
        {
            append_str(&mut m, "- ");
            append_str(&mut m, busy_titles[i].as_str());
            append_str(&mut m, "\n");
            proof {
                let t = ts.take(i as int + 1);
                assert(t.drop_last() =~= ts.take(i as int));
                assert(t.last() == busy_titles@[i as int]@);
            }
            i = i + 1;
            assert(m@ =~= head + bullet_lines(ts.take(i as int)));
        }
        assert(ts.take(count as int) =~= ts);
        append_str(&mut m, "\nQuit anyway?");
        string_of(m.as_slice())
    }

    /// Decides a quit request: ignored while a prompt is open; immediate when
    /// no warning is due; else a prompt naming the busy tabs.
    pub fn request_quit(&mut self, target: QuitRequestTarget, fallback_title: &str) -> (r: QuitDecision)
        ensures
            quit_decision(*old(self), target, fallback_title@, r, *final(self)),
    {
        if self.quit_prompt_in_flight {
            return QuitDecision::Ignored;
        }
        let busy = self.busy_tab_titles_for_quit(fallback_title);
        if !self.warn_on_quit_with_running_process || busy.len() == 0 {
            match target {
                QuitRequestTarget::Application => {
                    self.allow_quit_without_prompt = true;
                    return QuitDecision::QuitApplication;
                },
                QuitRequestTarget::WindowClose => {
                    return QuitDecision::CloseWindow;
                },
            }
        }
        self.quit_prompt_in_flight = true;
        let detail = self.quit_warning_detail(busy.as_slice());
        QuitDecision::Prompt(detail)
    }

    /// Takes the answer to the quit prompt; returns whether to go on quitting
    /// (or closing).
    pub fn quit_prompt_answered(&mut self, confirmed: bool) -> (r: bool)
        ensures
            r == confirmed,
            !final(self).quit_prompt_in_flight,
            final(self).allow_quit_without_prompt == (confirmed || old(self).allow_quit_without_prompt),
            same_but_quit_flags(*old(self), *final(self)),
    {
        self.quit_prompt_in_flight = false;
        if confirmed {
            self.allow_quit_without_prompt = true;
        }
        confirmed
    }

    /// The window asks to close: at once (and only once) when quitting was
    /// allowed, else as a quit request for the window.
    pub fn handle_window_should_close_request(&mut self, fallback_title: &str) -> (r: QuitDecision)
        ensures
            old(self).allow_quit_without_prompt ==> r == QuitDecision::CloseWindow
                && !final(self).allow_quit_without_prompt && final(self).quit_prompt_in_flight
                == old(self).quit_prompt_in_flight && same_but_quit_flags(*old(self), *final(self)),
            !old(self).allow_quit_without_prompt ==> quit_decision(
                *old(self),
                QuitRequestTarget::WindowClose,
                fallback_title@,
                r,
                *final(self),
            ),
    {
        if self.allow_quit_without_prompt {
            self.allow_quit_without_prompt = false;
            return QuitDecision::CloseWindow;
        }
        self.request_quit(QuitRequestTarget::WindowClose, fallback_title)
    }

    /// A quit request for the application.
    pub fn request_application_quit(&mut self, fallback_title: &str) -> (r: QuitDecision)
        ensures
            quit_decision(*old(self), QuitRequestTarget::Application, fallback_title@, r, *final(self)),
    {
        self.request_quit(QuitRequestTarget::Application, fallback_title)
    }
}

} // verus!
