//! Key bindings: which action a key press asks for in each mode.

use vstd::prelude::*;
use crate::tui::app::InputMode;

verus! {

/// The keys that the bindings tell apart.
#[derive(Debug, Clone, Copy, PartialEq, Eq, Structural)]
pub enum KeyCode {
    Char(char),
    F(u8),
    Esc,
    Enter,
    Backspace,
    Up,
    Down,
    PageUp,
    PageDown,
    Home,
    End,
    /// Any other key.
    Other,
}

/// A key press: the key and whether Control was held.
#[derive(Debug, Clone, Copy, PartialEq, Eq, Structural)]
pub struct KeyInput {
    pub code: KeyCode,
    pub ctrl: bool,
}

/// What a key press asks the browser to do.
#[derive(Debug, Clone, Copy, PartialEq, Eq, Structural)]
pub enum Action {
    Quit,
    Rescan,
    SoftKill,
    HardKill,
    Start,
    OpenConfig,
    OpenService,
    StartFilter,
    ToggleHelp,
    Down,
    Up,
    PageDown,
    PageUp,
    Home,
    End,
    Confirm,
    Cancel,
    Backspace,
    Input(char),
    NoOp,
}

/// The bindings. With the help showing, Esc, Enter, `q`, `?` and F1 close
/// it. In filter mode, Esc and Enter confirm, Backspace erases and a
/// character without Control is typed. Otherwise: `q` quits, `r` rescans,
/// `k`/`K` terminate/kill, `s` starts, `e` opens the config, `o` or Enter
/// opens the service, `/` filters, `?` or F1 shows help, Down or `j`, Up,
/// PageDown or Ctrl-`d`, PageUp or Ctrl-`u`, Home or `g`, End or `G` move, and
/// Esc cancels.
pub open spec fn spec_map_key(key: KeyInput, mode: InputMode, show_help: bool) -> Action {
    if show_help {
        match key.code {
            KeyCode::Esc | KeyCode::Enter => Action::Cancel,
            KeyCode::Char(c) => if c == 'q' || c == '?' {
                Action::Cancel
            } else {
                Action::NoOp
            },
            KeyCode::F(n) => if n == 1 {
                Action::Cancel
            } else {
                Action::NoOp
            },
            _ => Action::NoOp,
        }
    } else if mode == InputMode::Filter {
        match key.code {
            KeyCode::Esc | KeyCode::Enter => Action::Confirm,
            KeyCode::Backspace => Action::Backspace,
            KeyCode::Char(c) => if !key.ctrl {
                Action::Input(c)
            } else {
                Action::NoOp
            },
            _ => Action::NoOp,
        }
    } else {
        match key.code {
            KeyCode::Char(c) => if c == 'q' {
                Action::Quit
            } else if c == 'r' {
                Action::Rescan
            } else if c == 'k' {
                Action::SoftKill
            } else if c == 'K' {
                Action::HardKill
            } else if c == 's' {
                Action::Start
            } else if c == 'e' {
                Action::OpenConfig
            } else if c == 'o' {
                Action::OpenService
            } else if c == '/' {
                Action::StartFilter
            } else if c == '?' {
                Action::ToggleHelp
            } else if c == 'j' {
                Action::Down
            } else if c == 'g' {
                Action::Home
            } else if c == 'G' {
                Action::End
            } else if c == 'd' && key.ctrl {
                Action::PageDown
            } else if c == 'u' && key.ctrl {
                Action::PageUp
            } else {
                Action::NoOp
            },
            KeyCode::Enter => Action::OpenService,
            KeyCode::F(n) => if n == 1 {
                Action::ToggleHelp
            } else {
                Action::NoOp
            },
            KeyCode::Down => Action::Down,
            KeyCode::Up => Action::Up,
            KeyCode::PageDown => Action::PageDown,
            KeyCode::PageUp => Action::PageUp,
            KeyCode::Home => Action::Home,
            KeyCode::End => Action::End,
            KeyCode::Esc => Action::Cancel,
            _ => Action::NoOp,
        }
    }
}

/// The action that a key press asks for.
pub fn map_key(key: KeyInput, mode: InputMode, show_help: bool) -> (a: Action)
    ensures
        a == spec_map_key(key, mode, show_help),
{
    if show_help {
        return match key.code {
            KeyCode::Esc | KeyCode::Enter => Action::Cancel,
            KeyCode::Char(c) => if c == 'q' || c == '?' {
                Action::Cancel
            } else {
                Action::NoOp
            },
            KeyCode::F(n) => if n == 1 {
                Action::Cancel
            } else {
                Action::NoOp
            },
            _ => Action::NoOp,
        };
    }
    if mode == InputMode::Filter {
        return match key.code {
            KeyCode::Esc | KeyCode::Enter => Action::Confirm,
            KeyCode::Backspace => Action::Backspace,
            KeyCode::Char(c) => if !key.ctrl {
                Action::Input(c)
            } else {
                Action::NoOp
            },
            _ => Action::NoOp,
        };
    }
    match key.code {
        KeyCode::Char(c) => if c == 'q' {
            Action::Quit
        } else if c == 'r' {
            Action::Rescan
        } else if c == 'k' {
            Action::SoftKill
        } else if c == 'K' {
            Action::HardKill
        } else if c == 's' {
            Action::Start
        } else if c == 'e' {
            Action::OpenConfig
        } else if c == 'o' {
            Action::OpenService
        } else if c == '/' {
            Action::StartFilter
        } else if c == '?' {
            Action::ToggleHelp
        } else if c == 'j' {
            Action::Down
        } else if c == 'g' {
            Action::Home
        } else if c == 'G' {
            Action::End
        } else if c == 'd' && key.ctrl {
            Action::PageDown
        } else if c == 'u' && key.ctrl {
            Action::PageUp
        } else {
            Action::NoOp
        },
        KeyCode::Enter => Action::OpenService,
        KeyCode::F(n) => if n == 1 {
            Action::ToggleHelp
        } else {
            Action::NoOp
        },
        KeyCode::Down => Action::Down,
        KeyCode::Up => Action::Up,
        KeyCode::PageDown => Action::PageDown,
        KeyCode::PageUp => Action::PageUp,
        KeyCode::Home => Action::Home,
        KeyCode::End => Action::End,
        KeyCode::Esc => Action::Cancel,
        _ => Action::NoOp,
    }
}

} // verus!
