//! Key-event dispatch: the fixed action set and the key table that selects
//! from it. Reading key events is the surrounding program's concern.

use vstd::prelude::*;

use crate::screen::Location;

verus! {

/// A key press, reduced to what the table reads.
#[derive(Clone, Copy, Debug, PartialEq, Eq, Structural)]
pub enum KeyInput {
    Char(char),
    Esc,
    Enter,
    Other,
}

/// What the core is asked to do for one key press.
#[derive(Clone, Copy, Debug, PartialEq, Eq, Structural)]
pub enum Action {
    Nothing,
    Quit,
    ToggleHelp,
    Cancel,
    Propose(Location),
    Commit,
}

/// The key table: `q` and control-`c` quit; escape dismisses the help
/// overlay when it is shown and otherwise cancels the pending proposal; `?`
/// raises the help overlay; enter commits; `h`, `j`, `k` and `l` propose the
/// four directions.
pub open spec fn action_spec(key: KeyInput, ctrl: bool, help_shown: bool) -> Action {
    match key {
        KeyInput::Char(c) => if c == 'q' {
            Action::Quit
        } else if (c == 'c' || c == 'C') && ctrl {
            Action::Quit
        } else if c == '?' && !help_shown {
            Action::ToggleHelp
        } else if c == 'h' {
            Action::Propose(Location::LEFT)
        } else if c == 'j' {
            Action::Propose(Location::DOWN)
        } else if c == 'k' {
            Action::Propose(Location::UP)
        } else if c == 'l' {
            Action::Propose(Location::RIGHT)
        } else {
            Action::Nothing
        },
        KeyInput::Esc => if help_shown {
            Action::ToggleHelp
        } else {
            Action::Cancel
        },
        KeyInput::Enter => Action::Commit,
        KeyInput::Other => Action::Nothing,
    }
}

/// Select the action for one key press.
pub fn action_for_key(key: KeyInput, ctrl: bool, help_shown: bool) -> (r: Action)
    ensures
        r == action_spec(key, ctrl, help_shown),
{
    match key {
        KeyInput::Char(c) => {
            if c == 'q' {
                Action::Quit
            } else if (c == 'c' || c == 'C') && ctrl {
                Action::Quit
            } else if c == '?' && !help_shown {
                Action::ToggleHelp
            } else if c == 'h' {
                Action::Propose(Location::LEFT)
            } else if c == 'j' {
                Action::Propose(Location::DOWN)
            } else if c == 'k' {
                Action::Propose(Location::UP)
            } else if c == 'l' {
                Action::Propose(Location::RIGHT)
            } else {
                Action::Nothing
            }
        },
        KeyInput::Esc => {
            if help_shown {
                Action::ToggleHelp
            } else {
                Action::Cancel
            }
        },
        KeyInput::Enter => Action::Commit,
        KeyInput::Other => Action::Nothing,
    }
}

} // verus!
