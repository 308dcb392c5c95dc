//! Which action a key press asks for.
use vstd::prelude::*;

use crate::app::actions::Action;
use crate::app::blocked;
use crate::app::state::{AppModel, AppState, Screen};

verus! {

/// A key, as far as the editor tells keys apart.
#[derive(Clone, Copy, Debug, PartialEq, Eq, Structural)]
pub enum Key {
    Char(char),
    Tab,
    BackTab,
    Left,
    Right,
    Up,
    Down,
    Enter,
    Esc,
    Other,
}

/// A key press with the modifiers the editor reads.
#[derive(Clone, Copy, Debug, PartialEq, Eq, Structural)]
pub struct KeyInput {
    pub key: Key,
    pub control: bool,
    pub shift: bool,
}

/// The action a key press asks for in state `s`: Ctrl-C always quits; an
/// open help modal only closes or quits; an open apply modal only confirms,
/// cancels or quits; otherwise the keys of the key bindings, some of them
/// only on the pad screen.
pub open spec fn key_action(k: KeyInput, s: AppModel) -> Option<Action> {
    let pads = s.screen == Screen::PadColors;
    if k.control && k.key == Key::Char('c') {
        Some(Action::Quit)
    } else if s.help_modal_open {
        match k.key {
            Key::Esc | Key::Char('?') => Some(Action::CancelModal),
            Key::Char('q') => Some(Action::Quit),
            _ => None,
        }
    } else if s.apply_modal_open {
        match k.key {
            Key::Enter | Key::Char(' ') => Some(Action::ConfirmApply),
            Key::Esc => Some(Action::CancelModal),
            Key::Char('q') => Some(Action::Quit),
            _ => None,
        }
    } else {
        match k.key {
            Key::Char('q') => Some(Action::Quit),
            Key::Tab => Some(Action::NextScreen),
            Key::BackTab => Some(Action::PrevScreen),
            Key::Left => if pads && k.shift {
                Some(Action::ExtendPadSelection(-1isize, 0isize))
            } else if pads {
                Some(Action::MoveLeft)
            } else {
                Some(Action::AdjustSelected(-1i32))
            },
            Key::Right => if pads && k.shift {
                Some(Action::ExtendPadSelection(1isize, 0isize))
            } else if pads {
                Some(Action::MoveRight)
            } else {
                Some(Action::AdjustSelected(1i32))
            },
            Key::Up => if pads && k.shift {
                Some(Action::ExtendPadSelection(0isize, -1isize))
            } else {
                Some(Action::MoveUp)
            },
            Key::Down => if pads && k.shift {
                Some(Action::ExtendPadSelection(0isize, 1isize))
            } else {
                Some(Action::MoveDown)
            },
            Key::Enter => if s.screen == Screen::Devices {
                Some(Action::ConnectSelected)
            } else {
                Some(Action::ActivateSelected)
            },
            Key::Char(' ') => if pads {
                Some(Action::TogglePadSelection)
            } else {
                Some(Action::ActivateSelected)
            },
            Key::Esc => Some(Action::CancelModal),
            Key::Char('r') => Some(Action::RefreshDevices),
            Key::Char('g') => Some(Action::RefreshConfig),
            Key::Char('d') => Some(Action::Disconnect),
            Key::Char('p') => Some(Action::ShowPacketLog),
            Key::Char('a') => Some(Action::ToggleApplyModal),
            Key::Char('[') => if pads {
                Some(Action::AdjustSelected(-1i32))
            } else {
                None
            },
            Key::Char(']') => if pads {
                Some(Action::AdjustSelected(1i32))
            } else {
                None
            },
            Key::Char('x') => if pads {
                Some(Action::ClearPadSelection)
            } else {
                None
            },
            Key::Char('b') => if pads {
                Some(Action::TogglePadBank)
            } else {
                None
            },
            Key::Char('u') => Some(Action::UndoField),
            Key::Char('U') => Some(Action::DiscardAll),
            Key::Char('?') => Some(Action::ShowHelp),
            _ => None,
        }
    }
}

/// The action a key press asks for.
pub fn map_key(key: KeyInput, state: &AppState) -> (r: Option<Action>)
    ensures
        r == key_action(key, state@),
{
    let pads = state.screen == Screen::PadColors;
    if key.control && key.key == Key::Char('c') {
        return Some(Action::Quit);
    }
    if state.help_modal_open {
        return match key.key {
            Key::Esc | Key::Char('?') => Some(Action::CancelModal),
            Key::Char('q') => Some(Action::Quit),
            _ => None,
        };
    }
    if state.apply_modal_open {
        return match key.key {
            Key::Enter | Key::Char(' ') => Some(Action::ConfirmApply),
            Key::Esc => Some(Action::CancelModal),
            Key::Char('q') => Some(Action::Quit),
            _ => None,
        };
    }
    match key.key {
        Key::Char('q') => Some(Action::Quit),
        Key::Tab => Some(Action::NextScreen),
        Key::BackTab => Some(Action::PrevScreen),
        Key::Left => if pads && key.shift {
            Some(Action::ExtendPadSelection(-1, 0))
        } else if pads {
            Some(Action::MoveLeft)
        } else {
            Some(Action::AdjustSelected(-1))
        },
        Key::Right => if pads && key.shift {
            Some(Action::ExtendPadSelection(1, 0))
        } else if pads {
            Some(Action::MoveRight)
        } else {
            Some(Action::AdjustSelected(1))
        },
        Key::Up => if pads && key.shift {
            Some(Action::ExtendPadSelection(0, -1))
        } else {
            Some(Action::MoveUp)
        },
        Key::Down => if pads && key.shift {
            Some(Action::ExtendPadSelection(0, 1))
        } else {
            Some(Action::MoveDown)
        },
        Key::Enter => if state.screen == Screen::Devices {
            Some(Action::ConnectSelected)
        } else {
            Some(Action::ActivateSelected)
        },
        Key::Char(' ') => if pads {
            Some(Action::TogglePadSelection)
        } else {
            Some(Action::ActivateSelected)
        },
        Key::Esc => Some(Action::CancelModal),
        Key::Char('r') => Some(Action::RefreshDevices),
        Key::Char('g') => Some(Action::RefreshConfig),
        Key::Char('d') => Some(Action::Disconnect),
        Key::Char('p') => Some(Action::ShowPacketLog),
        Key::Char('a') => Some(Action::ToggleApplyModal),
        Key::Char('[') => if pads {
            Some(Action::AdjustSelected(-1))
        } else {
            None
        },
        Key::Char(']') => if pads {
            Some(Action::AdjustSelected(1))
        } else {
            None
        },
        Key::Char('x') => if pads {
            Some(Action::ClearPadSelection)
        } else {
            None
        },
        Key::Char('b') => if pads {
            Some(Action::TogglePadBank)
        } else {
            None
        },
        Key::Char('u') => Some(Action::UndoField),
        Key::Char('U') => Some(Action::DiscardAll),
        Key::Char('?') => Some(Action::ShowHelp),
        _ => None,
    }
}

/// A key press never asks for an action that an open modal blocks.
pub proof fn law_keys_respect_modals(k: KeyInput, s: AppModel)
    ensures
        key_action(k, s) matches Some(a) ==> !blocked(s, a),
{
}

/// Off the pad screen and with no modal open, Left and Right step the
/// selected setting in opposite directions: Left down by one, Right up by
/// one, whatever modifiers are held.
pub proof fn law_left_right_step_settings_oppositely(s: AppModel, control: bool, shift: bool)
    requires
        s.screen != Screen::PadColors,
        !s.help_modal_open,
        !s.apply_modal_open,
    ensures
        key_action(KeyInput { key: Key::Left, control, shift }, s) == Some(Action::AdjustSelected(-1i32)),
        key_action(KeyInput { key: Key::Right, control, shift }, s) == Some(Action::AdjustSelected(1i32)),
{
}

/// On the pad screen with no modal open, the arrow keys move the pad
/// cursor the way they point (with shift they extend the selection that
/// way), and `[` and `]` step the selected pads' colour back and forward.
pub proof fn law_pad_screen_keys(s: AppModel, control: bool)
    requires
        s.screen == Screen::PadColors,
        !s.help_modal_open,
        !s.apply_modal_open,
    ensures
        key_action(KeyInput { key: Key::Left, control, shift: false }, s) == Some(Action::MoveLeft),
        key_action(KeyInput { key: Key::Right, control, shift: false }, s) == Some(Action::MoveRight),
        key_action(KeyInput { key: Key::Up, control, shift: false }, s) == Some(Action::MoveUp),
        key_action(KeyInput { key: Key::Down, control, shift: false }, s) == Some(Action::MoveDown),
        key_action(KeyInput { key: Key::Left, control, shift: true }, s) == Some(
            Action::ExtendPadSelection(-1isize, 0isize),
        ),
        key_action(KeyInput { key: Key::Right, control, shift: true }, s) == Some(
            Action::ExtendPadSelection(1isize, 0isize),
        ),
        key_action(KeyInput { key: Key::Up, control, shift: true }, s) == Some(
            Action::ExtendPadSelection(0isize, -1isize),
        ),
        key_action(KeyInput { key: Key::Down, control, shift: true }, s) == Some(
            Action::ExtendPadSelection(0isize, 1isize),
        ),
        key_action(KeyInput { key: Key::Char('['), control: false, shift: false }, s) == Some(
            Action::AdjustSelected(-1i32),
        ),
        key_action(KeyInput { key: Key::Char(']'), control: false, shift: false }, s) == Some(
            Action::AdjustSelected(1i32),
        ),
{
}

/// Off the pad screen with no modal open, Up and Down move the screen's
/// cursor up and down, whatever modifiers are held.
pub proof fn law_up_down_move_the_cursor(s: AppModel, control: bool, shift: bool)
    requires
        s.screen != Screen::PadColors,
        !s.help_modal_open,
        !s.apply_modal_open,
    ensures
        key_action(KeyInput { key: Key::Up, control, shift }, s) == Some(Action::MoveUp),
        key_action(KeyInput { key: Key::Down, control, shift }, s) == Some(Action::MoveDown),
{
}

} // verus!
