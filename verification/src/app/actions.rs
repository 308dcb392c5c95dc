//! What the user can ask of the editor.
use vstd::prelude::*;

verus! {

/// One user action.
#[derive(Clone, Copy, Debug, PartialEq, Eq, Structural)]
pub enum Action {
    Tick,
    Quit,
    NextScreen,
    PrevScreen,
    MoveLeft,
    MoveRight,
    MoveUp,
    MoveDown,
    AdjustSelected(i32),
    ActivateSelected,
    ShowPacketLog,
    ToggleApplyModal,
    CancelModal,
    TogglePadSelection,
    TogglePadBank,
    ClearPadSelection,
    UndoField,
    DiscardAll,
    ShowHelp,
    RefreshDevices,
    ConnectSelected,
    Disconnect,
    RefreshConfig,
    ConfirmApply,
    ExtendPadSelection(isize, isize),
}

} // verus!
