//! The editor: its state, the actions that change it, and the commands that
//! talk to the device.
pub mod actions;
pub mod apply;
pub mod commands;
pub mod ingest;
pub mod keys;
pub mod pad_grid;
pub mod reducer;
pub mod state;

use vstd::prelude::*;

use crate::app::actions::Action;
use crate::app::commands::{
    answered_frames, apply_outcome, apply_sends, bank_notice_outcome, bank_sends, connect_calls,
    connect_outcome, disconnect_outcome, poll_calls, poll_outcome, refresh_config_outcome,
    refresh_sends, rescan_result, scan_outcome, send_calls,
};
use crate::app::reducer::{reduce, reduced, step_fits, step_fits_now};
use crate::app::state::{initial_model, state_wf, with_error, AppModel, AppState};
use crate::transport::ports::{transport_error_text, TransportError, TransportErrorModel};
use crate::transport::{unit_answer, MidiTransport, Recorded, TransportCall};

verus! {

/// The editor: its state and the transport it talks through, with the
/// record of the calls made on it.
pub struct App<T: MidiTransport> {
    pub state: AppState,
    pub transport: Recorded<T>,
}

/// Whether an open modal blocks the action: the help modal lets only ticks,
/// cancelling and quitting through; the apply modal also lets the apply be
/// confirmed.
pub open spec fn blocked(s: AppModel, a: Action) -> bool {
    ||| s.help_modal_open && !(a is Tick || a is CancelModal || a is Quit)
    ||| s.apply_modal_open && !(a is Tick || a is ConfirmApply || a is CancelModal || a is Quit)
}

/// What an action that is not blocked does, before a transport error is
/// recorded: a tick polls the transport after the reducer ran, switching the
/// pad bank tells the device, device commands run, and every other action is
/// the reducer's.
pub open spec fn command_outcome(s: AppModel, a: Action, mid: AppModel, ok: bool) -> bool {
    match a {
        Action::Tick => poll_outcome(reduced(s, a), mid, ok),
        Action::RefreshDevices => scan_outcome(s, mid, ok),
        Action::ConnectSelected => connect_outcome(s, mid, ok),
        Action::Disconnect => disconnect_outcome(s, mid, ok),
        Action::RefreshConfig => refresh_config_outcome(s, mid, ok),
        Action::ConfirmApply => apply_outcome(s, mid, ok),
        Action::TogglePadBank => bank_notice_outcome(reduced(s, a), mid, ok),
        _ => ok && mid == reduced(s, a),
    }
}

/// A command that failed with `r`'s error leaves the text of that very
/// error recorded; one that succeeded leaves its state as it is.
pub open spec fn error_recorded(mid: AppModel, fin: AppModel, r: Result<(), TransportErrorModel>) -> bool {
    match r {
        Ok(()) => fin == mid,
        Err(e) => fin == with_error(mid, transport_error_text(e)),
    }
}

/// The calls the command behind `a` made on the transport, from `s` to the
/// state `mid` it left, answering `res`: a tick polls once after the
/// reducer ran, a rescan scans, a connect opens the selected device and
/// sends its requests, a disconnect closes the ports, a config refresh and
/// an apply send their messages, switching the pad bank tells the device,
/// and every other action calls nothing.
pub open spec fn command_calls(
    s: AppModel,
    a: Action,
    mid: AppModel,
    new: Seq<TransportCall>,
    res: Result<(), TransportErrorModel>,
) -> bool {
    match a {
        Action::Tick => poll_calls(reduced(s, a), mid, new, res),
        Action::RefreshDevices => rescan_result(s, mid, new, res),
        Action::ConnectSelected => connect_calls(s, mid, new, res),
        Action::Disconnect => new == seq![TransportCall::Disconnect(res)],
        Action::RefreshConfig => send_calls(refresh_sends(s), new, res) && mid.packet_log
            == s.packet_log + answered_frames(new),
        Action::ConfirmApply => send_calls(apply_sends(s), new, res) && mid.packet_log
            == s.packet_log + answered_frames(new),
        Action::TogglePadBank => send_calls(bank_sends(reduced(s, a)), new, res) && mid.packet_log
            == reduced(s, a).packet_log + answered_frames(new),
        _ => new.len() == 0 && res is Ok,
    }
}

/// The command behind `a` ran from `s` to `fin`, answering `r`, and took
/// the transport's record of calls from `before` to `after`: it reached its
/// outcome and made its calls.
pub open spec fn ran(
    s: AppModel,
    a: Action,
    fin: AppModel,
    r: Result<(), TransportErrorModel>,
    before: Seq<TransportCall>,
    after: Seq<TransportCall>,
) -> bool {
    &&& command_outcome(s, a, fin, r is Ok)
    &&& exists|new: Seq<TransportCall>| after == before + new && #[trigger] command_calls(s, a, fin, new, r)
}

/// Dispatching `a`, which answered `r`, took the state from `s` to `fin`
/// and the transport's record of calls from `before` to `after`: nothing
/// happens, with no error, when a modal blocks it; otherwise the command
/// behind it made its calls and reached its outcome, and the error it
/// returned is recorded.
pub open spec fn dispatched(
    s: AppModel,
    a: Action,
    fin: AppModel,
    r: Result<(), TransportErrorModel>,
    before: Seq<TransportCall>,
    after: Seq<TransportCall>,
) -> bool {
    if blocked(s, a) {
        fin == s && r is Ok && after == before
    } else {
        exists|mid: AppModel, new: Seq<TransportCall>|
            after == before + new && #[trigger] command_outcome(s, a, mid, r is Ok)
                && #[trigger] command_calls(s, a, mid, new, r) && error_recorded(mid, fin, r)
    }
}

/// Records the error a command ended in.
fn settle(state: &mut AppState, r: &Result<(), TransportError>)
    ensures
        error_recorded(old(state)@, final(state)@, unit_answer(r)),
        state_wf(old(state)@) ==> state_wf(final(state)@),
{
    match r {
        Ok(()) => {},
        Err(e) => {
            let message = e.message();
            state.mark_error(message.as_str());
            assert(state@ == with_error(old(state)@, transport_error_text(e@)));
        },
    }
}

impl<T: MidiTransport> App<T> {
    /// A fresh editor on `transport`.
    pub fn new(transport: T) -> (r: Self)
        ensures
            r.state@ == initial_model(),
            state_wf(r.state@),
            r.transport.calls() == Seq::<crate::transport::TransportCall>::empty(),
    {
        App { state: AppState::new(), transport: Recorded::new(transport) }
    }

    /// Handles one user action, answering the error its command ended in
    /// (which is also recorded in the state).
    pub fn dispatch(&mut self, action: Action) -> (r: Result<(), TransportError>)
        requires
            state_wf(old(self).state@),
            blocked(old(self).state@, action) || step_fits(old(self).state@, action),
        ensures
            dispatched(
                old(self).state@,
                action,
                final(self).state@,
                unit_answer(&r),
                old(self).transport.calls(),
                final(self).transport.calls(),
            ),
            blocked(old(self).state@, action) ==> final(self).transport == old(self).transport,
            state_wf(final(self).state@),
    {
        let ghost s = self.state@;
        let help_allows = match action {
            Action::Tick | Action::CancelModal | Action::Quit => true,
            _ => false,
        };
        if self.state.help_modal_open && !help_allows {
            return Ok(());
        }
        let apply_allows = match action {
            Action::Tick | Action::ConfirmApply | Action::CancelModal | Action::Quit => true,
            _ => false,
        };
        if self.state.apply_modal_open && !apply_allows {
            return Ok(());
        }
        let ghost before = self.transport.calls();
        let r = self.run_command(action);
        let ghost mid = self.state@;
        let ghost rm = unit_answer(&r);
        let ghost new = choose|new: Seq<TransportCall>|
            self.transport.calls() == before + new && #[trigger] command_calls(s, action, mid, new, rm);
        assert(command_outcome(s, action, mid, rm is Ok));
        settle(&mut self.state, &r);
        assert(error_recorded(mid, self.state@, rm));
        assert(command_outcome(s, action, mid, rm is Ok) && command_calls(s, action, mid, new, rm));
        r
    }

    /// Runs the command behind an action that no modal blocks.
    fn run_command(&mut self, action: Action) -> (r: Result<(), TransportError>)
        requires
            state_wf(old(self).state@),
            step_fits(old(self).state@, action),
        ensures
            ran(
                old(self).state@,
                action,
                final(self).state@,
                unit_answer(&r),
                old(self).transport.calls(),
                final(self).transport.calls(),
            ),
            state_wf(final(self).state@),
    {
        match action {
            Action::Tick => self.run_tick(),
            Action::RefreshDevices => self.run_rescan(),
            Action::ConnectSelected => self.run_connect(),
            Action::Disconnect => self.run_disconnect(),
            Action::RefreshConfig => self.run_config_refresh(),
            Action::ConfirmApply => self.run_apply(),
            Action::TogglePadBank => self.run_bank_switch(),
            _ => self.run_reducer(action),
        }
    }

    /// Runs the reducer on a tick, then polls the transport.
    fn run_tick(&mut self) -> (r: Result<(), TransportError>)
        requires
            state_wf(old(self).state@),
            step_fits(old(self).state@, Action::Tick),
        ensures
            ran(
                old(self).state@,
                Action::Tick,
                final(self).state@,
                unit_answer(&r),
                old(self).transport.calls(),
                final(self).transport.calls(),
            ),
            state_wf(final(self).state@),
    {
        let ghost s = self.state@;
        let ghost before = self.transport.calls();
        let ghost mut new_calls: Seq<TransportCall> = Seq::empty();
        reduce(&mut self.state, Action::Tick);
        let r = crate::app::commands::poll_transport(&mut self.state, &mut self.transport);
        proof {
            new_calls = choose|new: Seq<TransportCall>|
                self.transport.calls() == before + new && #[trigger] poll_calls(
                    reduced(s, Action::Tick),
                    self.state@,
                    new,
                    unit_answer(&r),
                );
            assert(command_calls(s, Action::Tick, self.state@, new_calls, unit_answer(&r)));
            assert(self.transport.calls() == before + new_calls);
        }
        r
    }

    /// Rescans the MIDI ports.
    fn run_rescan(&mut self) -> (r: Result<(), TransportError>)
        requires
            state_wf(old(self).state@),
            step_fits(old(self).state@, Action::RefreshDevices),
        ensures
            ran(
                old(self).state@,
                Action::RefreshDevices,
                final(self).state@,
                unit_answer(&r),
                old(self).transport.calls(),
                final(self).transport.calls(),
            ),
            state_wf(final(self).state@),
    {
        let ghost s = self.state@;
        let ghost before = self.transport.calls();
        let ghost mut new_calls: Seq<TransportCall> = Seq::empty();
        let r = crate::app::commands::refresh_devices(&mut self.state, &mut self.transport);
        proof {
            new_calls = choose|new: Seq<TransportCall>|
                self.transport.calls() == before + new && #[trigger] rescan_result(
                    s,
                    self.state@,
                    new,
                    unit_answer(&r),
                );
            assert(command_calls(s, Action::RefreshDevices, self.state@, new_calls, unit_answer(&r)));
        }
        r
    }

    /// Connects to the selected device.
    fn run_connect(&mut self) -> (r: Result<(), TransportError>)
        requires
            state_wf(old(self).state@),
            step_fits(old(self).state@, Action::ConnectSelected),
        ensures
            ran(
                old(self).state@,
                Action::ConnectSelected,
                final(self).state@,
                unit_answer(&r),
                old(self).transport.calls(),
                final(self).transport.calls(),
            ),
            state_wf(final(self).state@),
    {
        let ghost s = self.state@;
        let ghost before = self.transport.calls();
        let ghost mut new_calls: Seq<TransportCall> = Seq::empty();
        let r = crate::app::commands::connect_selected(&mut self.state, &mut self.transport);
        proof {
            new_calls = choose|new: Seq<TransportCall>|
                self.transport.calls() == before + new && #[trigger] connect_calls(
                    s,
                    self.state@,
                    new,
                    unit_answer(&r),
                );
            assert(command_calls(s, Action::ConnectSelected, self.state@, new_calls, unit_answer(&r)));
        }
        r
    }

    /// Closes the connection.
    fn run_disconnect(&mut self) -> (r: Result<(), TransportError>)
        requires
            state_wf(old(self).state@),
            step_fits(old(self).state@, Action::Disconnect),
        ensures
            ran(
                old(self).state@,
                Action::Disconnect,
                final(self).state@,
                unit_answer(&r),
                old(self).transport.calls(),
                final(self).transport.calls(),
            ),
            state_wf(final(self).state@),
    {
        let ghost s = self.state@;
        let ghost before = self.transport.calls();
        let ghost mut new_calls: Seq<TransportCall> = Seq::empty();
        let r = crate::app::commands::disconnect(&mut self.state, &mut self.transport);
        proof {
            new_calls = seq![TransportCall::Disconnect(unit_answer(&r))];
            assert(self.transport.calls() =~= before + new_calls);
            assert(command_calls(s, Action::Disconnect, self.state@, new_calls, unit_answer(&r)));
        }
        r
    }

    /// Asks the device for its settings again.
    fn run_config_refresh(&mut self) -> (r: Result<(), TransportError>)
        requires
            state_wf(old(self).state@),
            step_fits(old(self).state@, Action::RefreshConfig),
        ensures
            ran(
                old(self).state@,
                Action::RefreshConfig,
                final(self).state@,
                unit_answer(&r),
                old(self).transport.calls(),
                final(self).transport.calls(),
            ),
            state_wf(final(self).state@),
    {
        let ghost s = self.state@;
        let ghost before = self.transport.calls();
        let ghost mut new_calls: Seq<TransportCall> = Seq::empty();
        let r = crate::app::commands::refresh_config(&mut self.state, &mut self.transport);
        proof {
            new_calls = choose|new: Seq<TransportCall>|
                self.transport.calls() == before + new && #[trigger] send_calls(
                    refresh_sends(s),
                    new,
                    unit_answer(&r),
                ) && self.state@.packet_log == s.packet_log + answered_frames(new);
            assert(command_calls(s, Action::RefreshConfig, self.state@, new_calls, unit_answer(&r)));
        }
        r
    }

    /// Applies the staged changes.
    fn run_apply(&mut self) -> (r: Result<(), TransportError>)
        requires
            state_wf(old(self).state@),
            step_fits(old(self).state@, Action::ConfirmApply),
        ensures
            ran(
                old(self).state@,
                Action::ConfirmApply,
                final(self).state@,
                unit_answer(&r),
                old(self).transport.calls(),
                final(self).transport.calls(),
            ),
            state_wf(final(self).state@),
    {
        let ghost s = self.state@;
        let ghost before = self.transport.calls();
        let ghost mut new_calls: Seq<TransportCall> = Seq::empty();
        let r = crate::app::commands::confirm_apply(&mut self.state, &mut self.transport);
        proof {
            new_calls = choose|new: Seq<TransportCall>|
                self.transport.calls() == before + new && #[trigger] send_calls(
                    apply_sends(s),
                    new,
                    unit_answer(&r),
                ) && self.state@.packet_log == s.packet_log + answered_frames(new);
            assert(command_calls(s, Action::ConfirmApply, self.state@, new_calls, unit_answer(&r)));
        }
        r
    }

    /// Switches the pad bank and tells the device.
    fn run_bank_switch(&mut self) -> (r: Result<(), TransportError>)
        requires
            state_wf(old(self).state@),
            step_fits(old(self).state@, Action::TogglePadBank),
        ensures
            ran(
                old(self).state@,
                Action::TogglePadBank,
                final(self).state@,
                unit_answer(&r),
                old(self).transport.calls(),
                final(self).transport.calls(),
            ),
            state_wf(final(self).state@),
    {
        let ghost s = self.state@;
        let ghost before = self.transport.calls();
        let ghost mut new_calls: Seq<TransportCall> = Seq::empty();
        reduce(&mut self.state, Action::TogglePadBank);
        let r = crate::app::commands::notify_pad_bank_changed(
            &mut self.state,
            &mut self.transport,
        );
        proof {
            new_calls = choose|new: Seq<TransportCall>|
                self.transport.calls() == before + new && #[trigger] send_calls(
                    bank_sends(reduced(s, Action::TogglePadBank)),
                    new,
                    unit_answer(&r),
                ) && self.state@.packet_log == reduced(s, Action::TogglePadBank).packet_log
                    + answered_frames(new);
            assert(command_calls(s, Action::TogglePadBank, self.state@, new_calls, unit_answer(&r)));
        }
        r
    }

    /// Runs the reducer on an action that reaches no device.
    fn run_reducer(&mut self, action: Action) -> (r: Result<(), TransportError>)
        requires
            state_wf(old(self).state@),
            step_fits(old(self).state@, action),
            !(action is Tick || action is RefreshDevices || action is ConnectSelected
                || action is Disconnect || action is RefreshConfig || action is ConfirmApply
                || action is TogglePadBank),
        ensures
            ran(
                old(self).state@,
                action,
                final(self).state@,
                unit_answer(&r),
                old(self).transport.calls(),
                final(self).transport.calls(),
            ),
            state_wf(final(self).state@),
    {
        let ghost s = self.state@;
        let ghost before = self.transport.calls();
        let ghost mut new_calls: Seq<TransportCall> = Seq::empty();
        reduce(&mut self.state, action);
        let r: Result<(), TransportError> = Ok(());
        proof {
            new_calls = Seq::<TransportCall>::empty();
            assert(self.transport.calls() =~= before + new_calls);
            assert(command_calls(s, action, self.state@, new_calls, unit_answer(&r)));
        }
        r
    }

    /// Whether `dispatch` takes the action: a modal blocks it, or its step
    /// fits in `i32` arithmetic.
    pub fn accepts(&self, action: Action) -> (r: bool)
        ensures
            r == (blocked(self.state@, action) || step_fits(self.state@, action)),
    {
        let help_allows = match action {
            Action::Tick | Action::CancelModal | Action::Quit => true,
            _ => false,
        };
        let apply_allows = match action {
            Action::Tick | Action::ConfirmApply | Action::CancelModal | Action::Quit => true,
            _ => false,
        };
        (self.state.help_modal_open && !help_allows) || (self.state.apply_modal_open
            && !apply_allows) || step_fits_now(&self.state, action)
    }

    /// Rescans the MIDI ports.
    pub fn refresh_devices(&mut self)
        requires
            state_wf(old(self).state@),
        ensures
            exists|r: Result<(), TransportErrorModel>|
                dispatched(
                    old(self).state@,
                    Action::RefreshDevices,
                    final(self).state@,
                    r,
                    old(self).transport.calls(),
                    final(self).transport.calls(),
                ),
            blocked(old(self).state@, Action::RefreshDevices) ==> final(self).transport == old(
                self,
            ).transport,
            state_wf(final(self).state@),
    {
        let r = self.dispatch(Action::RefreshDevices);
        assert(dispatched(
            old(self).state@,
            Action::RefreshDevices,
            self.state@,
            unit_answer(&r),
            old(self).transport.calls(),
            self.transport.calls(),
        ));
    }
}

} // verus!
