//! Commands that talk to the device through a transport. Each states the
//! state it leaves behind for whatever the transport answers; the parts
//! that only depend on an answer are functions of their own.
use vstd::prelude::*;

use crate::app::apply::{apply_plan, build_apply_messages};
use crate::app::ingest::{
    frames_ingested, ingest_frames, is_permutation, law_ingested_frames_load_the_buffer,
    maybe_report_loaded_pad_colors, pad_colors_reported, with_loaded_buffer,
};
use crate::app::state::{
    connected_device_of, device_position, dirty_count_of, dirty_pads_of, normalized, state_wf, with_connection,
    with_event, with_status, AppMode, AppModel, AppState, PendingModel, Screen,
};
use crate::protocol::edits::StagedEdits;
use crate::protocol::frame::{FrameModel, SysexFrame};
use crate::protocol::registry::{
    ConfigSnapshot, DecodedField, DecodedFieldModel, FieldValue, FieldValueModel,
    ReadCompleteness, SnapshotModel,
};
use crate::protocol::{
    bank_switch_message, bank_switch_outcome, bulk_chunk_message, bulk_read_bytes, bulk_read_request, chunk_count,
    config_read_outcome, config_read_request, device_inquiry_bytes, device_inquiry_request,
    empty_snapshot, empty_snapshot_model, pad_color_tags, pad_color_tags_of,
};
use crate::text::{concat2, concat3, dec_chars, first_index, owned, with_number};
use crate::transport::ports::{DeviceModel, DeviceRef, TransportError, TransportErrorModel};
use crate::transport::{scan_answer, unit_answer, MidiTransport, Recorded, TransportCall};

verus! {

/// `s` with the device cursor on the first device with id `id`, if listed.
pub open spec fn selection_restored(s: AppModel, id: Option<Seq<char>>) -> AppModel {
    match id {
        None => s,
        Some(id) => match device_position(s.devices, id) {
            Some(i) => AppModel { selected_device_idx: i as usize, ..s },
            None => s,
        },
    }
}

/// The id of the device under the cursor, if any.
pub open spec fn selected_device_id(s: AppModel) -> Option<Seq<char>> {
    if s.selected_device_idx < s.devices.len() {
        Some(s.devices[s.selected_device_idx as int].id)
    } else {
        None
    }
}

/// The mode after a scan: Connected while a device is connected, else Idle.
pub open spec fn mode_after_scan(s: AppModel) -> AppMode {
    if s.connected_device_id is Some {
        AppMode::Connected
    } else {
        AppMode::Idle
    }
}

/// `s` (already in scanning mode) after a scan found `found`: an empty scan
/// keeps a non-empty previous list; otherwise the list is replaced. The
/// connected id and the cursor's device are kept where they are listed.
pub open spec fn scan_applied(s: AppModel, found: Seq<DeviceModel>) -> AppModel {
    let sel = selected_device_id(s);
    if found.len() == 0 && s.devices.len() > 0 {
        let s1 = selection_restored(with_connection(s, s.connected_device_id), sel);
        with_event(
            with_status(
                AppModel { app_mode: mode_after_scan(s1), ..s1 },
                "Rescan returned no Midi Fighter ports; keeping the last seen device list."@,
            ),
            "Rescan returned no Midi Fighter ports; preserved the previous device list."@,
        )
    } else {
        let s1 = normalized(
            selection_restored(
                with_connection(AppModel { devices: found, ..s }, s.connected_device_id),
                sel,
            ),
        );
        if found.len() == 0 {
            with_event(
                with_status(
                    AppModel { app_mode: AppMode::Idle, ..s1 },
                    "No Midi Fighter ports detected."@,
                ),
                "Scan completed: no Midi Fighter ports detected."@,
            )
        } else {
            with_event(
                with_status(
                    AppModel { app_mode: mode_after_scan(s1), ..s1 },
                    "Found "@ + dec_chars(found.len()) + " candidate device(s)."@,
                ),
                "Scan completed: "@ + dec_chars(found.len()) + " candidate device(s)."@,
            )
        }
    }
}

/// `s` as a scan starts: scanning mode, no error.
pub open spec fn scan_started(s: AppModel) -> AppModel {
    AppModel { app_mode: AppMode::Scanning, last_error: None, ..s }
}

/// Puts the device cursor on the first device with id `selected_id`.
fn restore_selected_device(state: &mut AppState, selected_id: Option<&str>)
    ensures
        final(state)@ == selection_restored(
            old(state)@,
            match selected_id {
                Some(id) => Some(id@),
                None => None,
            },
        ),
{
    let wanted = match selected_id {
        Some(id) => owned(id),
        None => {
            return;
        },
    };
    let ghost ids = state@.devices.map_values(|d: DeviceModel| d.id);
    let mut i: usize = 0;
    while i < state.devices.len()
        invariant
            ids == state@.devices.map_values(|d: DeviceModel| d.id),
            state@ == old(state)@,
            i <= state@.devices.len(),
            selected_id matches Some(id) && id@ == wanted@,
            forall|j: int| 0 <= j < i ==> ids[j] != wanted@,
        decreases state@.devices.len() - i,
    {
        assert(ids[i as int] == state.devices@[i as int]@.id);
        if state.devices[i].id == wanted {
            proof {
                assert(ids[i as int] == wanted@);
                crate::text::lemma_first_index(ids, wanted@, i as int);
            }
            state.selected_device_idx = i;
            return;
        }
        i = i + 1;
    }
    proof {
        crate::text::lemma_first_index(ids, wanted@, i as int);
    }
}

/// The list and selection after an empty rescan of a known list.
fn keep_previous_devices(state: &mut AppState, previous_id: Option<String>, sel: Option<&str>)
    requires
        previous_id.deep_view() == old(state)@.connected_device_id,
        (match sel {
            Some(id) => Some(id@),
            None => None,
        }) == selected_device_id(old(state)@),
        old(state)@.devices.len() > 0,
    ensures
        final(state)@ == scan_applied(old(state)@, Seq::empty()),
{
    state.set_connected_device(previous_id);
    restore_selected_device(state, sel);
    state.app_mode = if state.connected_device_id.is_some() {
        AppMode::Connected
    } else {
        AppMode::Idle
    };
    state.set_status("Rescan returned no Midi Fighter ports; keeping the last seen device list.");
    state.push_event("Rescan returned no Midi Fighter ports; preserved the previous device list.");
}

/// The list and selection after a rescan that replaces the list.
#[verifier::rlimit(40)]
fn replace_devices(
    state: &mut AppState,
    devices: Vec<DeviceRef>,
    previous_id: Option<String>,
    sel: Option<&str>,
)
    requires
        previous_id.deep_view() == old(state)@.connected_device_id,
        (match sel {
            Some(id) => Some(id@),
            None => None,
        }) == selected_device_id(old(state)@),
        !(devices@.len() == 0 && old(state)@.devices.len() > 0),
    ensures
        final(state)@ == scan_applied(old(state)@, devices.deep_view()),
{
    let count = devices.len();
    state.devices = devices;
    state.set_connected_device(previous_id);
    restore_selected_device(state, sel);
    state.normalize_selection();
    if count == 0 {
        state.app_mode = AppMode::Idle;
        state.set_status("No Midi Fighter ports detected.");
        state.push_event("Scan completed: no Midi Fighter ports detected.");
    } else {
        state.app_mode = if state.connected_device_id.is_some() {
            AppMode::Connected
        } else {
            AppMode::Idle
        };
        let msg = with_number("Found ", count as u64, " candidate device(s).");
        state.set_status(msg.as_str());
        let event = with_number("Scan completed: ", count as u64, " candidate device(s).");
        state.push_event(event.as_str());
    }
}

/// Folds the devices a scan found into the state.
pub fn apply_scan_result(state: &mut AppState, devices: Vec<DeviceRef>)
    ensures
        final(state)@ == scan_applied(old(state)@, devices.deep_view()),
{
    let previous_selected_id = match state.selected_device() {
        Some(d) => Some(d.id.clone()),
        None => None,
    };
    let previous_id = crate::protocol::registry::copy_opt_string(&state.connected_device_id);
    let sel = match &previous_selected_id {
        Some(s) => Some(s.as_str()),
        None => None,
    };
    if devices.len() == 0 && state.devices.len() > 0 {
        keep_previous_devices(state, previous_id, sel);
        assert(devices.deep_view() =~= Seq::<DeviceModel>::empty());
        return;
    }
    replace_devices(state, devices, previous_id, sel);
}

/// How many times a rescan asks the transport before it settles for an
/// empty answer.
pub const SCAN_ATTEMPTS: usize = 4;

/// Whether a rescan asks the transport again after try number `attempt`
/// (counted from zero) found `found`: only while nothing was found and
/// tries are left.
pub fn rescan_due(attempt: usize, found: &Vec<DeviceRef>) -> (r: bool)
    ensures
        r == (found@.len() == 0 && attempt + 1 < SCAN_ATTEMPTS),
{
    found.len() == 0 && attempt < SCAN_ATTEMPTS - 1
}

/// The calls of a rescan: scans only, at most `SCAN_ATTEMPTS` of them, every
/// one but the last finding nothing; the last fails, finds something, or is
/// the last try.
pub open spec fn rescan_calls(new: Seq<TransportCall>) -> bool {
    &&& 1 <= new.len() <= SCAN_ATTEMPTS
    &&& forall|i: int| 0 <= i < new.len() - 1 ==> #[trigger] new[i] == TransportCall::Scan(
        Ok(Seq::<DeviceModel>::empty()),
    )
    &&& new.last() matches TransportCall::Scan(a) && (a == Ok::<Seq<DeviceModel>, TransportErrorModel>(
        Seq::empty(),
    ) ==> new.len() == SCAN_ATTEMPTS)
}

/// The answer of a rescan's last scan.
pub open spec fn last_scan(new: Seq<TransportCall>) -> Result<Seq<DeviceModel>, TransportErrorModel> {
    match new.last() {
        TransportCall::Scan(a) => a,
        _ => Ok(Seq::empty()),
    }
}

/// A rescan from `s` to `fin` that made the calls `new` and answered `res`:
/// the calls are those of a rescan, and the last scan's answer decides; a
/// list found is folded in, an error is answered and leaves the state
/// scanning.
pub open spec fn rescan_result(
    s: AppModel,
    fin: AppModel,
    new: Seq<TransportCall>,
    res: Result<(), TransportErrorModel>,
) -> bool {
    &&& rescan_calls(new)
    &&& match last_scan(new) {
        Ok(found) => res is Ok && fin == scan_applied(scan_started(s), found),
        Err(e) => res == Err::<(), TransportErrorModel>(e) && fin == scan_started(s),
    }
}

/// Scans until something is found or the tries run out, pausing between
/// tries; a failed scan ends the rescan with its error. The answer is the
/// last scan's.
fn scan_devices_with_retry<T: MidiTransport>(transport: &mut Recorded<T>) -> (r: Result<Vec<DeviceRef>, TransportError>)
    ensures
        exists|new: Seq<TransportCall>|
            final(transport).calls() == old(transport).calls() + new && #[trigger] rescan_calls(new)
                && scan_answer(&r) == last_scan(new),
{
    let ghost start = transport.calls();
    let ghost mut new: Seq<TransportCall> = Seq::empty();
    let mut attempt: usize = 0;
    loop
        invariant
            attempt < SCAN_ATTEMPTS,
            new.len() == attempt,
            transport.calls() == start + new,
            start == old(transport).calls(),
            forall|i: int| 0 <= i < new.len() ==> #[trigger] new[i] == TransportCall::Scan(
                Ok(Seq::<DeviceModel>::empty()),
            ),
        decreases SCAN_ATTEMPTS - attempt,
    {
        let answer = transport.scan_devices();
        let ghost before = new;
        proof {
            new = new.push(TransportCall::Scan(scan_answer(&answer)));
            assert(transport.calls() =~= start + new);
        }
        let devices = match answer {
            Ok(d) => d,
            Err(e) => {
                let r: Result<Vec<DeviceRef>, TransportError> = Err(e);
                assert(rescan_calls(new));
                return r;
            },
        };
        if !rescan_due(attempt, &devices) {
            assert(devices.deep_view().len() == devices@.len());
            assert(new.last() == TransportCall::Scan(Ok(devices.deep_view())));
            assert(forall|i: int| 0 <= i < new.len() - 1 ==> new[i] == before[i]);
            let r: Result<Vec<DeviceRef>, TransportError> = Ok(devices);
            assert(rescan_calls(new));
            return r;
        }
        assert(devices.deep_view() =~= Seq::<DeviceModel>::empty());
        transport.pause_before_retry();
        attempt = attempt + 1;
    }
}

/// What a rescan leaves behind, for every answer of the transport: a failed
/// scan leaves the state in scanning mode; otherwise what some scan found is
/// folded in.
pub open spec fn scan_outcome(s: AppModel, fin: AppModel, ok: bool) -> bool {
    if ok {
        exists|found: Seq<DeviceModel>| fin == #[trigger] scan_applied(scan_started(s), found)
    } else {
        fin == scan_started(s)
    }
}

/// Rescans the MIDI ports.
pub fn refresh_devices<T: MidiTransport>(state: &mut AppState, transport: &mut Recorded<T>) -> (r: Result<
    (),
    TransportError,
>)
    ensures
        scan_outcome(old(state)@, final(state)@, r is Ok),
        exists|new: Seq<TransportCall>|
            final(transport).calls() == old(transport).calls() + new && #[trigger] rescan_result(
                old(state)@,
                final(state)@,
                new,
                unit_answer(&r),
            ),
        state_wf(old(state)@) ==> state_wf(final(state)@),
{
    state.app_mode = AppMode::Scanning;
    state.clear_error();
    let answer = scan_devices_with_retry(transport);
    let ghost new = choose|new: Seq<TransportCall>|
        transport.calls() == old(transport).calls() + new && #[trigger] rescan_calls(new)
            && scan_answer(&answer) == last_scan(new);
    let devices = match answer {
        Ok(d) => d,
        Err(e) => {
            let r: Result<(), TransportError> = Err(e);
            assert(rescan_result(old(state)@, state@, new, unit_answer(&r)));
            return r;
        },
    };
    let ghost found = devices.deep_view();
    apply_scan_result(state, devices);
    assert(state@ == scan_applied(scan_started(old(state)@), found));
    assert(rescan_result(old(state)@, state@, new, Ok(())));
    Ok(())
}

/// Whether the pad colour buffers are due to be read: the snapshot is
/// complete, no read was requested yet, and the family has colour buffers.
pub open spec fn pad_reads_due(s: AppModel) -> bool {
    &&& s.snapshot matches Some(sn)
    &&& !s.pad_color_reads_requested
    &&& sn.completeness == ReadCompleteness::Complete
    &&& pad_color_tags_of(sn.family) is Some
}

/// `s` with the sent frame `f` logged and `event` in the event log.
pub open spec fn frame_logged(s: AppModel, f: FrameModel, event: Seq<char>) -> AppModel {
    with_event(AppModel { packet_log: s.packet_log.push(f), ..s }, event)
}

/// The event logged when a colour buffer was requested.
pub open spec fn color_request_event(label: Seq<char>, tag: u8) -> Seq<char> {
    "Requested "@ + label + " pad colors (bulk tag "@ + dec_chars(tag as nat) + ")."@
}

/// `s` once both colour buffers were requested.
pub open spec fn pad_reads_requested(s: AppModel) -> AppModel {
    with_status(
        AppModel { pad_color_reads_requested: true, ..s },
        "Requested pad color buffers. Waiting for bulk transfer replies."@,
    )
}

/// What requesting the colour buffers leaves behind, for every answer of
/// the transport: nothing when no read is due; else the inactive buffer
/// (bulk tag 1) is requested, then the active one (bulk tag 2), each sent
/// frame logged, and a failed send stops there with an error.
pub open spec fn pad_request_outcome(s: AppModel, fin: AppModel, ok: bool) -> bool {
    if !pad_reads_due(s) {
        ok && fin == s
    } else {
        ||| !ok && fin == s
        ||| exists|f1: FrameModel|
            f1.raw == bulk_read_bytes(1) && #[trigger] inactive_requested_then(
                frame_logged(s, f1, color_request_event("inactive"@, 1)),
                fin,
                ok,
            )
    }
}

/// What follows the request of the inactive buffer: the request of the
/// active one.
pub open spec fn inactive_requested_then(s: AppModel, fin: AppModel, ok: bool) -> bool {
    ||| !ok && fin == s
    ||| exists|f2: FrameModel|
        f2.raw == bulk_read_bytes(2) && ok && fin == #[trigger] pad_reads_requested(
            frame_logged(s, f2, color_request_event("active"@, 2)),
        )
}

/// The event logged when a colour buffer was requested.
fn color_request_text(label: &str, tag: u8) -> (r: String)
    ensures
        r@ == color_request_event(label@, tag),
{
    let mut text = concat3("Requested ", label, " pad colors (bulk tag ");
    crate::text::push_decimal(&mut text, tag as u64);
    text.append(").");
    text
}

/// Requests both pad colour buffers once the snapshot is complete.
fn maybe_request_pad_colors<T: MidiTransport>(state: &mut AppState, transport: &mut Recorded<T>) -> (r: Result<
    (),
    TransportError,
>)
    ensures
        pad_request_outcome(old(state)@, final(state)@, r is Ok),
        exists|new: Seq<TransportCall>|
            final(transport).calls() == old(transport).calls() + new && #[trigger] pad_request_calls(
                new,
                unit_answer(&r),
            ) && final(state)@.packet_log == old(state)@.packet_log + answered_frames(new),
        state_wf(old(state)@) ==> state_wf(final(state)@),
{
    proof {
        assert(pad_request_calls(Seq::empty(), Ok(())));
        assert(transport.calls() =~= transport.calls() + Seq::<TransportCall>::empty());
        assert(state@.packet_log =~= state@.packet_log + answered_frames(Seq::<TransportCall>::empty()));
    }
    let ghost start = transport.calls();
    let (family, complete) = match &state.snapshot {
        Some(sn) => (
            sn.family.clone(),
            match sn.completeness {
                ReadCompleteness::Complete => true,
                ReadCompleteness::Partial => false,
            },
        ),
        None => {
            return Ok(());
        },
    };
    if state.pad_color_reads_requested || !complete {
        return Ok(());
    }
    let (inactive_tag, active_tag) = match pad_color_tags(&family) {
        Some(t) => t,
        None => {
            return Ok(());
        },
    };
    let ghost s0 = state@;
    let request = match bulk_read_request(&family, inactive_tag) {
        Ok(r) => r,
        Err(err) => {
            let msg = concat2("Pad color read unavailable: ", err.message().as_str());
            state.push_event(msg.as_str());
            return Ok(());
        },
    };
    let answer = transport.send(request.as_slice());
    let ghost c1 = TransportCall::Send(request@, crate::transport::send_answer(&answer));
    proof {
        lemma_one_call(Seq::empty(), c1);
    }
    let sent = match answer {
        Ok(f) => f,
        Err(e) => {
            let r: Result<(), TransportError> = Err(e);
            assert(transport.calls() == start + seq![c1]);
            assert(pad_request_calls(seq![c1], unit_answer(&r)));
            return r;
        },
    };
    assert(transport.calls() == start + seq![c1]);
    assert(pad_request_calls(seq![c1], Ok(())));
    let ghost f1 = sent@;
    state.packet_log.push(sent);
    let event = color_request_text("inactive", inactive_tag);
    state.push_event(event.as_str());
    let ghost s1 = state@;
    assert(s1 == frame_logged(s0, f1, color_request_event("inactive"@, 1))) by {
        assert(state@.packet_log =~= s0.packet_log.push(f1));
    }
    assert(state@.packet_log =~= old(state)@.packet_log + answered_frames(seq![c1]));
    let request = match bulk_read_request(&family, active_tag) {
        Ok(r) => r,
        Err(err) => {
            let msg = concat2("Pad color read unavailable: ", err.message().as_str());
            state.push_event(msg.as_str());
            return Ok(());
        },
    };
    let answer = transport.send(request.as_slice());
    let ghost c2 = TransportCall::Send(request@, crate::transport::send_answer(&answer));
    assert(transport.calls() =~= start + seq![c1, c2]);
    proof {
        lemma_answered_push(seq![c1], c2);
        assert(seq![c1].push(c2) =~= seq![c1, c2]);
    }
    let sent = match answer {
        Ok(f) => f,
        Err(e) => {
            assert(inactive_requested_then(s1, state@, false));
            let r: Result<(), TransportError> = Err(e);
            assert(pad_request_calls(seq![c1, c2], unit_answer(&r)));
            return r;
        },
    };
    assert(pad_request_calls(seq![c1, c2], Ok(())));
    let ghost f2 = sent@;
    state.packet_log.push(sent);
    let event = color_request_text("active", active_tag);
    state.push_event(event.as_str());
    assert(state@.packet_log =~= s1.packet_log.push(f2));
    assert(state@.packet_log =~= old(state)@.packet_log + answered_frames(seq![c1, c2]));
    state.pad_color_reads_requested = true;
    state.set_status("Requested pad color buffers. Waiting for bulk transfer replies.");
    assert(state@ == pad_reads_requested(frame_logged(s1, f2, color_request_event("active"@, 2))));
    assert(inactive_requested_then(s1, state@, true));
    Ok(())
}

/// The calls that request the colour buffers, answering `res`: sends only,
/// at most two, of the read requests for tags 1 and 2 in that order, each
/// answered with a frame; a failed send ends the requests with its error.
pub open spec fn pad_request_calls(new: Seq<TransportCall>, res: Result<(), TransportErrorModel>) -> bool {
    &&& new.len() <= 2
    &&& forall|i: int| 0 <= i < new.len() ==> (#[trigger] new[i] matches TransportCall::Send(b, a)
        && b == bulk_read_bytes((i + 1) as u8) && (i < new.len() - 1 ==> a is Ok))
    &&& match res {
        Ok(()) => new.len() > 0 ==> (new.last() matches TransportCall::Send(_, a) && a is Ok),
        Err(e) => new.len() > 0 && (new.last() matches TransportCall::Send(_, a) && a == Err::<
            FrameModel,
            TransportErrorModel,
        >(e)),
    }
}

/// The calls of a poll that answered `res`, from `s` to `fin`: one poll
/// first; a failed poll ends with its error and an empty one with nothing,
/// leaving the state as it was; otherwise the frames it answered are
/// folded in and the colour buffers requested if due, and the log holds
/// the frames received, then those the requests were answered with.
pub open spec fn poll_calls(
    s: AppModel,
    fin: AppModel,
    new: Seq<TransportCall>,
    res: Result<(), TransportErrorModel>,
) -> bool {
    &&& new.len() >= 1
    &&& match new[0] {
        TransportCall::Poll(Err(e)) => new.len() == 1 && res == Err::<(), TransportErrorModel>(e)
            && fin == s,
        TransportCall::Poll(Ok(fs)) => if fs.len() == 0 {
            new.len() == 1 && res is Ok && fin == s
        } else {
            &&& polled(s, fs, fin, res is Ok)
            &&& pad_request_calls(new.subrange(1, new.len() as int), res)
            &&& fin.packet_log == s.packet_log + fs + answered_frames(new.subrange(1, new.len() as int))
        },
        _ => false,
    }
}

/// What a poll leaves behind once `frames` arrived: they are folded in, the
/// colour buffers are requested if due, and, when that went through, the
/// status says how many buffers are loaded.
pub open spec fn polled(s: AppModel, frames: Seq<FrameModel>, fin: AppModel, ok: bool) -> bool {
    let ingested = frames_ingested(s, frames);
    if ok {
        exists|mid: AppModel|
            pad_request_outcome(ingested, mid, true) && fin == #[trigger] pad_colors_reported(mid)
    } else {
        pad_request_outcome(ingested, fin, false)
    }
}

/// What a poll leaves behind, for every answer of the transport: nothing
/// changes when polling fails or nothing arrived; otherwise what some frames
/// do.
pub open spec fn poll_outcome(s: AppModel, fin: AppModel, ok: bool) -> bool {
    ||| fin == s
    ||| exists|frames: Seq<FrameModel>| frames.len() > 0 && #[trigger] polled(s, frames, fin, ok)
}

/// Takes the frames the transport captured and folds them into the state.
pub fn poll_transport<T: MidiTransport>(state: &mut AppState, transport: &mut Recorded<T>) -> (r: Result<
    (),
    TransportError,
>)
    ensures
        poll_outcome(old(state)@, final(state)@, r is Ok),
        exists|new: Seq<TransportCall>|
            final(transport).calls() == old(transport).calls() + new && #[trigger] poll_calls(
                old(state)@,
                final(state)@,
                new,
                unit_answer(&r),
            ),
        state_wf(old(state)@) ==> state_wf(final(state)@),
{
    let answer = transport.poll_packets();
    let ghost c0 = TransportCall::Poll(crate::transport::poll_answer(&answer));
    assert(transport.calls() =~= old(transport).calls() + seq![c0]);
    let frames = match answer {
        Ok(f) => f,
        Err(e) => {
            let r: Result<(), TransportError> = Err(e);
            assert(poll_calls(old(state)@, state@, seq![c0], unit_answer(&r)));
            return r;
        },
    };
    if frames.len() == 0 {
        assert(frames.deep_view().len() == 0);
        assert(poll_calls(old(state)@, state@, seq![c0], Ok(())));
        return Ok(());
    }
    let ghost fs = frames.deep_view();
    assert(fs.len() > 0);
    ingest_frames(state, frames);
    assert(state@.packet_log == old(state)@.packet_log + fs);
    let ghost mid_calls = transport.calls();
    let requested = maybe_request_pad_colors(state, transport);
    let ghost rest = choose|rest: Seq<TransportCall>|
        transport.calls() == mid_calls + rest && #[trigger] pad_request_calls(rest, unit_answer(&requested))
            && state@.packet_log == old(state)@.packet_log + fs + answered_frames(rest);
    let ghost all = seq![c0] + rest;
    assert(transport.calls() =~= old(transport).calls() + all);
    assert(all.subrange(1, all.len() as int) =~= rest);
    assert(all[0] == c0);
    match requested {
        Ok(()) => {},
        Err(e) => {
            let r: Result<(), TransportError> = Err(e);
            assert(polled(old(state)@, fs, state@, r is Ok));
            assert(poll_calls(old(state)@, state@, all, unit_answer(&r)));
            return r;
        },
    }
    let ghost mid = state@;
    maybe_report_loaded_pad_colors(state);
    proof {
        if state_wf(old(state)@) {
            assert(state_wf(mid));
        }
    }
    let r: Result<(), TransportError> = Ok(());
    assert(polled(old(state)@, fs, state@, r is Ok));
    assert(poll_calls(old(state)@, state@, all, unit_answer(&r)));
    r
}

/// The device under the device cursor.
pub open spec fn selected_device_of(s: AppModel) -> Option<DeviceModel> {
    if s.selected_device_idx < s.devices.len() {
        Some(s.devices[s.selected_device_idx as int])
    } else {
        None
    }
}

/// `s` as a connection to `d` starts.
pub open spec fn connecting(s: AppModel, d: DeviceModel) -> AppModel {
    with_status(
        AppModel { last_error: None, app_mode: AppMode::ReadingConfig, ..s },
        "Connecting to "@ + d.name + "..."@,
    )
}

/// `s` once the transport opened `d`, answering `note`: `d` is the
/// connected device, the session starts over with an empty snapshot of its
/// family on the settings screen, and the note is logged.
pub open spec fn session_opened(s: AppModel, d: DeviceModel, note: Option<Seq<char>>) -> AppModel {
    let c = with_connection(s, Some(d.id));
    let fresh = AppModel {
        snapshot: Some(empty_snapshot_model(d.family)),
        pad_colors: None,
        staged_pad_colors: None,
        selected_pad_button_idx: 0,
        selected_pad_buttons: Set::empty(),
        pending_bulk_reads: Map::empty(),
        pad_color_reads_requested: false,
        staged_edits: Map::empty(),
        packet_log: Seq::empty(),
        selected_setting_idx: 0,
        selected_packet_idx: 0,
        app_mode: AppMode::ReadingConfig,
        screen: Screen::Settings,
        ..c
    };
    let opened = with_event(
        with_status(fresh, "Connected to "@ + d.name + ". Requesting device settings..."@),
        "Connected to "@ + d.name + "."@,
    );
    match note {
        Some(n) => with_event(opened, n),
        None => opened,
    }
}

/// `s` once the device inquiry to `d` went out, recorded as `f`.
pub open spec fn inquiry_sent(s: AppModel, d: DeviceModel, f: FrameModel) -> AppModel {
    frame_logged(s, f, "Sent device inquiry to "@ + d.name + "."@)
}

/// `s` once the configuration read request to `d` went out, recorded as `f`.
pub open spec fn config_requested(s: AppModel, d: DeviceModel, f: FrameModel) -> AppModel {
    with_status(
        frame_logged(s, f, "Sent tagged config read request to "@ + d.name + "."@),
        "Waiting for tagged config reply from "@ + d.name + "..."@,
    )
}

/// `s` when the family cannot be read: connected, with the reason shown and
/// logged after `prefix`.
pub open spec fn config_unavailable(s: AppModel, prefix: Seq<char>, reason: Seq<char>) -> AppModel {
    with_event(with_status(AppModel { app_mode: AppMode::Connected, ..s }, reason), prefix + reason)
}

/// The configuration read that follows the inquiry, for every answer of the
/// transport.
pub open spec fn config_read_then(s: AppModel, d: DeviceModel, fin: AppModel, ok: bool) -> bool {
    match config_read_outcome(d.family) {
        Ok(req) => (!ok && fin == s) || exists|f: FrameModel|
            f.raw == req && ok && fin == #[trigger] config_requested(s, d, f),
        Err(reason) => ok && fin == config_unavailable(s, "Config read unavailable: "@, reason),
    }
}

/// The device inquiry that follows the connect, then the configuration read.
pub open spec fn inquiry_then(s: AppModel, d: DeviceModel, fin: AppModel, ok: bool) -> bool {
    ||| !ok && fin == s
    ||| exists|f: FrameModel|
        f.raw == device_inquiry_bytes() && #[trigger] config_read_then(
            inquiry_sent(s, d, f),
            d,
            fin,
            ok,
        )
}

/// What connecting to the selected device leaves behind, for every answer
/// of the transport: with no device selected only the status says so;
/// otherwise the transport opens the device, then the inquiry and the
/// configuration read request go out, each step stopping with an error when
/// the transport fails.
pub open spec fn connect_outcome(s: AppModel, fin: AppModel, ok: bool) -> bool {
    match selected_device_of(s) {
        None => ok && fin == with_status(s, "No device selected."@),
        Some(d) => {
            let s1 = connecting(s, d);
            ||| !ok && fin == s1
            ||| exists|note: Option<Seq<char>>|
                #[trigger] inquiry_then(session_opened(s1, d, note), d, fin, ok)
        },
    }
}

/// Logs the frame a send answered.
fn log_frame(state: &mut AppState, frame: SysexFrame, event: &str)
    ensures
        final(state)@ == frame_logged(old(state)@, frame@, event@),
{
    let ghost f = frame@;
    state.packet_log.push(frame);
    assert(state@.packet_log =~= old(state)@.packet_log.push(f));
    state.push_event(event);
}

/// Starts a fresh session with `device` once it is open.
fn open_session(state: &mut AppState, device: &DeviceRef, note: Option<String>)
    ensures
        final(state)@ == session_opened(old(state)@, device@, note.deep_view()),
{
    state.set_connected_device(Some(device.id.clone()));
    state.snapshot = Some(empty_snapshot(device.family.clone()));
    state.pad_colors = None;
    state.staged_pad_colors = None;
    state.selected_pad_button_idx = 0;
    state.selected_pad_buttons.clear();
    state.pending_bulk_reads.clear();
    state.pad_color_reads_requested = false;
    state.staged_edits.clear();
    state.packet_log.clear();
    state.selected_setting_idx = 0;
    state.selected_packet_idx = 0;
    state.app_mode = AppMode::ReadingConfig;
    state.screen = Screen::Settings;
    proof {
        assert(state@.pending_bulk_reads =~= Map::<u8, PendingModel>::empty());
        assert(state@.packet_log =~= Seq::<FrameModel>::empty());
    }
    let status = concat3("Connected to ", device.name.as_str(), ". Requesting device settings...");
    state.set_status(status.as_str());
    let event = concat3("Connected to ", device.name.as_str(), ".");
    state.push_event(event.as_str());
    match note {
        Some(n) => state.push_event(n.as_str()),
        None => {},
    }
}

/// The requests sent once `d` is open: the device inquiry, then the tagged
/// config read where the family has one.
pub open spec fn connect_messages(d: DeviceModel) -> Seq<Seq<u8>> {
    seq![device_inquiry_bytes()] + match config_read_outcome(d.family) {
        Ok(b) => seq![b],
        Err(_) => Seq::empty(),
    }
}

/// The calls of a connect that answered `res`, from `s` to `fin`: none
/// without a selected device; else the selected device is opened, a
/// failure ending there with its error; then the session starts with the
/// note the transport answered, the requests are sent, and the new
/// session's log holds the frames they were answered with.
pub open spec fn connect_calls(
    s: AppModel,
    fin: AppModel,
    new: Seq<TransportCall>,
    res: Result<(), TransportErrorModel>,
) -> bool {
    match selected_device_of(s) {
        None => new.len() == 0 && res is Ok,
        Some(d) => new.len() >= 1 && match new[0] {
            TransportCall::Connect(dev, Err(e)) => dev == d && new.len() == 1 && res == Err::<
                (),
                TransportErrorModel,
            >(e),
            TransportCall::Connect(dev, Ok(note)) => dev == d && inquiry_then(
                session_opened(connecting(s, d), d, note),
                d,
                fin,
                res is Ok,
            ) && send_calls(connect_messages(d), new.subrange(1, new.len() as int), res)
                && fin.packet_log == answered_frames(new.subrange(1, new.len() as int)),
            _ => false,
        },
    }
}

/// Connects to the selected device and asks it for its settings.
#[verifier::rlimit(50)]
pub fn connect_selected<T: MidiTransport>(state: &mut AppState, transport: &mut Recorded<T>) -> (r: Result<
    (),
    TransportError,
>)
    ensures
        connect_outcome(old(state)@, final(state)@, r is Ok),
        exists|new: Seq<TransportCall>|
            final(transport).calls() == old(transport).calls() + new && #[trigger] connect_calls(
                old(state)@,
                final(state)@,
                new,
                unit_answer(&r),
            ),
        state_wf(old(state)@) ==> state_wf(final(state)@),
{
    let device = match state.selected_device() {
        Some(d) => d.clone(),
        None => {
            state.set_status("No device selected.");
            assert(transport.calls() =~= old(transport).calls() + Seq::<TransportCall>::empty());
            assert(connect_calls(old(state)@, state@, Seq::<TransportCall>::empty(), Ok(())));
            return Ok(());
        },
    };
    let ghost d = device@;
    state.clear_error();
    state.app_mode = AppMode::ReadingConfig;
    let status = concat3("Connecting to ", device.name.as_str(), "...");
    state.set_status(status.as_str());
    let ghost s1 = state@;
    assert(s1 == connecting(old(state)@, d));
    let ghost start = transport.calls();
    let connected = transport.connect(&device);
    let ghost c0 = TransportCall::Connect(d, crate::transport::connect_answer(&connected));
    assert(transport.calls() =~= start + seq![c0]);
    let note = match connected {
        Ok(n) => n,
        Err(e) => {
            let r: Result<(), TransportError> = Err(e);
            assert(connect_calls(old(state)@, state@, seq![c0], unit_answer(&r)));
            return r;
        },
    };
    assert(crate::transport::connect_answer(&Ok::<Option<String>, TransportError>(note)) == Ok::<
        Option<Seq<char>>,
        TransportErrorModel,
    >(note.deep_view()));
    let ghost n = note.deep_view();
    open_session(state, &device, note);
    let ghost s2 = state@;
    assert(s2 == session_opened(s1, d, n));
    let inquiry = device_inquiry_request();
    let answer = transport.send(inquiry.as_slice());
    let ghost c1 = TransportCall::Send(inquiry@, crate::transport::send_answer(&answer));
    assert(transport.calls() =~= start + seq![c0, c1]);
    assert(seq![c0, c1].subrange(1, 2) =~= seq![c1]);
    proof {
        lemma_one_call(Seq::empty(), c1);
    }
    let sent = match answer {
        Ok(f) => f,
        Err(e) => {
            let r: Result<(), TransportError> = Err(e);
            assert(inquiry_then(s2, d, state@, r is Ok));
            assert(send_calls(connect_messages(d), seq![c1], unit_answer(&r)));
            assert(connect_calls(old(state)@, state@, seq![c0, c1], unit_answer(&r)));
            return r;
        },
    };
    let ghost mut new_calls = seq![c0, c1];
    let ghost f1 = sent@;
    let event = concat3("Sent device inquiry to ", device.name.as_str(), ".");
    log_frame(state, sent, event.as_str());
    let ghost s3 = state@;
    assert(s3 == inquiry_sent(s2, d, f1));
    match config_read_request(&device.family) {
        Ok(request) => {
            let answer = transport.send(request.as_slice());
            let ghost c2 = TransportCall::Send(request@, crate::transport::send_answer(&answer));
            assert(transport.calls() =~= start + seq![c0, c1, c2]);
            assert(seq![c0, c1, c2].subrange(1, 3) =~= seq![c1, c2]);
            proof {
                lemma_answered_push(seq![c1], c2);
                assert(seq![c1].push(c2) =~= seq![c1, c2]);
            }
            assert(connect_messages(d) =~= seq![device_inquiry_bytes(), request@]);
            let sent = match answer {
                Ok(f) => f,
                Err(e) => {
                    let r: Result<(), TransportError> = Err(e);
                    assert(config_read_then(s3, d, state@, r is Ok));
                    assert(inquiry_then(s2, d, state@, r is Ok));
                    assert(send_calls(connect_messages(d), seq![c1, c2], unit_answer(&r)));
                    assert(connect_calls(old(state)@, state@, seq![c0, c1, c2], unit_answer(&r)));
                    return r;
                },
            };
            assert(send_calls(connect_messages(d), seq![c1, c2], Ok(())));
            proof {
                new_calls = seq![c0, c1, c2];
            }
            let ghost f2 = sent@;
            let event = concat3("Sent tagged config read request to ", device.name.as_str(), ".");
            log_frame(state, sent, event.as_str());
            let status = concat3("Waiting for tagged config reply from ", device.name.as_str(), "...");
            state.set_status(status.as_str());
            assert(state@ == config_requested(s3, d, f2));
            assert(state@.packet_log =~= seq![f1, f2]);
            assert(answered_frames(seq![c1, c2]) =~= seq![f1, f2]);
        },
        Err(err) => {
            assert(connect_messages(d) =~= seq![device_inquiry_bytes()]);
            assert(send_calls(connect_messages(d), seq![c1], Ok(())));
            state.app_mode = AppMode::Connected;
            let reason = err.message();
            state.set_status(reason.as_str());
            let event = concat2("Config read unavailable: ", reason.as_str());
            state.push_event(event.as_str());
            assert(state@.packet_log =~= seq![f1]);
        },
    }
    let r: Result<(), TransportError> = Ok(());
    assert(config_read_then(s3, d, state@, r is Ok));
    assert(inquiry_then(s2, d, state@, r is Ok));
    assert(transport.calls() == start + new_calls);
    assert(new_calls.subrange(1, new_calls.len() as int) =~= new_calls.drop_first());
    assert(connect_calls(old(state)@, state@, new_calls, unit_answer(&r)));
    r
}

/// The name a disconnect reports: the connected device's, else "device".
pub open spec fn disconnected_name(s: AppModel) -> Seq<char> {
    match connected_device_of(s) {
        Some(d) => d.name,
        None => "device"@,
    }
}

/// `s` once the transport closed the ports: no device is connected and
/// everything read from or staged for it is gone.
pub open spec fn disconnected(s: AppModel) -> AppModel {
    let c = with_connection(s, None);
    with_event(
        with_status(
            AppModel {
                snapshot: None,
                pad_colors: None,
                staged_pad_colors: None,
                selected_pad_buttons: Set::empty(),
                pending_bulk_reads: Map::empty(),
                pad_color_reads_requested: false,
                staged_edits: Map::empty(),
                packet_log: Seq::empty(),
                apply_modal_open: false,
                app_mode: AppMode::Idle,
                ..c
            },
            "Disconnected."@,
        ),
        "Disconnected from "@ + disconnected_name(s) + "."@,
    )
}

/// What a disconnect leaves behind: unchanged when the transport fails.
pub open spec fn disconnect_outcome(s: AppModel, fin: AppModel, ok: bool) -> bool {
    if ok {
        fin == disconnected(s)
    } else {
        fin == s
    }
}

/// Closes the device's ports and forgets the session.
pub fn disconnect<T: MidiTransport>(state: &mut AppState, transport: &mut Recorded<T>) -> (r: Result<
    (),
    TransportError,
>)
    ensures
        disconnect_outcome(old(state)@, final(state)@, r is Ok),
        final(transport).calls() == old(transport).calls().push(TransportCall::Disconnect(unit_answer(&r))),
        state_wf(old(state)@) ==> state_wf(final(state)@),
{
    match transport.disconnect() {
        Ok(()) => {},
        Err(e) => {
            return Err(e);
        },
    }
    let name = match state.connected_device() {
        Some(device) => device.name.clone(),
        None => owned("device"),
    };
    state.set_connected_device(None);
    state.snapshot = None;
    state.pad_colors = None;
    state.staged_pad_colors = None;
    state.selected_pad_buttons.clear();
    state.pending_bulk_reads.clear();
    state.pad_color_reads_requested = false;
    state.staged_edits.clear();
    state.packet_log.clear();
    state.apply_modal_open = false;
    state.app_mode = AppMode::Idle;
    proof {
        assert(state@.pending_bulk_reads =~= Map::<u8, PendingModel>::empty());
        assert(state@.packet_log =~= Seq::<FrameModel>::empty());
    }
    state.set_status("Disconnected.");
    let event = concat3("Disconnected from ", name.as_str(), ".");
    state.push_event(event.as_str());
    Ok(())
}

/// `s` as a configuration refresh from `d` starts: the colour buffers and
/// pending reads are dropped.
pub open spec fn refreshing(s: AppModel, d: DeviceModel) -> AppModel {
    with_status(
        AppModel {
            last_error: None,
            app_mode: AppMode::ReadingConfig,
            pad_colors: None,
            staged_pad_colors: None,
            selected_pad_buttons: Set::empty(),
            pending_bulk_reads: Map::empty(),
            pad_color_reads_requested: false,
            ..s
        },
        "Refreshing config from "@ + d.name + "..."@,
    )
}

/// `s` once the refresh request to `d` went out, recorded as `f`.
pub open spec fn refresh_requested(s: AppModel, d: DeviceModel, f: FrameModel) -> AppModel {
    with_event(
        with_status(
            AppModel { packet_log: s.packet_log.push(f), ..s },
            "Sent config read request. Waiting for tagged device reply."@,
        ),
        "Sent tagged config read request to "@ + d.name + "."@,
    )
}

/// What a configuration refresh leaves behind, for every answer of the
/// transport: with no connected device only the status says so; otherwise
/// the read request goes out, or the reason the family cannot be read is
/// shown.
pub open spec fn refresh_config_outcome(s: AppModel, fin: AppModel, ok: bool) -> bool {
    match connected_device_of(s) {
        None => ok && fin == with_status(s, "No connected device."@),
        Some(d) => {
            let s1 = refreshing(s, d);
            match config_read_outcome(d.family) {
                Ok(req) => (!ok && fin == s1) || exists|f: FrameModel|
                    f.raw == req && ok && fin == #[trigger] refresh_requested(s1, d, f),
                Err(reason) => ok && fin == config_unavailable(
                    s1,
                    "Config refresh unavailable: "@,
                    reason,
                ),
            }
        },
    }
}

/// Asks the connected device for its settings again.
pub fn refresh_config<T: MidiTransport>(state: &mut AppState, transport: &mut Recorded<T>) -> (r: Result<
    (),
    TransportError,
>)
    ensures
        refresh_config_outcome(old(state)@, final(state)@, r is Ok),
        exists|new: Seq<TransportCall>|
            final(transport).calls() == old(transport).calls() + new && #[trigger] send_calls(
                refresh_sends(old(state)@),
                new,
                unit_answer(&r),
            ) && final(state)@.packet_log == old(state)@.packet_log + answered_frames(new),
        state_wf(old(state)@) ==> state_wf(final(state)@),
{
    let device = match state.connected_device() {
        Some(d) => d.clone(),
        None => {
            state.set_status("No connected device.");
            proof {
                lemma_no_calls(transport.calls(), refresh_sends(old(state)@));
            }
            return Ok(());
        },
    };
    let ghost d = device@;
    state.clear_error();
    state.app_mode = AppMode::ReadingConfig;
    let status = concat3("Refreshing config from ", device.name.as_str(), "...");
    state.set_status(status.as_str());
    state.pad_colors = None;
    state.staged_pad_colors = None;
    state.selected_pad_buttons.clear();
    state.pending_bulk_reads.clear();
    state.pad_color_reads_requested = false;
    proof {
        assert(state@.pending_bulk_reads =~= Map::<u8, PendingModel>::empty());
    }
    let ghost s1 = state@;
    assert(s1 == refreshing(old(state)@, d));
    match config_read_request(&device.family) {
        Ok(request) => {
            let ghost start = transport.calls();
            let answer = transport.send(request.as_slice());
            let ghost c = TransportCall::Send(request@, crate::transport::send_answer(&answer));
            proof {
                lemma_one_call(start, c);
            }
            let sent = match answer {
                Ok(f) => f,
                Err(e) => {
                    let r: Result<(), TransportError> = Err(e);
                    assert(send_calls(refresh_sends(old(state)@), seq![c], unit_answer(&r)));
                    return r;
                },
            };
            assert(send_calls(refresh_sends(old(state)@), seq![c], Ok(())));
            let ghost f = sent@;
            state.packet_log.push(sent);
            assert(state@.packet_log =~= s1.packet_log.push(f));
            state.set_status("Sent config read request. Waiting for tagged device reply.");
            let event = concat3("Sent tagged config read request to ", device.name.as_str(), ".");
            state.push_event(event.as_str());
            assert(state@ == refresh_requested(s1, d, f));
        },
        Err(err) => {
            state.app_mode = AppMode::Connected;
            let reason = err.message();
            state.set_status(reason.as_str());
            let event = concat2("Config refresh unavailable: ", reason.as_str());
            state.push_event(event.as_str());
            proof {
                lemma_no_calls(transport.calls(), refresh_sends(old(state)@));
            }
        },
    }
    Ok(())
}

/// A snapshot's settings with the staged values written in.
pub open spec fn committed_fields(fs: Seq<DecodedFieldModel>, edits: Map<Seq<char>, FieldValueModel>) -> Seq<
    DecodedFieldModel,
> {
    fs.map_values(
        |f: DecodedFieldModel|
            if edits.contains_key(f.id) {
                DecodedFieldModel { value: edits[f.id], ..f }
            } else {
                f
            },
    )
}

/// `s` once the staged changes reached the device: the snapshot and the
/// colour buffers hold them, and nothing is staged any more.
pub open spec fn changes_committed(s: AppModel) -> AppModel {
    with_event(
        with_status(
            AppModel {
                snapshot: match s.snapshot {
                    Some(sn) => Some(
                        SnapshotModel { fields: committed_fields(sn.fields, s.staged_edits), ..sn },
                    ),
                    None => None,
                },
                pad_colors: match s.staged_pad_colors {
                    Some(c) => Some(c),
                    None => s.pad_colors,
                },
                staged_pad_colors: None,
                staged_edits: Map::empty(),
                apply_modal_open: false,
                app_mode: AppMode::Connected,
                ..s
            },
            "Applied staged edits to the connected device."@,
        ),
        "Applied staged edits to the connected device."@,
    )
}

/// `frames` record the first messages of `msgs`, in order.
pub open spec fn records_prefix(frames: Seq<FrameModel>, msgs: Seq<Seq<u8>>) -> bool {
    frames.len() <= msgs.len() && forall|i: int|
        0 <= i < frames.len() ==> #[trigger] frames[i].raw == msgs[i]
}

/// Sending `msgs` in order: each sent message is logged; a failed send
/// stops with an error, and when all went out the changes are committed.
pub open spec fn sends_then(s: AppModel, msgs: Seq<Seq<u8>>, fin: AppModel, ok: bool) -> bool {
    exists|frames: Seq<FrameModel>|
        #[trigger] records_prefix(frames, msgs) && {
            let logged = AppModel { packet_log: s.packet_log + frames, ..s };
            ||| frames.len() < msgs.len() && !ok && fin == logged
            ||| frames.len() == msgs.len() && ok && fin == changes_committed(logged)
        }
}

/// What confirming the apply leaves behind, for every answer of the
/// transport: nothing to apply, or the reason the changes cannot be
/// written, is shown; otherwise the frames that apply them are sent.
pub open spec fn apply_outcome(s: AppModel, fin: AppModel, ok: bool) -> bool {
    if s.snapshot is None && s.staged_pad_colors is None {
        ok && fin == with_status(s, "No config snapshot loaded."@)
    } else if s.staged_edits.len() == 0 && dirty_pads_of(s) == 0 {
        ok && fin == with_status(
            AppModel { apply_modal_open: false, ..s },
            "No staged changes to apply."@,
        )
    } else {
        let s1 = AppModel { app_mode: AppMode::ApplyingChanges, ..s };
        match apply_plan(s) {
            Some(Err(reason)) => ok && fin == with_event(
                with_status(AppModel { app_mode: AppMode::Connected, ..s1 }, reason),
                "Apply unavailable: "@ + reason,
            ),
            Some(Ok(msgs)) => sends_then(s1, msgs, fin, ok),
            None => sends_then(s1, Seq::empty(), fin, ok),
        }
    }
}

/// A snapshot's settings with the staged values written in.
fn committed(fields: &Vec<DecodedField>, edits: &StagedEdits) -> (r: Vec<DecodedField>)
    ensures
        r.deep_view() == committed_fields(fields.deep_view(), edits@),
{
    let ghost fs = fields.deep_view();
    let ghost target = committed_fields(fs, edits@);
    let mut out: Vec<DecodedField> = Vec::new();
    for i in 0..fields.len()
        invariant
            fs == fields.deep_view(),
            target == committed_fields(fs, edits@),
            out.deep_view() =~= target.subrange(0, i as int),
    {
        let mut f = fields[i].clone();
        assert(f@ == fs[i as int]);
        match edits.get(&f.id) {
            Some(v) => {
                f.value = v.clone();
            },
            None => {},
        }
        let ghost before = out.deep_view();
        out.push(f);
        assert(out.deep_view() =~= before.push(target[i as int]));
    }
    out
}

/// Writes the staged changes into the snapshot and the colour buffers.
fn commit_changes(state: &mut AppState)
    ensures
        final(state)@ == changes_committed(old(state)@),
        state_wf(old(state)@) ==> state_wf(final(state)@),
{
    let new_snapshot = match &state.snapshot {
        Some(sn) => Some(
            ConfigSnapshot {
                family: sn.family.clone(),
                completeness: sn.completeness,
                fields: committed(&sn.fields, &state.staged_edits),
            },
        ),
        None => None,
    };
    proof {
        if state_wf(old(state)@) {
            if let Some(sn) = old(state)@.snapshot {
                let fs = committed_fields(sn.fields, old(state)@.staged_edits);
                assert forall|i: int| 0 <= i < fs.len() implies crate::app::state::kind_in_range(
                    #[trigger] fs[i].kind,
                ) && crate::app::state::value_in_range(fs[i].value) by {
                    assert(crate::app::state::kind_in_range(sn.fields[i].kind));
                    if old(state)@.staged_edits.contains_key(sn.fields[i].id) {
                    }
                }
            }
        }
    }
    state.snapshot = new_snapshot;
    let staged = match &state.staged_pad_colors {
        Some(c) => Some(c.clone()),
        None => None,
    };
    match staged {
        Some(c) => {
            state.pad_colors = Some(c);
        },
        None => {},
    }
    state.staged_pad_colors = None;
    state.staged_edits.clear();
    state.apply_modal_open = false;
    state.app_mode = AppMode::Connected;
    state.set_status("Applied staged edits to the connected device.");
    state.push_event("Applied staged edits to the connected device.");
}

/// The messages a confirmed apply sends: none when there is nothing to
/// apply or the changes cannot be written, else the planned ones.
pub open spec fn apply_sends(s: AppModel) -> Seq<Seq<u8>> {
    if s.snapshot is None && s.staged_pad_colors is None {
        Seq::empty()
    } else if s.staged_edits.len() == 0 && dirty_pads_of(s) == 0 {
        Seq::empty()
    } else {
        planned_messages(s)
    }
}

/// The frames that the sends among `calls` were answered with, in order.
pub open spec fn answered_frames(calls: Seq<TransportCall>) -> Seq<FrameModel>
    decreases calls.len(),
{
    if calls.len() == 0 {
        Seq::empty()
    } else {
        answered_frames(calls.drop_last()) + match calls.last() {
            TransportCall::Send(_, Ok(f)) => seq![f],
            _ => Seq::empty(),
        }
    }
}

/// Sending `msgs` in order, answering `res`: sends only, of the messages in
/// order, each answered with a frame; it stops at the first send that
/// fails, whose error it answers, and otherwise sends them all.
pub open spec fn send_calls(msgs: Seq<Seq<u8>>, new: Seq<TransportCall>, res: Result<(), TransportErrorModel>) -> bool {
    &&& new.len() <= msgs.len()
    &&& forall|i: int| 0 <= i < new.len() ==> (#[trigger] new[i] matches TransportCall::Send(b, a)
        && b == msgs[i] && (i < new.len() - 1 ==> a is Ok))
    &&& match res {
        Ok(()) => new.len() == msgs.len() && (new.len() > 0 ==> new.last() matches TransportCall::Send(
            _,
            Ok(_),
        )),
        Err(e) => new.len() > 0 && (new.last() matches TransportCall::Send(_, a) && a == Err::<
            FrameModel,
            TransportErrorModel,
        >(e)),
    }
}

/// Sends the frames that apply the staged changes, then commits them.
pub fn confirm_apply<T: MidiTransport>(state: &mut AppState, transport: &mut Recorded<T>) -> (r: Result<
    (),
    TransportError,
>)
    ensures
        apply_outcome(old(state)@, final(state)@, r is Ok),
        exists|new: Seq<TransportCall>|
            final(transport).calls() == old(transport).calls() + new && #[trigger] send_calls(
                apply_sends(old(state)@),
                new,
                unit_answer(&r),
            ) && final(state)@.packet_log == old(state)@.packet_log + answered_frames(new),
        state_wf(old(state)@) ==> state_wf(final(state)@),
{
    if state.snapshot.is_none() && state.staged_pad_colors.is_none() {
        state.set_status("No config snapshot loaded.");
        proof {
            lemma_no_calls(transport.calls(), apply_sends(old(state)@));
        }
        return Ok(());
    }
    if state.staged_edits.is_empty() && state.dirty_pad_color_count() == 0 {
        state.apply_modal_open = false;
        state.set_status("No staged changes to apply.");
        proof {
            lemma_no_calls(transport.calls(), apply_sends(old(state)@));
        }
        return Ok(());
    }
    state.app_mode = AppMode::ApplyingChanges;
    let ghost s1 = state@;
    let messages: Vec<Vec<u8>> = match build_apply_messages(state) {
        None => Vec::new(),
        Some(Ok(m)) => m,
        Some(Err(err)) => {
            state.app_mode = AppMode::Connected;
            let reason = err.message();
            state.set_status(reason.as_str());
            let event = concat2("Apply unavailable: ", reason.as_str());
            state.push_event(event.as_str());
            proof {
                lemma_no_calls(transport.calls(), apply_sends(old(state)@));
            }
            return Ok(());
        },
    };
    let ghost msgs = messages.deep_view();
    assert(msgs == (match apply_plan(old(state)@) {
        Some(Ok(ms)) => ms,
        _ => Seq::<Seq<u8>>::empty(),
    }));
    assert(msgs == apply_sends(old(state)@));
    let ghost mut sent: Seq<FrameModel> = Seq::empty();
    let ghost start = transport.calls();
    let ghost mut new: Seq<TransportCall> = Seq::empty();
    assert(s1.packet_log + sent =~= s1.packet_log);
    assert(start + new =~= start);
    for i in 0..messages.len()
        invariant
            msgs == messages.deep_view(),
            sent.len() == i,
            records_prefix(sent, msgs),
            state@ == (AppModel { packet_log: s1.packet_log + sent, ..s1 }),
            s1 == (AppModel { app_mode: AppMode::ApplyingChanges, ..old(state)@ }),
            !(old(state)@.snapshot is None && old(state)@.staged_pad_colors is None),
            !(old(state)@.staged_edits.len() == 0 && dirty_pads_of(old(state)@) == 0),
            apply_plan(old(state)@) matches Some(Ok(ms)) ==> msgs == ms,
            apply_plan(old(state)@) is None ==> msgs == Seq::<Seq<u8>>::empty(),
            !(apply_plan(old(state)@) matches Some(Err(_))),
            msgs == apply_sends(old(state)@),
            start == old(transport).calls(),
            transport.calls() == start + new,
            new.len() == i,
            forall|k: int| 0 <= k < i ==> #[trigger] new[k] == TransportCall::Send(
                msgs[k],
                Ok(sent[k]),
            ),
            answered_frames(new) == sent,
    {
        assert(messages@[i as int]@ =~= msgs[i as int]);
        let answer = transport.send(messages[i].as_slice());
        let ghost call = TransportCall::Send(msgs[i as int], crate::transport::send_answer(&answer));
        let ghost before_calls = new;
        proof {
            lemma_answered_push(new, call);
            new = new.push(call);
            assert(transport.calls() =~= start + new);
        }
        let frame = match answer {
            Ok(f) => f,
            Err(e) => {
                let r: Result<(), TransportError> = Err(e);
                assert(sends_then(s1, msgs, state@, r is Ok));
                assert(answered_frames(new) == sent);
                assert(state@.packet_log == old(state)@.packet_log + sent);
                assert(forall|k: int| 0 <= k < new.len() - 1 ==> new[k] == before_calls[k]);
                assert(send_calls(msgs, new, unit_answer(&r)));
                return r;
            },
        };
        let ghost f = frame@;
        let ghost pl = state@.packet_log;
        state.packet_log.push(frame);
        assert(state@.packet_log =~= pl.push(f));
        proof {
            let before = sent;
            sent = sent.push(f);
            assert(records_prefix(sent, msgs)) by {
                assert forall|k: int| 0 <= k < sent.len() implies #[trigger] sent[k].raw == msgs[k] by {
                    if k < before.len() {
                        assert(sent[k] == before[k]);
                    }
                }
            }
            assert(state@.packet_log =~= s1.packet_log + sent);
            assert forall|k: int| 0 <= k < i + 1 implies #[trigger] new[k] == TransportCall::Send(
                msgs[k],
                Ok(sent[k]),
            ) by {
                if k < i {
                    assert(new[k] == before_calls[k]);
                    assert(sent[k] == before[k]);
                }
            }
        }
    }
    commit_changes(state);
    let r: Result<(), TransportError> = Ok(());
    assert(sends_then(s1, msgs, state@, r is Ok));
    assert(state@.packet_log == old(state)@.packet_log + sent);
    assert(send_calls(msgs, new, unit_answer(&r)));
    r
}

/// The request a config refresh sends: the tagged config read of the
/// connected device, where its family has one.
pub open spec fn refresh_sends(s: AppModel) -> Seq<Seq<u8>> {
    match connected_device_of(s) {
        Some(d) => match config_read_outcome(d.family) {
            Ok(req) => seq![req],
            Err(_) => Seq::empty(),
        },
        None => Seq::empty(),
    }
}

/// The message that tells the device of a bank switch, where there is one.
pub open spec fn bank_sends(s: AppModel) -> Seq<Seq<u8>> {
    match (connected_device_of(s), midi_channel_of(s.snapshot)) {
        (Some(d), Some(channel)) => match bank_switch_outcome(
            d.family,
            channel,
            s.selected_pad_bank as int,
        ) {
            Ok(bytes) => seq![bytes],
            Err(_) => Seq::empty(),
        },
        _ => Seq::empty(),
    }
}

/// One call made: it alone follows the earlier ones, and it is answered
/// with the frame it may carry.
proof fn lemma_one_call(calls: Seq<TransportCall>, call: TransportCall)
    ensures
        calls.push(call) == calls + seq![call],
        answered_frames(seq![call]) == match call {
            TransportCall::Send(_, Ok(f)) => seq![f],
            _ => Seq::<FrameModel>::empty(),
        },
{
    assert(calls.push(call) =~= calls + seq![call]);
    lemma_answered_push(Seq::empty(), call);
    assert(Seq::<TransportCall>::empty().push(call) =~= seq![call]);
    assert(Seq::<FrameModel>::empty() + match call {
        TransportCall::Send(_, Ok(f)) => seq![f],
        _ => Seq::<FrameModel>::empty(),
    } =~= match call {
        TransportCall::Send(_, Ok(f)) => seq![f],
        _ => Seq::<FrameModel>::empty(),
    });
}

/// The frames answered by calls that all are sends answered with a frame:
/// one per call.
proof fn lemma_answered_all(calls: Seq<TransportCall>)
    requires
        forall|i: int| 0 <= i < calls.len() ==> (#[trigger] calls[i] matches TransportCall::Send(
            _,
            a,
        ) && a is Ok),
    ensures
        answered_frames(calls).len() == calls.len(),
    decreases calls.len(),
{
    if calls.len() > 0 {
        let prefix = calls.drop_last();
        assert forall|i: int| 0 <= i < prefix.len() implies (#[trigger] prefix[i] matches TransportCall::Send(
            _,
            a,
        ) && a is Ok) by {
            assert(prefix[i] == calls[i]);
        }
        lemma_answered_all(prefix);
        assert(calls[calls.len() - 1] == calls.last());
    }
}

/// Sending messages where every send is answered with a frame goes through:
/// every message is sent once, in order, the answer is `Ok`, and one frame
/// is logged per message.
pub proof fn law_sends_all_go_through(
    msgs: Seq<Seq<u8>>,
    new: Seq<TransportCall>,
    res: Result<(), TransportErrorModel>,
)
    requires
        send_calls(msgs, new, res),
        forall|i: int| 0 <= i < new.len() ==> (#[trigger] new[i] matches TransportCall::Send(_, a)
            && a is Ok),
    ensures
        res is Ok,
        new.len() == msgs.len(),
        forall|i: int| 0 <= i < new.len() ==> (#[trigger] new[i] matches TransportCall::Send(b, _)
            && b == msgs[i]),
        answered_frames(new).len() == msgs.len(),
{
    if let Err(e) = res {
        assert(new[new.len() - 1] == new.last());
    }
    lemma_answered_all(new);
}

/// Requesting the colour buffers leaves the buffers as they were.
proof fn lemma_pad_request_keeps_colors(s: AppModel, fin: AppModel, ok: bool)
    requires
        pad_request_outcome(s, fin, ok),
    ensures
        fin.pad_colors == s.pad_colors,
{
    if pad_reads_due(s) && !(!ok && fin == s) {
        let f1 = choose|f1: FrameModel|
            f1.raw == bulk_read_bytes(1) && #[trigger] inactive_requested_then(
                frame_logged(s, f1, color_request_event("inactive"@, 1)),
                fin,
                ok,
            );
        let s1 = frame_logged(s, f1, color_request_event("inactive"@, 1));
        if !(!ok && fin == s1) {
            let f2 = choose|f2: FrameModel|
                f2.raw == bulk_read_bytes(2) && ok && fin == #[trigger] pad_reads_requested(
                    frame_logged(s1, f2, color_request_event("active"@, 2)),
                );
        }
    }
}

/// A poll whose answer holds the frames that write a buffer, in any order,
/// leaves that buffer loaded under its tag and the other buffer as it was,
/// whatever the requests that follow were answered.
pub proof fn law_poll_loads_the_buffer(
    s: AppModel,
    fin: AppModel,
    new: Seq<TransportCall>,
    res: Result<(), TransportErrorModel>,
    tag: u8,
    data: Seq<u8>,
    perm: Seq<int>,
    frames: Seq<FrameModel>,
)
    requires
        poll_calls(s, fin, new, res),
        new[0] == TransportCall::Poll(Ok(frames)),
        data.len() > 0,
        chunk_count(data.len()) < 256,
        !s.pending_bulk_reads.contains_key(tag),
        is_permutation(perm, chunk_count(data.len())),
        frames.len() == chunk_count(data.len()),
        forall|i: int| 0 <= i < frames.len() ==> #[trigger] frames[i].raw == bulk_chunk_message(tag, data, perm[i]),
    ensures
        fin.pad_colors == with_loaded_buffer(s.pad_colors, tag, data),
{
    law_ingested_frames_load_the_buffer(s, tag, data, perm, frames);
    assert(frames.len() >= 1) by (nonlinear_arith)
        requires
            data.len() > 0,
            frames.len() == (data.len() + 23) / 24,
    ;
    let ingested = frames_ingested(s, frames);
    if res is Ok {
        let mid = choose|mid: AppModel|
            pad_request_outcome(ingested, mid, true) && fin == #[trigger] pad_colors_reported(mid);
        lemma_pad_request_keeps_colors(ingested, mid, true);
    } else {
        lemma_pad_request_keeps_colors(ingested, fin, false);
    }
}

/// No calls made: nothing is answered, and an apply with nothing to send
/// answered `Ok`.
proof fn lemma_no_calls(calls: Seq<TransportCall>, msgs: Seq<Seq<u8>>)
    requires
        msgs.len() == 0,
    ensures
        calls == calls + Seq::<TransportCall>::empty(),
        answered_frames(Seq::<TransportCall>::empty()) == Seq::<FrameModel>::empty(),
        send_calls(msgs, Seq::<TransportCall>::empty(), Ok(())),
{
    assert(calls =~= calls + Seq::<TransportCall>::empty());
}

/// The frames answered after one more call: that call's frame, if it was
/// a send answered with one, follows the earlier ones.
proof fn lemma_answered_push(calls: Seq<TransportCall>, call: TransportCall)
    ensures
        answered_frames(calls.push(call)) == answered_frames(calls) + match call {
            TransportCall::Send(_, Ok(f)) => seq![f],
            _ => Seq::<FrameModel>::empty(),
        },
{
    assert(calls.push(call).drop_last() =~= calls);
}

/// The MIDI channel (0 to 15) of the device, from the snapshot's
/// "midi_channel" setting, which counts channels from 1; none when the
/// snapshot holds no such setting from 1 to 16.
pub open spec fn midi_channel_of(snapshot: Option<SnapshotModel>) -> Option<u8> {
    match snapshot {
        Some(sn) => match first_index(
            sn.fields.map_values(|f: DecodedFieldModel| f.id),
            "midi_channel"@,
        ) {
            Some(i) => match sn.fields[i].value {
                FieldValueModel::Integer(v) => if 1 <= v <= 16 {
                    Some((v - 1) as u8)
                } else {
                    None
                },
                _ => None,
            },
            None => None,
        },
        None => None,
    }
}

/// The event logged when the device was told to show bank `bank`.
pub open spec fn bank_switch_event(bank: nat, name: Seq<char>) -> Seq<char> {
    "Sent pad bank "@ + dec_chars(bank + 1) + " switch to "@ + name + "."@
}

/// What telling the device about the selected pad bank leaves behind, for
/// every answer of the transport: nothing without a connected device whose
/// MIDI channel is known; else the bank switch goes out and is logged, or
/// the reason it cannot is logged.
pub open spec fn bank_notice_outcome(s: AppModel, fin: AppModel, ok: bool) -> bool {
    match (connected_device_of(s), midi_channel_of(s.snapshot)) {
        (Some(d), Some(channel)) => match bank_switch_outcome(
            d.family,
            channel,
            s.selected_pad_bank as int,
        ) {
            Ok(bytes) => (!ok && fin == s) || exists|f: FrameModel|
                f.raw == bytes && ok && fin == #[trigger] frame_logged(
                    s,
                    f,
                    bank_switch_event(s.selected_pad_bank as nat, d.name),
                ),
            Err(reason) => ok && fin == with_event(s, "Pad bank switch unavailable: "@ + reason),
        },
        _ => ok && fin == s,
    }
}

/// The device's MIDI channel, from the snapshot.
fn midi_channel(snapshot: &Option<ConfigSnapshot>) -> (r: Option<u8>)
    ensures
        r == midi_channel_of(snapshot.deep_view()),
{
    let sn = match snapshot {
        Some(sn) => sn,
        None => {
            return None;
        },
    };
    assert(snapshot.deep_view() == Some(sn@));
    let ghost ids = sn@.fields.map_values(|f: DecodedFieldModel| f.id);
    let wanted = owned("midi_channel");
    let mut i: usize = 0;
    while i < sn.fields.len()
        invariant
            ids == sn@.fields.map_values(|f: DecodedFieldModel| f.id),
            i <= ids.len(),
            wanted@ == "midi_channel"@,
            snapshot.deep_view() == Some(sn@),
            forall|j: int| 0 <= j < i ==> ids[j] != wanted@,
        decreases ids.len() - i,
    {
        assert(ids[i as int] == sn.fields@[i as int]@.id);
        if sn.fields[i].id == wanted {
            proof {
                crate::text::lemma_first_index(ids, wanted@, i as int);
                assert(snapshot.deep_view() == Some(sn@));
                assert(sn@.fields[i as int] == sn.fields@[i as int]@);
            }
            return match &sn.fields[i].value {
                FieldValue::Integer(v) => if 1 <= *v && *v <= 16 {
                    Some((*v - 1) as u8)
                } else {
                    None
                },
                _ => None,
            };
        }
        i = i + 1;
    }
    proof {
        crate::text::lemma_first_index(ids, wanted@, i as int);
    }
    None
}

/// Tells the connected device which pad bank the editor shows. This is the
/// editor's own rule: the bank-switch message goes out on the device's MIDI
/// channel (from its "midi_channel" setting) when a device is connected,
/// the channel is known and the family has such a message; otherwise only
/// the reason is logged, or nothing happens.
pub fn notify_pad_bank_changed<T: MidiTransport>(state: &mut AppState, transport: &mut Recorded<T>) -> (r:
    Result<(), TransportError>)
    ensures
        bank_notice_outcome(old(state)@, final(state)@, r is Ok),
        exists|new: Seq<TransportCall>|
            final(transport).calls() == old(transport).calls() + new && #[trigger] send_calls(
                bank_sends(old(state)@),
                new,
                unit_answer(&r),
            ) && final(state)@.packet_log == old(state)@.packet_log + answered_frames(new),
        state_wf(old(state)@) ==> state_wf(final(state)@),
{
    let device = match state.connected_device() {
        Some(d) => d.clone(),
        None => {
            proof {
                lemma_no_calls(transport.calls(), bank_sends(old(state)@));
            }
            return Ok(());
        },
    };
    let channel = match midi_channel(&state.snapshot) {
        Some(c) => c,
        None => {
            proof {
                lemma_no_calls(transport.calls(), bank_sends(old(state)@));
            }
            return Ok(());
        },
    };
    match bank_switch_message(&device.family, channel, state.selected_pad_bank) {
        Ok(bytes) => {
            let ghost start = transport.calls();
            let answer = transport.send(bytes.as_slice());
            let ghost c = TransportCall::Send(bytes@, crate::transport::send_answer(&answer));
            proof {
                lemma_one_call(start, c);
            }
            let sent = match answer {
                Ok(f) => f,
                Err(e) => {
                    let r: Result<(), TransportError> = Err(e);
                    assert(send_calls(bank_sends(old(state)@), seq![c], unit_answer(&r)));
                    return r;
                },
            };
            assert(send_calls(bank_sends(old(state)@), seq![c], Ok(())));
            let bank = state.selected_pad_bank;
            let mut event = with_number("Sent pad bank ", bank as u64 + 1, " switch to ");
            event.append(device.name.as_str());
            event.append(".");
            log_frame(state, sent, event.as_str());
        },
        Err(err) => {
            let event = concat2("Pad bank switch unavailable: ", err.message().as_str());
            state.push_event(event.as_str());
            proof {
                lemma_no_calls(transport.calls(), bank_sends(old(state)@));
            }
        },
    }
    Ok(())
}

/// A rescan keeps the connected device's id, and leaves the device cursor
/// on a listed device whenever devices are listed, unless the cursor was
/// already past the end of a list that the rescan kept.
pub proof fn law_rescan_keeps_connection(s: AppModel, fin: AppModel, ok: bool)
    requires
        scan_outcome(s, fin, ok),
    ensures
        fin.connected_device_id == s.connected_device_id,
        ok && fin.devices.len() > 0 && (s.devices.len() == 0 || s.selected_device_idx
            < s.devices.len()) ==> fin.selected_device_idx < fin.devices.len(),
{
    if ok {
        let found = choose|found: Seq<DeviceModel>| fin == #[trigger] scan_applied(scan_started(s), found);
        let st = scan_started(s);
        let sel = selected_device_id(st);
        if !(found.len() == 0 && st.devices.len() > 0) {
            let c = with_connection(AppModel { devices: found, ..st }, st.connected_device_id);
            let r = selection_restored(c, sel);
            match sel {
                Some(id) => match device_position(c.devices, id) {
                    Some(i) => {
                        crate::text::lemma_first_index_found(
                            c.devices.map_values(|d: DeviceModel| d.id),
                            id,
                        );
                    },
                    None => {},
                },
                None => {},
            }
        } else {
            let c = with_connection(st, st.connected_device_id);
            match sel {
                Some(id) => match device_position(c.devices, id) {
                    Some(i) => {
                        crate::text::lemma_first_index_found(
                            c.devices.map_values(|d: DeviceModel| d.id),
                            id,
                        );
                    },
                    None => {},
                },
                None => {},
            }
        }
    }
}

/// A confirmed apply that went through sent every planned message, in
/// order, and logged the frames that record them; it leaves nothing
/// staged: the modal is closed, the mode is Connected, the staged colour
/// buffers became the device's, and the staged values were written into
/// the snapshot.
pub proof fn law_applied_changes_are_committed(s: AppModel, fin: AppModel)
    requires
        apply_outcome(s, fin, true),
        !(s.snapshot is None && s.staged_pad_colors is None),
        !(s.staged_edits.len() == 0 && dirty_pads_of(s) == 0),
        !(apply_plan(s) matches Some(Err(_))),
    ensures
        fin.staged_edits == Map::<Seq<char>, FieldValueModel>::empty(),
        fin.staged_pad_colors is None,
        !fin.apply_modal_open,
        fin.pad_colors == (match s.staged_pad_colors {
            Some(c) => Some(c),
            None => s.pad_colors,
        }),
        fin.snapshot == (match s.snapshot {
            Some(sn) => Some(SnapshotModel { fields: committed_fields(sn.fields, s.staged_edits), ..sn }),
            None => None,
        }),
        fin.app_mode == AppMode::Connected,
        dirty_count_of(fin) == 0,
        exists|frames: Seq<FrameModel>|
            #[trigger] records_prefix(frames, planned_messages(s)) && frames.len()
                == planned_messages(s).len() && fin.packet_log == s.packet_log + frames,
{
    let s1 = AppModel { app_mode: AppMode::ApplyingChanges, ..s };
    let msgs = match apply_plan(s) {
        Some(Ok(ms)) => ms,
        _ => Seq::<Seq<u8>>::empty(),
    };
    assert(sends_then(s1, msgs, fin, true));
    let frames = choose|frames: Seq<FrameModel>|
        #[trigger] records_prefix(frames, msgs) && {
            let logged = AppModel { packet_log: s1.packet_log + frames, ..s1 };
            ||| frames.len() < msgs.len() && !true && fin == logged
            ||| frames.len() == msgs.len() && true && fin == changes_committed(logged)
        };
    assert(msgs == planned_messages(s));
    assert(fin.packet_log == s.packet_log + frames);
    assert(fin.staged_edits.len() == 0);
}

/// The messages a confirmed apply plans to send: none when the plan is
/// missing or refused.
pub open spec fn planned_messages(s: AppModel) -> Seq<Seq<u8>> {
    match apply_plan(s) {
        Some(Ok(ms)) => ms,
        _ => Seq::empty(),
    }
}

} // verus!
