use midi_fighter_tui::app::actions::Action;
use midi_fighter_tui::app::commands::{rescan_due, SCAN_ATTEMPTS};
use midi_fighter_tui::app::state::{AppMode, Screen};
use midi_fighter_tui::app::App;
use midi_fighter_tui::protocol::frame::{Direction, SysexFrame};
use midi_fighter_tui::protocol::parse_frame;
use midi_fighter_tui::protocol::registry::{Confidence, DeviceFamily};
use midi_fighter_tui::transport::ports::{ConnectionState, DeviceRef, TransportError};
use midi_fighter_tui::transport::MidiTransport;

#[derive(Default)]
struct MockTransport {
    scan_calls: usize,
}

impl MidiTransport for MockTransport {
    fn scan_devices(&mut self) -> Result<Vec<DeviceRef>, TransportError> {
        self.scan_calls += 1;
        Ok(Vec::new())
    }

    fn connect(&mut self, _device: &DeviceRef) -> Result<Option<String>, TransportError> {
        Ok(None)
    }

    fn disconnect(&mut self) -> Result<(), TransportError> {
        Ok(())
    }

    fn poll_packets(&mut self) -> Result<Vec<SysexFrame>, TransportError> {
        Ok(Vec::new())
    }

    fn send(&mut self, _bytes: &[u8]) -> Result<SysexFrame, TransportError> {
        Err(TransportError::NotConnected)
    }
}

/// A transport with one device that records what is sent and replays
/// queued frames on each poll.
#[derive(Default)]
struct ScriptedTransport {
    devices: Vec<DeviceRef>,
    sent: Vec<Vec<u8>>,
    queued: Vec<Vec<u8>>,
    fail_sends: bool,
}

impl MidiTransport for ScriptedTransport {
    fn scan_devices(&mut self) -> Result<Vec<DeviceRef>, TransportError> {
        Ok(self.devices.iter().map(|d| d.clone()).collect())
    }

    fn connect(&mut self, _device: &DeviceRef) -> Result<Option<String>, TransportError> {
        Ok(Some("ports open".to_string()))
    }

    fn disconnect(&mut self) -> Result<(), TransportError> {
        Ok(())
    }

    fn poll_packets(&mut self) -> Result<Vec<SysexFrame>, TransportError> {
        let frames = self
            .queued
            .drain(..)
            .map(|raw| parse_frame(raw, Direction::Received, "in:1".to_string()))
            .collect();
        Ok(frames)
    }

    fn send(&mut self, bytes: &[u8]) -> Result<SysexFrame, TransportError> {
        if self.fail_sends {
            return Err(TransportError::OutputUnavailable);
        }
        self.sent.push(bytes.to_vec());
        Ok(parse_frame(bytes.to_vec(), Direction::Sent, "out:1".to_string()))
    }
}

fn mf64_device() -> DeviceRef {
    DeviceRef {
        id: "midi-fighter-64".to_string(),
        name: "Midi Fighter 64".to_string(),
        input_port: Some("Midi Fighter 64".to_string()),
        output_port: Some("Midi Fighter 64".to_string()),
        family: DeviceFamily::MidiFighter64,
        protocol_confidence: Confidence::Tentative,
        connection_state: ConnectionState::Disconnected,
    }
}

#[test]
fn apply_modal_blocks_command_dispatch() {
    let mut app = App::new(MockTransport::default());
    app.state.apply_modal_open = true;

    app.dispatch(Action::RefreshDevices);

    assert_eq!(app.transport.scan_calls, 0);
}

#[test]
fn apply_modal_still_allows_cancel() {
    let mut app = App::new(MockTransport::default());
    app.state.apply_modal_open = true;
    app.state.screen = Screen::Settings;

    app.dispatch(Action::CancelModal);

    assert!(!app.state.apply_modal_open);
}

#[test]
fn help_modal_blocks_commands_but_lets_cancel_through() {
    let mut app = App::new(MockTransport::default());
    app.state.help_modal_open = true;
    app.dispatch(Action::RefreshDevices);
    assert_eq!(app.transport.scan_calls, 0);
    app.dispatch(Action::NextScreen);
    assert_eq!(app.state.screen, Screen::Devices);
    app.dispatch(Action::CancelModal);
    assert!(!app.state.help_modal_open);
}

#[test]
fn refresh_retries_four_times_and_reports_nothing_found() {
    let mut app = App::new(MockTransport::default());
    app.refresh_devices();
    assert_eq!(app.transport.scan_calls, 4);
    assert_eq!(app.state.status_message, "No Midi Fighter ports detected.");
    assert_eq!(app.state.app_mode, AppMode::Idle);
    assert_eq!(
        app.state.event_log.last().unwrap(),
        "Scan completed: no Midi Fighter ports detected."
    );
}

#[test]
fn refresh_lists_found_devices() {
    let mut transport = ScriptedTransport::default();
    transport.devices.push(mf64_device());
    let mut app = App::new(transport);
    app.refresh_devices();
    assert_eq!(app.state.devices.len(), 1);
    assert_eq!(app.state.status_message, "Found 1 candidate device(s).");
}

#[test]
fn empty_rescan_keeps_previous_devices() {
    let mut transport = ScriptedTransport::default();
    transport.devices.push(mf64_device());
    let mut app = App::new(transport);
    app.refresh_devices();
    app.transport.backend_mut().devices.clear();
    app.refresh_devices();
    assert_eq!(app.state.devices.len(), 1);
    assert_eq!(
        app.state.status_message,
        "Rescan returned no Midi Fighter ports; keeping the last seen device list."
    );
}

#[test]
fn connect_sends_inquiry_then_config_read() {
    let mut transport = ScriptedTransport::default();
    transport.devices.push(mf64_device());
    let mut app = App::new(transport);
    app.refresh_devices();
    app.dispatch(Action::ConnectSelected);
    assert_eq!(
        app.transport.sent,
        vec![
            vec![0xF0, 0x7E, 0x7F, 0x06, 0x01, 0xF7],
            vec![0xF0, 0x00, 0x01, 0x79, 0x02, 0x00, 0xF7]
        ]
    );
    assert_eq!(app.state.screen, Screen::Settings);
    assert_eq!(app.state.connected_device_id.as_deref(), Some("midi-fighter-64"));
    assert_eq!(app.state.devices[0].connection_state, ConnectionState::Connected);
    assert_eq!(app.state.packet_log.len(), 2);
    assert_eq!(app.state.status_message, "Waiting for tagged config reply from Midi Fighter 64...");
    assert!(app.state.event_log.iter().any(|e| e == "ports open"));
}

#[test]
fn failed_send_marks_error() {
    let mut transport = ScriptedTransport::default();
    transport.devices.push(mf64_device());
    transport.fail_sends = true;
    let mut app = App::new(transport);
    app.refresh_devices();
    app.dispatch(Action::ConnectSelected);
    assert_eq!(app.state.app_mode, AppMode::Error);
    assert_eq!(
        app.state.last_error.as_deref(),
        Some("the connected MIDI device has no output port")
    );
    assert_eq!(
        app.state.event_log.last().unwrap(),
        "error: the connected MIDI device has no output port"
    );
}

#[test]
fn tick_folds_tagged_reply_and_requests_pad_colors() {
    let mut transport = ScriptedTransport::default();
    transport.devices.push(mf64_device());
    let mut app = App::new(transport);
    app.refresh_devices();
    app.dispatch(Action::ConnectSelected);
    // A reply with every known setting of the Midi Fighter 64.
    app.transport.backend_mut().queued.push(vec![
        0xF0, 0x00, 0x01, 0x79, 0x02, 0x01, 0x00, 0x03, 0x01, 0x40, 0x07, 0x01, 0x08, 0x01, 0x16,
        0x0A, 0x17, 0x02, 0x0A, 0x04, 0xF7,
    ]);
    app.dispatch(Action::Tick);
    let snapshot = app.state.snapshot.as_ref().unwrap();
    assert_eq!(snapshot.fields.len(), 7);
    assert_eq!(
        app.state.event_log.iter().filter(|e| e.as_str() == "Decoded 7 tagged setting(s) into the current snapshot.").count(),
        1
    );
    // The snapshot is complete, so both colour buffers were requested.
    assert!(app.state.pad_color_reads_requested);
    assert_eq!(app.transport.sent[2], vec![0xF0, 0x00, 0x01, 0x79, 0x04, 0x01, 0x01, 0xF7]);
    assert_eq!(app.transport.sent[3], vec![0xF0, 0x00, 0x01, 0x79, 0x04, 0x01, 0x02, 0xF7]);
    assert_eq!(
        app.state.status_message,
        "Requested pad color buffers. Waiting for bulk transfer replies."
    );
}

#[test]
fn disconnect_forgets_session() {
    let mut transport = ScriptedTransport::default();
    transport.devices.push(mf64_device());
    let mut app = App::new(transport);
    app.refresh_devices();
    app.dispatch(Action::ConnectSelected);
    app.dispatch(Action::Disconnect);
    assert!(app.state.snapshot.is_none());
    assert!(app.state.packet_log.is_empty());
    assert_eq!(app.state.app_mode, AppMode::Idle);
    assert_eq!(app.state.event_log.last().unwrap(), "Disconnected from Midi Fighter 64.");
    assert_eq!(app.state.devices[0].connection_state, ConnectionState::Disconnected);
}

#[test]
fn event_log_keeps_the_latest_two_hundred() {
    let mut app = App::new(MockTransport::default());
    for i in 0..250 {
        app.state.push_event(&format!("event {i}"));
    }
    assert_eq!(app.state.event_log.len(), 200);
    assert_eq!(app.state.event_log[0], "event 50");
    assert_eq!(app.state.event_log[199], "event 249");
}

/// Connects to the scripted Midi Fighter 64 and feeds it a complete reply
/// with MIDI channel 3.
fn connected_app() -> App<ScriptedTransport> {
    let mut transport = ScriptedTransport::default();
    transport.devices.push(mf64_device());
    let mut app = App::new(transport);
    app.refresh_devices();
    app.dispatch(Action::ConnectSelected);
    app.transport.backend_mut().queued.push(vec![
        0xF0, 0x00, 0x01, 0x79, 0x02, 0x01, 0x00, 0x03, 0x01, 0x40, 0x07, 0x01, 0x08, 0x01, 0x16,
        0x0A, 0x17, 0x02, 0x0A, 0x04, 0xF7,
    ]);
    app.dispatch(Action::Tick);
    app
}

/// The frames that carry `data` under `tag`, 24 bytes at a time.
fn bulk_frames(tag: u8, data: &[u8]) -> Vec<Vec<u8>> {
    let chunks: Vec<&[u8]> = data.chunks(24).collect();
    let total = chunks.len() as u8;
    chunks
        .iter()
        .enumerate()
        .map(|(i, chunk)| {
            let mut raw = vec![0xF0, 0x00, 0x01, 0x79, 0x04, 0x00, tag, i as u8 + 1, total, chunk.len() as u8];
            raw.extend_from_slice(chunk);
            raw.push(0xF7);
            raw
        })
        .collect()
}

#[test]
fn tick_reassembles_pad_color_buffers() {
    let mut app = connected_app();
    let inactive: Vec<u8> = (0..60u8).collect();
    let active: Vec<u8> = (100..160u8).collect();
    app.transport.backend_mut().queued.extend(bulk_frames(1, &inactive));
    app.dispatch(Action::Tick);
    assert_eq!(
        app.state.status_message,
        "Loaded one pad color buffer; waiting for the second buffer."
    );
    app.transport.backend_mut().queued.extend(bulk_frames(2, &active));
    app.dispatch(Action::Tick);
    let colors = app.state.pad_colors.as_ref().unwrap();
    assert_eq!(colors.inactive.as_deref(), Some(inactive.as_slice()));
    assert_eq!(colors.active.as_deref(), Some(active.as_slice()));
    assert_eq!(app.state.status_message, "Loaded both pad color buffers from the device.");
}

#[test]
fn applying_pad_colors_sends_bulk_writes_and_commits() {
    let mut app = connected_app();
    let buffer = vec![0u8; 384];
    app.transport.backend_mut().queued.extend(bulk_frames(1, &buffer));
    app.transport.backend_mut().queued.extend(bulk_frames(2, &buffer));
    app.dispatch(Action::Tick);
    app.dispatch(Action::NextScreen);
    assert_eq!(app.state.screen, Screen::PadColors);
    app.dispatch(Action::TogglePadSelection);
    app.dispatch(Action::AdjustSelected(1));
    assert_eq!(app.state.dirty_pad_color_count(), 1);
    app.dispatch(Action::ToggleApplyModal);
    assert!(app.state.apply_modal_open);
    let before = app.transport.sent.len();
    app.dispatch(Action::ConfirmApply);
    assert!(!app.state.apply_modal_open);
    assert!(app.state.staged_pad_colors.is_none());
    assert_eq!(app.state.dirty_count(), 0);
    // The active buffer (tag 2) takes 16 frames of 24 bytes.
    assert_eq!(app.transport.sent.len() - before, 16);
    assert_eq!(&app.transport.sent[before][..9], &[0xF0, 0x00, 0x01, 0x79, 0x04, 0x00, 2, 1, 16]);
    let active = app.state.pad_colors.as_ref().unwrap().active.as_ref().unwrap();
    assert_ne!(&active[0..3], &[0, 0, 0]);
    assert_eq!(app.state.status_message, "Applied staged edits to the connected device.");
}

#[test]
fn staged_settings_cannot_be_applied_yet() {
    let mut app = connected_app();
    assert_eq!(app.state.screen, Screen::Settings);
    app.dispatch(Action::AdjustSelected(1));
    app.dispatch(Action::ToggleApplyModal);
    app.dispatch(Action::ConfirmApply);
    assert_eq!(
        app.state.status_message,
        "Config write serializers have not been reverse engineered yet."
    );
    assert_eq!(app.state.app_mode, AppMode::Connected);
    assert_eq!(app.state.staged_edits.len(), 1);
}

#[test]
fn switching_pad_bank_tells_the_device() {
    let mut app = connected_app();
    app.dispatch(Action::NextScreen);
    let before = app.transport.sent.len();
    app.dispatch(Action::TogglePadBank);
    assert_eq!(app.state.selected_pad_bank, 1);
    // MIDI channel 3 is channel index 2.
    assert_eq!(app.transport.sent[before], vec![0xB2, 0x03, 0x01]);
    assert_eq!(
        app.state.event_log.last().unwrap(),
        "Sent pad bank 2 switch to Midi Fighter 64."
    );
}

#[test]
fn rescan_keeps_the_connection() {
    let mut app = connected_app();
    app.dispatch(Action::RefreshDevices);
    assert_eq!(app.state.connected_device_id.as_deref(), Some("midi-fighter-64"));
    assert_eq!(app.state.app_mode, AppMode::Connected);
    assert_eq!(app.state.devices[0].connection_state, ConnectionState::Connected);
}

#[test]
fn refreshing_config_drops_colour_buffers() {
    let mut app = connected_app();
    let buffer = vec![0u8; 48];
    app.transport.backend_mut().queued.extend(bulk_frames(1, &buffer));
    app.dispatch(Action::Tick);
    assert!(app.state.pad_colors.is_some());
    app.dispatch(Action::RefreshConfig);
    assert!(app.state.pad_colors.is_none());
    assert!(!app.state.pad_color_reads_requested);
    assert_eq!(
        app.state.status_message,
        "Sent config read request. Waiting for tagged device reply."
    );
}

#[test]
fn dispatch_answers_and_records_the_commands_own_error() {
    let mut transport = ScriptedTransport::default();
    transport.devices.push(mf64_device());
    transport.fail_sends = true;
    let mut app = App::new(transport);
    app.refresh_devices();
    let r = app.dispatch(Action::ConnectSelected);
    assert!(matches!(r, Err(TransportError::OutputUnavailable)));
    assert_eq!(app.state.status_message, "the connected MIDI device has no output port");
    let r = app.dispatch(Action::NextScreen);
    assert!(r.is_ok());
}

#[test]
fn blocked_actions_of_any_size_change_nothing() {
    let mut app = connected_app();
    app.dispatch(Action::ShowHelp);
    assert!(app.state.help_modal_open);
    let huge = Action::AdjustSelected(i32::MAX);
    assert!(app.accepts(huge));
    let sent = app.transport.sent.len();
    let status = app.state.status_message.clone();
    let r = app.dispatch(huge);
    assert!(r.is_ok());
    assert!(app.state.staged_edits.is_empty());
    assert_eq!(app.state.status_message, status);
    assert_eq!(app.transport.sent.len(), sent);
}

#[test]
fn steps_are_accepted_exactly_when_they_fit() {
    let mut app = connected_app();
    app.state.screen = Screen::Settings;
    assert!(!app.accepts(Action::AdjustSelected(i32::MAX)));
    assert!(app.accepts(Action::AdjustSelected(40000)));
    app.dispatch(Action::AdjustSelected(40000));
    let field = app.state.selected_known_field().unwrap();
    assert_eq!(app.state.current_value_for(field).display_text(), "13");
}

#[test]
fn tick_reassembles_frames_arriving_in_reverse() {
    let mut app = connected_app();
    let inactive: Vec<u8> = (0..100u8).collect();
    let mut frames = bulk_frames(1, &inactive);
    frames.reverse();
    app.transport.backend_mut().queued.extend(frames);
    app.dispatch(Action::Tick);
    let colors = app.state.pad_colors.as_ref().unwrap();
    assert_eq!(colors.inactive.as_deref(), Some(inactive.as_slice()));
    assert!(colors.active.is_none());
}

#[test]
fn rescans_are_due_only_while_nothing_is_found() {
    assert_eq!(SCAN_ATTEMPTS, 4);
    assert!(rescan_due(0, &Vec::new()));
    assert!(rescan_due(2, &Vec::new()));
    assert!(!rescan_due(3, &Vec::new()));
    assert!(!rescan_due(0, &vec![mf64_device()]));
}

/// A transport that finds nothing for a few scans, then one device.
struct LateTransport {
    empty_scans_left: usize,
    scan_calls: usize,
}

impl MidiTransport for LateTransport {
    fn scan_devices(&mut self) -> Result<Vec<DeviceRef>, TransportError> {
        self.scan_calls += 1;
        if self.empty_scans_left > 0 {
            self.empty_scans_left -= 1;
            Ok(Vec::new())
        } else {
            Ok(vec![mf64_device()])
        }
    }

    fn connect(&mut self, _device: &DeviceRef) -> Result<Option<String>, TransportError> {
        Ok(None)
    }

    fn disconnect(&mut self) -> Result<(), TransportError> {
        Ok(())
    }

    fn poll_packets(&mut self) -> Result<Vec<SysexFrame>, TransportError> {
        Ok(Vec::new())
    }

    fn send(&mut self, _bytes: &[u8]) -> Result<SysexFrame, TransportError> {
        Err(TransportError::NotConnected)
    }
}

#[test]
fn rescan_stops_at_the_first_devices_found() {
    let mut app = App::new(LateTransport { empty_scans_left: 2, scan_calls: 0 });
    let r = app.dispatch(Action::RefreshDevices);
    assert!(r.is_ok());
    assert_eq!(app.transport.scan_calls, 3);
    assert_eq!(app.state.devices.len(), 1);
    assert_eq!(app.state.devices[0].id, "midi-fighter-64");
}

#[test]
fn rescan_gives_up_after_four_empty_answers() {
    let mut app = App::new(LateTransport { empty_scans_left: 10, scan_calls: 0 });
    let r = app.dispatch(Action::RefreshDevices);
    assert!(r.is_ok());
    assert_eq!(app.transport.scan_calls, 4);
    assert!(app.state.devices.is_empty());
}
