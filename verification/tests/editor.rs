use midi_fighter_tui::app::actions::Action;
use midi_fighter_tui::app::keys::{map_key, Key, KeyInput};
use midi_fighter_tui::app::pad_grid::{
    bank_slot_for_button, button_for_bank_slot, button_for_image_index, image_index_for_button,
    move_button_within_bank,
};
use midi_fighter_tui::app::reducer::reduce;
use midi_fighter_tui::app::state::{
    AppMode, AppState, ColorTarget, PadColorSnapshot, PendingBulkRead, Screen,
};
use midi_fighter_tui::protocol::frame::Direction;
use midi_fighter_tui::protocol::registry::DeviceFamily;
use midi_fighter_tui::protocol::{apply_frame_to_snapshot, empty_snapshot, parse_frame};
use midi_fighter_tui::transport::{devices_from_port_names, is_midi_fighter_name, slugify};
use midi_fighter_tui::view::{
    apply_preview_lines, device_line_text, packet_line_text, pad_status_lines, rgb_for_button,
    selected_pad_summary, status_line_text,
};

fn key(k: Key) -> KeyInput {
    KeyInput {
        key: k,
        control: false,
        shift: false,
    }
}

/// A state connected to nothing but holding a Midi Fighter 64 snapshot with
/// the given reply applied.
fn state_with_reply(pairs: &[u8]) -> AppState {
    let mut state = AppState::new();
    let mut raw = vec![0xF0, 0x00, 0x01, 0x79, 0x02, 0x01];
    raw.extend_from_slice(pairs);
    raw.push(0xF7);
    let frame = parse_frame(raw, Direction::Received, "t".to_string());
    let snapshot = empty_snapshot(DeviceFamily::MidiFighter64);
    state.snapshot = Some(apply_frame_to_snapshot(&snapshot, &frame).unwrap().snapshot);
    state
}

#[test]
fn screens_cycle_through_tabs() {
    let mut screen = Screen::Devices;
    for _ in 0..5 {
        screen = screen.next();
    }
    assert_eq!(screen, Screen::Devices);
    assert_eq!(Screen::Devices.prev(), Screen::ImportExport);
    assert_eq!(Screen::PadColors.next().prev(), Screen::PadColors);
    assert_eq!(Screen::PacketLog.title(), "Activity Log");
    assert_eq!(ColorTarget::Active.toggle().toggle(), ColorTarget::Active);
    assert_eq!(ColorTarget::Inactive.label(), "inactive");
    assert_eq!(AppMode::ReadingConfig.label(), "reading");
}

#[test]
fn pad_grid_maps_buttons_and_images() {
    assert_eq!(button_for_image_index(0), 28);
    assert_eq!(button_for_image_index(4), 60);
    assert_eq!(button_for_image_index(56), 0);
    assert_eq!(button_for_image_index(127), 99);
    for button in 0..128 {
        assert_eq!(button_for_image_index(image_index_for_button(button)), button);
        let bank = button / 64;
        assert_eq!(button_for_bank_slot(bank, bank_slot_for_button(button)), button);
    }
    // Moving right from the last column stays in the bank.
    let start = button_for_image_index(7);
    assert_eq!(move_button_within_bank(start, 0, 1, 0), start);
    assert_eq!(move_button_within_bank(button_for_image_index(0), 0, 0, 1), button_for_image_index(8));
}

#[test]
fn chunks_reassemble_in_any_order() {
    let mut pending = PendingBulkRead::default();
    assert!(pending.push_chunk(2, 2, vec![4, 5]).is_none());
    assert_eq!(pending.push_chunk(1, 2, vec![1, 2, 3]), Some(vec![1, 2, 3, 4, 5]));
    let mut single = PendingBulkRead::default();
    assert_eq!(single.push_chunk(1, 1, vec![9]), Some(vec![9]));
    let mut empty = PendingBulkRead::default();
    assert!(empty.push_chunk(1, 0, vec![9]).is_none());
}

#[test]
fn keys_map_to_actions() {
    let state = AppState::new();
    assert_eq!(map_key(key(Key::Char('q')), &state), Some(Action::Quit));
    assert_eq!(map_key(key(Key::Enter), &state), Some(Action::ConnectSelected));
    assert_eq!(map_key(key(Key::Left), &state), Some(Action::AdjustSelected(-1)));
    assert_eq!(map_key(key(Key::Char('b')), &state), None);
    let ctrl_c = KeyInput {
        key: Key::Char('c'),
        control: true,
        shift: false,
    };
    let mut pads = AppState::new();
    pads.screen = Screen::PadColors;
    assert_eq!(map_key(key(Key::Char('b')), &pads), Some(Action::TogglePadBank));
    let shift_up = KeyInput {
        key: Key::Up,
        control: false,
        shift: true,
    };
    assert_eq!(map_key(shift_up, &pads), Some(Action::ExtendPadSelection(0, -1)));
    let mut help = AppState::new();
    help.help_modal_open = true;
    assert_eq!(map_key(key(Key::Char('r')), &help), None);
    assert_eq!(map_key(key(Key::Char('?')), &help), Some(Action::CancelModal));
    assert_eq!(map_key(ctrl_c, &help), Some(Action::Quit));
    let mut apply = AppState::new();
    apply.apply_modal_open = true;
    assert_eq!(map_key(key(Key::Char(' ')), &apply), Some(Action::ConfirmApply));
    assert_eq!(map_key(key(Key::Tab), &apply), None);
}

#[test]
fn port_names_become_sorted_devices() {
    let inputs = vec![
        "Midi Fighter Twister".to_string(),
        "Launchpad".to_string(),
        "Midi Fighter 64".to_string(),
    ];
    let outputs = vec!["Midi Fighter 64".to_string(), "Midi Fighter 64".to_string()];
    let devices = devices_from_port_names(&inputs, &outputs);
    assert_eq!(devices.len(), 2);
    assert_eq!(devices[0].name, "Midi Fighter 64");
    assert_eq!(devices[0].id, "midi-fighter-64");
    assert_eq!(devices[0].output_port.as_deref(), Some("Midi Fighter 64"));
    assert!(matches!(devices[0].family, DeviceFamily::MidiFighter64));
    assert_eq!(devices[1].name, "Midi Fighter Twister");
    assert!(devices[1].output_port.is_none());
    assert_eq!(devices[1].protocol_confidence.label(), "observed");
    assert_eq!(devices[0].protocol_confidence.label(), "tentative");
    assert!(is_midi_fighter_name("my MIDI fighter spectra"));
    assert!(!is_midi_fighter_name("midi-fighter"));
    assert_eq!(slugify("Midi Fighter 3D (2)"), "midi-fighter-3d--2-");
}

#[test]
fn adjusting_and_undoing_a_setting() {
    // MIDI channel 3 and velocity 64.
    let mut state = state_with_reply(&[0x00, 0x03, 0x01, 0x40]);
    state.screen = Screen::Settings;
    reduce(&mut state, Action::AdjustSelected(1));
    assert_eq!(state.staged_edits.len(), 1);
    assert_eq!(state.status_message, "Staged MIDI Channel = 4");
    assert_eq!(state.dirty_count(), 1);
    reduce(&mut state, Action::UndoField);
    assert!(state.staged_edits.is_empty());
    assert_eq!(state.status_message, "Removed staged edit for MIDI Channel.");
    // Stepping past the top clamps at 13.
    for _ in 0..20 {
        reduce(&mut state, Action::AdjustSelected(1));
    }
    let field = state.selected_known_field().unwrap();
    assert_eq!(state.current_value_for(field).display_text(), "13");
    reduce(&mut state, Action::DiscardAll);
    assert_eq!(state.dirty_count(), 0);
}

#[test]
fn palette_colors_are_staged_and_undone() {
    let mut state = AppState::new();
    state.screen = Screen::PadColors;
    state.pad_colors = Some(PadColorSnapshot {
        inactive: Some(vec![0; 384]),
        active: Some(vec![0; 384]),
    });
    reduce(&mut state, Action::TogglePadSelection);
    reduce(&mut state, Action::AdjustSelected(1));
    assert_eq!(state.dirty_pad_color_count(), 1);
    let lines = pad_status_lines(&state);
    assert_eq!(lines[0], "Inactive buffer: loaded");
    assert_eq!(lines[2], "Selected pad: 0 (bank 1, slot 56)");
    assert_eq!(lines[4], "Selection detail: 0");
    reduce(&mut state, Action::UndoField);
    assert_eq!(state.dirty_pad_color_count(), 0);
}

#[test]
fn views_render_text() {
    let mut state = AppState::new();
    assert_eq!(status_line_text(&state), "mode:booting  device:none  dirty:0");
    let devices = devices_from_port_names(&vec!["Midi Fighter 64".to_string()], &vec![]);
    state.devices = devices;
    assert_eq!(device_line_text(&state.devices[0], &state.connected_device_id), "Midi Fighter 64 [idle]");
    let frame = parse_frame(vec![0xF0, 0x7E, 0x7F, 0x06, 0x01, 0xF7], Direction::Sent, "out:5".to_string());
    assert_eq!(packet_line_text(&frame), "out:5 sent cmd:06");
    assert_eq!(rgb_for_button(Some(&[1, 200, 3, 4]), 0), (2, 255, 6));
    assert_eq!(rgb_for_button(Some(&[1, 2]), 0), (0, 0, 0));
    for pad in [5usize, 1, 9, 2, 7, 3, 8, 4, 6] {
        state.selected_pad_buttons.insert(pad);
    }
    assert_eq!(selected_pad_summary(&state), "1, 2, 3, 4, 5, 6, 7, 8, ... (9 total)");
    state.selected_pad_buttons.clear();
    assert_eq!(selected_pad_summary(&state), "none; cursor only");
    let preview = apply_preview_lines(&state);
    assert_eq!(preview[0], "Review staged changes");
    assert_eq!(preview[preview.len() - 2], "No config snapshot loaded.");
}

#[test]
fn large_steps_clamp_to_the_setting_bounds() {
    // MIDI channel 3; the setting runs from 1 to 13 in steps of 1.
    let mut state = state_with_reply(&[0x00, 0x03, 0x01, 0x40]);
    state.screen = Screen::Settings;
    reduce(&mut state, Action::AdjustSelected(40000));
    let field = state.selected_known_field().unwrap();
    assert_eq!(state.current_value_for(field).display_text(), "13");
    reduce(&mut state, Action::AdjustSelected(-40000));
    let field = state.selected_known_field().unwrap();
    assert_eq!(state.current_value_for(field).display_text(), "1");
}

#[test]
fn pad_step_then_undo_leaves_nothing_staged() {
    let mut state = AppState::new();
    state.screen = Screen::PadColors;
    state.pad_colors = Some(PadColorSnapshot {
        inactive: Some(vec![0; 384]),
        active: Some(vec![0; 384]),
    });
    reduce(&mut state, Action::TogglePadSelection);
    reduce(&mut state, Action::AdjustSelected(3));
    assert!(state.staged_pad_colors.is_some());
    reduce(&mut state, Action::UndoField);
    assert!(state.staged_pad_colors.is_none());
    let colors = state.pad_colors.as_ref().unwrap();
    assert_eq!(colors.inactive, Some(vec![0; 384]));
    assert_eq!(colors.active, Some(vec![0; 384]));
    assert_eq!(state.dirty_pad_color_count(), 0);
    assert_eq!(state.dirty_count(), 0);
}
