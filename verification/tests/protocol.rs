use midi_fighter_tui::protocol::frame::Direction;
use midi_fighter_tui::transport::ports::TransportError;
use midi_fighter_tui::protocol::registry::{
    ConfigSnapshot, DeviceFamily, FieldValue, ReadCompleteness, SettingKind, TagId,
};
use midi_fighter_tui::protocol::{
    apply_frame_to_snapshot, bank_switch_message, build_bulk_write_messages,
    build_write_messages, bulk_read_request, config_read_request, decode_bulk_transfer_chunk,
    device_inquiry_request, empty_snapshot, pad_color_tags, parse_frame,
};

fn frame(raw: Vec<u8>) -> midi_fighter_tui::protocol::frame::SysexFrame {
    parse_frame(raw, Direction::Received, "t".to_string())
}

#[test]
fn inquiry_and_config_read_requests() {
    assert_eq!(device_inquiry_request(), vec![0xF0, 0x7E, 0x7F, 0x06, 0x01, 0xF7]);
    assert_eq!(
        config_read_request(&DeviceFamily::MidiFighter64).unwrap(),
        vec![0xF0, 0x00, 0x01, 0x79, 0x02, 0x00, 0xF7]
    );
    let err = config_read_request(&DeviceFamily::Unknown("Foo".to_string())).unwrap_err();
    assert_eq!(
        err.message(),
        "Tagged config read is not enabled for unknown device family Foo."
    );
}

#[test]
fn bulk_read_requests_only_for_known_tags() {
    assert_eq!(
        bulk_read_request(&DeviceFamily::MidiFighter64, 2).unwrap(),
        vec![0xF0, 0x00, 0x01, 0x79, 0x04, 0x01, 0x02, 0xF7]
    );
    assert_eq!(
        bulk_read_request(&DeviceFamily::MidiFighter64, 3).unwrap_err().message(),
        "Bulk color read tag 3 is not supported for Midi Fighter 64."
    );
    assert_eq!(
        bulk_read_request(&DeviceFamily::MidiFighterTwister, 1).unwrap_err().message(),
        "Bulk color read is not enabled for device family Midi Fighter Twister."
    );
    assert_eq!(pad_color_tags(&DeviceFamily::MidiFighter64), Some((1, 2)));
    assert_eq!(pad_color_tags(&DeviceFamily::MidiFighter3D), None);
}

#[test]
fn bank_switch_messages() {
    assert_eq!(
        bank_switch_message(&DeviceFamily::MidiFighter64, 2, 1).unwrap(),
        vec![0xB2, 0x03, 0x01]
    );
    assert_eq!(
        bank_switch_message(&DeviceFamily::MidiFighter64, 0x13, 0).unwrap(),
        vec![0xB3, 0x03, 0x00]
    );
    assert_eq!(
        bank_switch_message(&DeviceFamily::MidiFighter64, 0, 2).unwrap_err().message(),
        "Pad color bank 2 is not supported for Midi Fighter 64."
    );
}

#[test]
fn settings_writes_are_not_available() {
    let snapshot = empty_snapshot(DeviceFamily::MidiFighter64);
    let edits = midi_fighter_tui::protocol::edits::StagedEdits::new();
    assert_eq!(
        build_write_messages(&snapshot, &edits).unwrap_err().message(),
        "Config write serializers have not been reverse engineered yet."
    );
}

#[test]
fn bulk_write_splits_into_chunks_of_twenty_four() {
    let data: Vec<u8> = (0..50u8).collect();
    let messages =
        build_bulk_write_messages(&DeviceFamily::MidiFighter64, &[(1u8, data.as_slice())]).unwrap();
    assert_eq!(messages.len(), 3);
    assert_eq!(&messages[0][..10], &[0xF0, 0x00, 0x01, 0x79, 0x04, 0x00, 1, 1, 3, 24]);
    assert_eq!(messages[0].len(), 35);
    assert_eq!(&messages[2][..10], &[0xF0, 0x00, 0x01, 0x79, 0x04, 0x00, 1, 3, 3, 2]);
    assert_eq!(&messages[2][10..], &[48, 49, 0xF7]);
    let err = build_bulk_write_messages(&DeviceFamily::MidiFighter64, &[(5u8, data.as_slice())])
        .unwrap_err();
    assert_eq!(err.message(), "Bulk write tag 5 is not supported for Midi Fighter 64.");
}

#[test]
fn bulk_write_frames_decode_back() {
    let data: Vec<u8> = (0..30u8).collect();
    let messages =
        build_bulk_write_messages(&DeviceFamily::MidiFighter64, &[(2u8, data.as_slice())]).unwrap();
    let mut joined = Vec::new();
    for (i, message) in messages.into_iter().enumerate() {
        let chunk = decode_bulk_transfer_chunk(&frame(message)).unwrap();
        assert_eq!(chunk.tag, 2);
        assert_eq!(chunk.chunk_index as usize, i + 1);
        assert_eq!(chunk.total_chunks, 2);
        joined.extend(chunk.data);
    }
    assert_eq!(joined, data);
}

#[test]
fn frames_get_envelopes() {
    let f = frame(vec![0xF0, 0x7E, 0x7F, 0x06, 0x02, 0xF7]);
    let envelope = f.envelope.as_ref().unwrap();
    assert_eq!(envelope.command, 0x06);
    assert_eq!(envelope.note.as_deref(), Some("Universal Device Inquiry reply."));
    assert_eq!(f.hex_string(), "F0 7E 7F 06 02 F7");
    let raw = frame(vec![0x90, 0x40, 0x7F]);
    assert!(raw.envelope.is_none());
    let reply = frame(vec![0xF0, 0x00, 0x01, 0x79, 0x02, 0x01, 0x00, 0x03, 0xF7]);
    assert_eq!(
        reply.envelope.unwrap().note.as_deref(),
        Some("Tagged config response with 1 tag/value pair(s).")
    );
}

#[test]
fn tagged_reply_orders_known_then_unknown_settings() {
    let snapshot = empty_snapshot(DeviceFamily::MidiFighter64);
    // Unknown tags 0x63 and 0x05 and known tags 7 and 0.
    let reply = frame(vec![
        0xF0, 0x00, 0x01, 0x79, 0x02, 0x01, 0x63, 0x01, 0x07, 0x02, 0x05, 0x09, 0x00, 0x04, 0xF7,
    ]);
    let update = apply_frame_to_snapshot(&snapshot, &reply).unwrap();
    let ids: Vec<&str> = update.snapshot.fields.iter().map(|f| f.id.as_str()).collect();
    assert_eq!(ids, vec!["midi_channel", "midi_type", "raw.tag.05", "raw.tag.63"]);
    assert!(update.snapshot.fields[1].value.equals(&FieldValue::Text("CCs".to_string())));
    assert_eq!(update.snapshot.fields[3].label, "Unknown Tag 0x63");
    assert!(!update.snapshot.fields[3].editable);
    assert_eq!(update.snapshot.completeness, ReadCompleteness::Partial);
    let tags: Vec<u16> = update.updated_tags.iter().map(|t| t.0).collect();
    assert_eq!(tags, vec![0x63, 0x07, 0x05, 0x00]);
    assert!(apply_frame_to_snapshot(&snapshot, &frame(vec![0xF0, 0x7E, 0x7F, 0x06, 0x01, 0xF7]))
        .is_none());
}

#[test]
fn enum_values_out_of_range_are_named_unknown() {
    let snapshot = empty_snapshot(DeviceFamily::MidiFighter64);
    let reply = frame(vec![0xF0, 0x00, 0x01, 0x79, 0x02, 0x01, 0x0A, 0x09, 0xF7]);
    let update = apply_frame_to_snapshot(&snapshot, &reply).unwrap();
    assert!(update.snapshot.fields[0].value.equals(&FieldValue::Text("Unknown (9)".to_string())));
}

#[test]
fn later_replies_replace_earlier_values() {
    let snapshot: ConfigSnapshot = empty_snapshot(DeviceFamily::MidiFighter64);
    let first = apply_frame_to_snapshot(
        &snapshot,
        &frame(vec![0xF0, 0x00, 0x01, 0x79, 0x02, 0x01, 0x01, 0x10, 0xF7]),
    )
    .unwrap();
    let second = apply_frame_to_snapshot(
        &first.snapshot,
        &frame(vec![0xF0, 0x00, 0x01, 0x79, 0x02, 0x01, 0x01, 0x20, 0xF7]),
    )
    .unwrap();
    assert_eq!(second.snapshot.fields.len(), 1);
    assert!(second.snapshot.fields[0].value.equals(&FieldValue::Integer(0x20)));
}

#[test]
fn settings_step_and_cycle() {
    let kind = SettingKind::Integer { min: 0, max: 10, step: 2 };
    assert!(matches!(kind.adjust(&FieldValue::Integer(9), 1), Some(FieldValue::Integer(10))));
    assert!(matches!(kind.adjust(&FieldValue::Integer(1), -1), Some(FieldValue::Integer(0))));
    let options = SettingKind::Enum {
        options: vec!["A".to_string(), "B".to_string(), "C".to_string()],
    };
    assert!(options
        .adjust(&FieldValue::Text("A".to_string()), -1)
        .unwrap()
        .equals(&FieldValue::Text("C".to_string())));
    assert!(options
        .activate(&FieldValue::Text("zzz".to_string()))
        .unwrap()
        .equals(&FieldValue::Text("B".to_string())));
    assert!(matches!(
        SettingKind::Boolean.activate(&FieldValue::Bool(true)),
        Some(FieldValue::Bool(false))
    ));
    assert!(SettingKind::Bytes.activate(&FieldValue::Bytes(vec![1])).is_none());
}

#[test]
fn families_from_port_names() {
    assert!(matches!(
        DeviceFamily::from_name("Midi Fighter Twister"),
        DeviceFamily::MidiFighterTwister
    ));
    assert!(matches!(DeviceFamily::from_name("MIDI FIGHTER 3D"), DeviceFamily::MidiFighter3D));
    assert!(matches!(DeviceFamily::from_name("Midi Fighter 64"), DeviceFamily::MidiFighter64));
    match DeviceFamily::from_name("Launchpad") {
        DeviceFamily::Unknown(name) => assert_eq!(name, "Launchpad"),
        _ => panic!("expected an unknown family"),
    }
    assert_eq!(TagId(0x0A).text(), "0x0A");
    assert_eq!(TagId(0x1234).text(), "0x1234");
    assert_eq!(FieldValue::Bytes(vec![0xAB, 0x01]).display_text(), "AB 01");
    assert_eq!(FieldValue::Integer(-5).display_text(), "-5");
}

#[test]
fn folding_a_reply_twice_changes_nothing_more() {
    let snapshot = empty_snapshot(DeviceFamily::MidiFighter64);
    let reply = frame(vec![
        0xF0, 0x00, 0x01, 0x79, 0x02, 0x01, 0x63, 0x01, 0x07, 0x02, 0x05, 0x09, 0x00, 0x04, 0xF7,
    ]);
    let once = apply_frame_to_snapshot(&snapshot, &reply).unwrap().snapshot;
    let twice = apply_frame_to_snapshot(&once, &reply).unwrap().snapshot;
    assert_eq!(once.fields.len(), twice.fields.len());
    for (a, b) in once.fields.iter().zip(twice.fields.iter()) {
        assert_eq!(a.id, b.id);
        assert!(a.value.equals(&b.value));
    }
    assert_eq!(once.completeness, twice.completeness);
}

#[test]
fn transport_errors_describe_themselves() {
    assert_eq!(
        TransportError::Backend("boom".to_string()).message(),
        "midi backend error: boom"
    );
    assert_eq!(
        TransportError::MissingPort("MF64".to_string()).message(),
        "midi port unavailable: MF64"
    );
    assert_eq!(
        TransportError::NotConnected.message(),
        "no MIDI device is currently connected"
    );
    assert_eq!(
        TransportError::OutputUnavailable.message(),
        "the connected MIDI device has no output port"
    );
}
