//! The text the editor's screens show, line by line: what the terminal front
//! end lays out and colours.
use vstd::prelude::*;

use crate::app::apply::{apply_plan, build_apply_messages};
use crate::app::pad_grid::{button_at_image, button_for_image_index, image_index_for_button, image_of_button};
use crate::app::reducer::doubled;
use crate::app::state::{
    connected_device_of, current_pad_colors_of, current_value_of, dirty_count_of, dirty_pads_of,
    mode_label, selected_known_of, target_label, AppMode, AppModel, AppState,
    ColorTarget, PadColorsModel, Screen,
};
use crate::protocol::frame::{Direction, FrameModel, SysexFrame};
use crate::protocol::registry::{
    family_display, tag_text, value_text, Confidence, DecodedField, DecodedFieldModel, FieldValue,
    FieldValueModel,
};
use crate::text::{dec_chars, hex2, hex_spaced, owned, push_decimal, push_hex2};
use crate::transport::ports::{DeviceModel, DeviceRef};

verus! {

/// The first line of the status bar: mode, connected device and the number
/// of staged changes.
pub open spec fn status_line(s: AppModel) -> Seq<char> {
    "mode:"@ + mode_label(s.app_mode) + "  device:"@ + (match connected_device_of(s) {
        Some(d) => d.name,
        None => "none"@,
    }) + "  dirty:"@ + dec_chars(dirty_count_of(s))
}

/// The first line of the status bar.
pub fn status_line_text(state: &AppState) -> (r: String)
    ensures
        r@ == status_line(state@),
{
    let mut line = owned("mode:");
    line.append(state.app_mode.label());
    line.append("  device:");
    match state.connected_device() {
        Some(d) => line.append(d.name.as_str()),
        None => line.append("none"),
    }
    line.append("  dirty:");
    push_decimal(&mut line, state.dirty_count() as u64);
    line
}

/// The key bindings the status bar recalls on a screen.
pub open spec fn key_hint(screen: Screen) -> Seq<char> {
    if screen == Screen::PadColors {
        "tab sections  q quit  r scan  g read  p packet  ? help  arrows move  space mark  enter layer  [/] palette  x clear  u undo  a apply"@
    } else {
        "tab sections  q quit  r scan  g read  p packet  ? help  up/down move  left/right edit  enter select  a apply"@
    }
}

/// The key bindings the status bar recalls on a screen.
pub fn key_hint_text(screen: Screen) -> (r: &'static str)
    ensures
        r@ == key_hint(screen),
{
    if screen == Screen::PadColors {
        "tab sections  q quit  r scan  g read  p packet  ? help  arrows move  space mark  enter layer  [/] palette  x clear  u undo  a apply"
    } else {
        "tab sections  q quit  r scan  g read  p packet  ? help  up/down move  left/right edit  enter select  a apply"
    }
}

/// A device's line in the device list.
pub open spec fn device_line(d: DeviceModel, connected_id: Option<Seq<char>>) -> Seq<char> {
    d.name + " ["@ + (if connected_id == Some(d.id) {
        "connected"@
    } else {
        "idle"@
    }) + "]"@
}

/// A device's line in the device list.
pub fn device_line_text(device: &DeviceRef, connected_id: &Option<String>) -> (r: String)
    ensures
        r@ == device_line(device@, connected_id.deep_view()),
{
    let connected = match connected_id {
        Some(id) => *id == device.id,
        None => false,
    };
    let mut line = device.name.clone();
    line.append(" [");
    line.append(
        if connected {
            "connected"
        } else {
            "idle"
        },
    );
    line.append("]");
    line
}

/// The word for a confidence.
pub open spec fn confidence_word(c: Confidence) -> Seq<char> {
    match c {
        Confidence::ObservedOnly => "observed"@,
        Confidence::Tentative => "tentative"@,
        Confidence::Verified => "verified"@,
    }
}

/// A port name, or "missing".
pub open spec fn port_or_missing(p: Option<Seq<char>>) -> Seq<char> {
    match p {
        Some(n) => n,
        None => "missing"@,
    }
}

/// The detail panel of the device screen.
pub open spec fn device_detail(s: AppModel) -> Seq<Seq<char>> {
    if s.selected_device_idx < s.devices.len() {
        let d = s.devices[s.selected_device_idx as int];
        seq![
            "Family: "@ + family_display(d.family),
            "Protocol confidence: "@ + confidence_word(d.protocol_confidence),
            "Input port: "@ + port_or_missing(d.input_port),
            "Output port: "@ + port_or_missing(d.output_port),
            ""@,
            "Enter: connect"@,
            "r: rescan ports"@,
            "d: disconnect current device"@,
        ]
    } else {
        seq!["No device selected."@, "Press r to scan available MIDI ports."@]
    }
}

/// `prefix` followed by `text`.
fn prefixed(prefix: &str, text: &str) -> (r: String)
    ensures
        r@ == prefix@ + text@,
{
    crate::text::concat2(prefix, text)
}

/// A port name, or "missing".
fn port_text(p: &Option<String>) -> (r: &str)
    ensures
        r@ == port_or_missing(p.deep_view()),
{
    match p {
        Some(n) => n.as_str(),
        None => "missing",
    }
}

/// The detail panel of the device screen.
pub fn device_detail_lines(state: &AppState) -> (r: Vec<String>)
    ensures
        r.deep_view() == device_detail(state@),
{
    let mut lines: Vec<String> = Vec::new();
    match state.selected_device() {
        Some(d) => {
            let family = d.family.display_name();
            lines.push(prefixed("Family: ", family.as_str()));
            lines.push(prefixed("Protocol confidence: ", d.protocol_confidence.label()));
            lines.push(prefixed("Input port: ", port_text(&d.input_port)));
            lines.push(prefixed("Output port: ", port_text(&d.output_port)));
            lines.push(owned(""));
            lines.push(owned("Enter: connect"));
            lines.push(owned("r: rescan ports"));
            lines.push(owned("d: disconnect current device"));
        },
        None => {
            lines.push(owned("No device selected."));
            lines.push(owned("Press r to scan available MIDI ports."));
        },
    }
    assert(lines.deep_view() =~= device_detail(state@));
    lines
}

/// A setting's line in the settings list: label, shown value, and a star
/// when an edit is staged.
pub open spec fn setting_line(s: AppModel, f: DecodedFieldModel) -> Seq<char> {
    f.label + ": "@ + value_text(current_value_of(s, f)) + (if s.staged_edits.contains_key(f.id) {
        " *"@
    } else {
        Seq::empty()
    })
}

/// A setting's line in the settings list.
pub fn setting_line_text(state: &AppState, field: &DecodedField) -> (r: String)
    ensures
        r@ == setting_line(state@, field@),
{
    let current = state.current_value_for(field);
    let mut line = field.label.clone();
    line.append(": ");
    let shown = current.display_text();
    line.append(shown.as_str());
    let ghost base = line@;
    if state.staged_edits.contains_key(&field.id) {
        line.append(" *");
    }
    assert(line@ =~= base + (if state@.staged_edits.contains_key(field@.id) {
        " *"@
    } else {
        Seq::empty()
    }));
    line
}

/// "yes" or "no".
pub open spec fn yes_no(b: bool) -> Seq<char> {
    if b {
        "yes"@
    } else {
        "no"@
    }
}

/// The detail panel of a setting.
pub open spec fn field_detail(f: DecodedFieldModel, current: FieldValueModel, dirty: bool) -> Seq<
    Seq<char>,
> {
    let lines = seq![
        "Label: "@ + f.label,
        "Field id: "@ + f.id,
        "Tag: "@ + tag_text(f.tag_id),
        "Current value: "@ + value_text(current),
        "Device value: "@ + value_text(f.value),
        "Confidence: "@ + confidence_word(f.confidence),
        "Editable: "@ + yes_no(f.editable),
        "Dirty: "@ + yes_no(dirty),
        "Source bytes: "@ + hex_spaced(f.source_bytes),
    ];
    match f.notes {
        Some(n) => lines + seq![""@, n],
        None => lines,
    }
}

/// "yes" or "no".
fn yes_no_text(b: bool) -> (r: &'static str)
    ensures
        r@ == yes_no(b),
{
    if b {
        "yes"
    } else {
        "no"
    }
}

/// The detail panel of a setting.
pub fn field_detail_lines(field: &DecodedField, current: &FieldValue, dirty: bool) -> (r: Vec<
    String,
>)
    ensures
        r.deep_view() == field_detail(field@, current@, dirty),
{
    let mut lines: Vec<String> = Vec::new();
    lines.push(prefixed("Label: ", field.label.as_str()));
    lines.push(prefixed("Field id: ", field.id.as_str()));
    let tag = field.tag_id.text();
    lines.push(prefixed("Tag: ", tag.as_str()));
    let shown = current.display_text();
    lines.push(prefixed("Current value: ", shown.as_str()));
    let device = field.value.display_text();
    lines.push(prefixed("Device value: ", device.as_str()));
    lines.push(prefixed("Confidence: ", field.confidence.label()));
    lines.push(prefixed("Editable: ", yes_no_text(field.editable)));
    lines.push(prefixed("Dirty: ", yes_no_text(dirty)));
    let bytes = crate::text::hex_spaced_string(field.source_bytes.as_slice());
    lines.push(prefixed("Source bytes: ", bytes.as_str()));
    match &field.notes {
        Some(n) => {
            lines.push(owned(""));
            lines.push(n.clone());
        },
        None => {},
    }
    assert(lines.deep_view() =~= field_detail(field@, current@, dirty));
    lines
}

/// The detail panel of the settings screen: the selected setting's detail,
/// or what to do while none is decoded.
pub open spec fn setting_detail(s: AppModel) -> Seq<Seq<char>> {
    match selected_known_of(s) {
        Some(f) => field_detail(f, current_value_of(s, f), s.staged_edits.contains_key(f.id)),
        None => if s.app_mode == AppMode::ReadingConfig {
            seq![
                "Waiting for a tagged config reply from the device."@,
                ""@,
                "The TUI has already sent the vendor config-read request."@,
                "If nothing appears, press g to retry and watch Packet Log for replies."@,
            ]
        } else {
            seq![
                "No tagged settings decoded yet."@,
                ""@,
                "Connect a supported device and press g to request the current config."@,
                "Packet Log still shows the raw SysEx frames used to populate this screen."@,
            ]
        },
    }
}

/// The detail panel of the settings screen.
pub fn setting_detail_lines(state: &AppState) -> (r: Vec<String>)
    ensures
        r.deep_view() == setting_detail(state@),
{
    match state.selected_known_field() {
        Some(field) => {
            let current = state.current_value_for(field);
            let dirty = state.staged_edits.contains_key(&field.id);
            field_detail_lines(field, &current, dirty)
        },
        None => {
            let mut lines: Vec<String> = Vec::new();
            if state.app_mode == AppMode::ReadingConfig {
                lines.push(owned("Waiting for a tagged config reply from the device."));
                lines.push(owned(""));
                lines.push(owned("The TUI has already sent the vendor config-read request."));
                lines.push(
                    owned("If nothing appears, press g to retry and watch Packet Log for replies."),
                );
            } else {
                lines.push(owned("No tagged settings decoded yet."));
                lines.push(owned(""));
                lines.push(
                    owned("Connect a supported device and press g to request the current config."),
                );
                lines.push(
                    owned(
                        "Packet Log still shows the raw SysEx frames used to populate this screen.",
                    ),
                );
            }
            assert(lines.deep_view() =~= setting_detail(state@));
            lines
        },
    }
}

/// The word for a direction.
pub open spec fn direction_word(d: Direction) -> Seq<char> {
    match d {
        Direction::Sent => "sent"@,
        Direction::Received => "recv"@,
    }
}

/// A frame's line in the packet list: time, direction and command.
pub open spec fn packet_line(f: FrameModel) -> Seq<char> {
    f.timestamp + " "@ + direction_word(f.direction) + " "@ + (match f.envelope {
        Some(e) => "cmd:"@ + hex2(e.command),
        None => "raw"@,
    })
}

/// A frame's line in the packet list.
pub fn packet_line_text(frame: &SysexFrame) -> (r: String)
    ensures
        r@ == packet_line(frame@),
{
    let mut line = frame.timestamp.clone();
    line.append(" ");
    line.append(frame.direction.label());
    line.append(" ");
    match &frame.envelope {
        Some(e) => {
            line.append("cmd:");
            push_hex2(&mut line, e.command);
        },
        None => line.append("raw"),
    }
    line
}

/// The detail panel of a frame.
pub open spec fn packet_detail(f: FrameModel) -> Seq<Seq<char>> {
    let head = seq![
        "Timestamp: "@ + f.timestamp,
        "Direction: "@ + direction_word(f.direction),
        "Raw: "@ + hex_spaced(f.raw),
    ];
    match f.envelope {
        Some(e) => {
            let with_header = head + seq![
                "Manufacturer: "@ + hex_spaced(e.manufacturer),
                "Command: "@ + hex2(e.command),
            ];
            let with_tag = match e.tag {
                Some(t) => with_header.push("Tag: "@ + tag_text(t)),
                None => with_header,
            };
            match e.note {
                Some(n) => with_tag + seq![""@, n],
                None => with_tag,
            }
        },
        None => head + seq![""@, "Raw MIDI message captured. Not a complete SysEx frame."@],
    }
}

/// The detail panel of a frame.
pub fn packet_detail_lines(frame: &SysexFrame) -> (r: Vec<String>)
    ensures
        r.deep_view() == packet_detail(frame@),
{
    let mut lines: Vec<String> = Vec::new();
    lines.push(prefixed("Timestamp: ", frame.timestamp.as_str()));
    lines.push(prefixed("Direction: ", frame.direction.label()));
    let raw = frame.hex_string();
    lines.push(prefixed("Raw: ", raw.as_str()));
    match &frame.envelope {
        Some(e) => {
            let manufacturer = crate::text::hex_spaced_string(e.manufacturer.as_slice());
            lines.push(prefixed("Manufacturer: ", manufacturer.as_str()));
            let mut command = owned("Command: ");
            push_hex2(&mut command, e.command);
            lines.push(command);
            match e.tag {
                Some(t) => {
                    let tag = t.text();
                    lines.push(prefixed("Tag: ", tag.as_str()));
                },
                None => {},
            }
            let ghost with_tag = lines.deep_view();
            match &e.note {
                Some(n) => {
                    lines.push(owned(""));
                    lines.push(n.clone());
                    assert(lines.deep_view() =~= with_tag + seq![""@, n@]);
                },
                None => {},
            }
        },
        None => {
            lines.push(owned(""));
            lines.push(owned("Raw MIDI message captured. Not a complete SysEx frame."));
        },
    }
    assert(lines.deep_view() =~= packet_detail(frame@));
    lines
}

/// The import/export panel.
pub open spec fn import_export(s: AppModel) -> Seq<Seq<char>> {
    seq![
        match s.snapshot {
            Some(sn) => "Loaded snapshot for "@ + family_display(sn.family),
            None => "No snapshot loaded."@,
        },
        ""@,
        "Settings export is disabled right now."@,
        "Live tagged config read is now the source of truth for supported device settings."@,
        "The remaining work is implementing a real file export/import format for decoded snapshots."@,
    ]
}

/// The import/export panel.
pub fn import_export_lines(state: &AppState) -> (r: Vec<String>)
    ensures
        r.deep_view() == import_export(state@),
{
    let mut lines: Vec<String> = Vec::new();
    match &state.snapshot {
        Some(sn) => {
            let family = sn.family.display_name();
            lines.push(prefixed("Loaded snapshot for ", family.as_str()));
        },
        None => lines.push(owned("No snapshot loaded.")),
    }
    lines.push(owned(""));
    lines.push(owned("Settings export is disabled right now."));
    lines.push(
        owned("Live tagged config read is now the source of truth for supported device settings."),
    );
    lines.push(
        owned(
            "The remaining work is implementing a real file export/import format for decoded snapshots.",
        ),
    );
    assert(lines.deep_view() =~= import_export(state@));
    lines
}

/// The colour a pad shows: its three bytes of `buffer`, each doubled up to
/// 255, or black when the buffer does not hold them.
pub open spec fn rgb_at(buffer: Option<Seq<u8>>, button: int) -> (u8, u8, u8) {
    match buffer {
        Some(bytes) => if 0 <= button && 3 * button + 3 <= bytes.len() {
            (doubled(bytes[3 * button]), doubled(bytes[3 * button + 1]), doubled(bytes[3 * button + 2]))
        } else {
            (0, 0, 0)
        },
        None => (0, 0, 0),
    }
}

/// Doubles a colour component, stopping at 255.
fn double_component(x: u8) -> (r: u8)
    ensures
        r == doubled(x),
{
    if x > 127 {
        255
    } else {
        x * 2
    }
}

/// The colour a pad shows.
pub fn rgb_for_button(buffer: Option<&[u8]>, button_index: usize) -> (r: (u8, u8, u8))
    requires
        3 * button_index + 3 <= usize::MAX,
    ensures
        r == rgb_at(
            match buffer {
                Some(b) => Some(b@),
                None => None,
            },
            button_index as int,
        ),
{
    let start = button_index * 3;
    match buffer {
        Some(bytes) => if start + 3 <= bytes.len() {
            (
                double_component(bytes[start]),
                double_component(bytes[start + 1]),
                double_component(bytes[start + 2]),
            )
        } else {
            (0, 0, 0)
        },
        None => (0, 0, 0),
    }
}

/// Whether pad numbers strictly increase along a list.
pub open spec fn pads_increasing(l: Seq<usize>) -> bool {
    forall|i: int, j: int| 0 <= i < j < l.len() ==> l[i] < l[j]
}

/// The members of a set of pads, in increasing order.
pub open spec fn sorted_pads(sel: Set<usize>) -> Seq<usize> {
    choose|l: Seq<usize>| pads_increasing(l) && forall|b: usize| #[trigger] l.contains(b) <==> sel.contains(b)
}

/// Two increasing lists with the same members are the same list.
proof fn lemma_increasing_unique(a: Seq<usize>, b: Seq<usize>)
    requires
        pads_increasing(a),
        pads_increasing(b),
        forall|x: usize| #[trigger] a.contains(x) <==> b.contains(x),
    ensures
        a == b,
    decreases a.len(),
{
    if a.len() == 0 {
        if b.len() > 0 {
            assert(b.contains(b[0]));
            assert(a.contains(b[0]));
        }
        assert(a =~= b);
    } else {
        assert(a.contains(a[0]));
        assert(b.contains(a[0]));
        let j = choose|j: int| 0 <= j < b.len() && b[j] == a[0];
        assert(b.contains(b[0]));
        assert(a.contains(b[0]));
        let i = choose|i: int| 0 <= i < a.len() && a[i] == b[0];
        assert(b[0] <= a[0]) by {
            if j > 0 {
                assert(b[0] < b[j]);
            }
        }
        assert(a[0] <= b[0]) by {
            if i > 0 {
                assert(a[0] < a[i]);
            }
        }
        let a2 = a.drop_first();
        let b2 = b.drop_first();
        assert forall|x: int, y: int| 0 <= x < y < a2.len() implies a2[x] < a2[y] by {
            assert(a[x + 1] < a[y + 1]);
        }
        assert forall|x: int, y: int| 0 <= x < y < b2.len() implies b2[x] < b2[y] by {
            assert(b[x + 1] < b[y + 1]);
        }
        assert forall|x: usize| #[trigger] a2.contains(x) <==> b2.contains(x) by {
            if a2.contains(x) {
                let k = choose|k: int| 0 <= k < a2.len() && a2[k] == x;
                assert(a[k + 1] == x);
                assert(a[0] < a[k + 1]);
                assert(a.contains(x));
                assert(b.contains(x));
                let m = choose|m: int| 0 <= m < b.len() && b[m] == x;
                assert(m != 0);
                assert(b2[m - 1] == x);
            }
            if b2.contains(x) {
                let k = choose|k: int| 0 <= k < b2.len() && b2[k] == x;
                assert(b[k + 1] == x);
                assert(b[0] < b[k + 1]);
                assert(b.contains(x));
                assert(a.contains(x));
                let m = choose|m: int| 0 <= m < a.len() && a[m] == x;
                assert(m != 0);
                assert(a2[m - 1] == x);
            }
        }
        lemma_increasing_unique(a2, b2);
        assert(a =~= seq![a[0]] + a2);
        assert(b =~= seq![b[0]] + b2);
    }
}

/// Pad numbers joined by ", ".
pub open spec fn joined_numbers(l: Seq<usize>) -> Seq<char>
    decreases l.len(),
{
    if l.len() == 0 {
        Seq::empty()
    } else if l.len() == 1 {
        dec_chars(l[0] as nat)
    } else {
        joined_numbers(l.drop_last()) + ", "@ + dec_chars(l.last() as nat)
    }
}

/// The summary of a list of selected pads: the first eight, and the count
/// when there are more.
pub open spec fn pad_summary_of(l: Seq<usize>) -> Seq<char> {
    if l.len() == 0 {
        "none; cursor only"@
    } else if l.len() > 8 {
        joined_numbers(l.take(8)) + ", ... ("@ + dec_chars(l.len()) + " total)"@
    } else {
        joined_numbers(l)
    }
}

/// The numbers of `l`, joined by ", ".
fn join_numbers(l: &Vec<usize>, count: usize) -> (r: String)
    requires
        count <= l.len(),
    ensures
        r@ == joined_numbers(l@.take(count as int)),
{
    let mut out = String::new();
    for i in 0..count
        invariant
            count <= l.len(),
            out@ == joined_numbers(l@.take(i as int)),
    {
        assert(l@.take(i as int + 1).drop_last() =~= l@.take(i as int));
        let ghost before = out@;
        if i > 0 {
            out.append(", ");
        }
        push_decimal(&mut out, l[i] as u64);
        if i == 0 {
            assert(before =~= Seq::<char>::empty());
            assert(out@ =~= joined_numbers(l@.take(1)));
        } else {
            assert(out@ =~= joined_numbers(l@.take(i as int + 1)));
        }
    }
    out
}

/// The summary of the selected pads.
pub fn selected_pad_summary(state: &AppState) -> (r: String)
    ensures
        r@ == pad_summary_of(sorted_pads(state@.selected_pad_buttons)),
{
    let pads = crate::order::sorted_members(&state.selected_pad_buttons);
    proof {
        let sel = state@.selected_pad_buttons;
        assert(forall|b: usize| #[trigger] pads@.contains(b) <==> sel.contains(b));
        assert(pads_increasing(pads@));
        let chosen = sorted_pads(sel);
        assert(pads_increasing(chosen) && forall|b: usize| #[trigger] chosen.contains(b) <==> sel.contains(b));
        lemma_increasing_unique(pads@, chosen);
    }
    if pads.len() == 0 {
        return owned("none; cursor only");
    }
    if pads.len() > 8 {
        let mut summary = join_numbers(&pads, 8);
        summary.append(", ... (");
        push_decimal(&mut summary, pads.len() as u64);
        summary.append(" total)");
        summary
    } else {
        let summary = join_numbers(&pads, pads.len());
        assert(pads@.take(pads@.len() as int) =~= pads@);
        summary
    }
}

/// "loaded" or "pending".
pub open spec fn loaded_word(b: Option<Seq<u8>>) -> Seq<char> {
    if b is Some {
        "loaded"@
    } else {
        "pending"@
    }
}

/// The buffer of the colour target.
pub open spec fn target_buffer(c: PadColorsModel, t: ColorTarget) -> Option<Seq<u8>> {
    match t {
        ColorTarget::Inactive => c.inactive,
        ColorTarget::Active => c.active,
    }
}

/// The status panel of the pad screen: which buffers are loaded, where the
/// cursor is, the colour under it, and the selection; or what to do while
/// no buffer is loaded.
pub open spec fn pad_status(s: AppModel) -> Seq<Seq<char>> {
    match s.pad_colors {
        None => seq![
            "Pad colors have not been loaded yet."@,
            ""@,
            "MF64 color buffers are requested automatically after the base config snapshot completes."@,
            "If needed, reconnect the device or press g to reread config."@,
        ],
        Some(device) => {
            let colors = current_pad_colors_of(s)->0;
            let button = s.selected_pad_button_idx;
            let image = image_of_button(button as int);
            let bank: nat = if image >= 64 {
                2
            } else {
                1
            };
            let rgb = rgb_at(target_buffer(colors, s.selected_color_target), button as int);
            seq![
                "Inactive buffer: "@ + loaded_word(colors.inactive),
                "Active buffer: "@ + loaded_word(colors.active),
                "Selected pad: "@ + dec_chars(button as nat) + " (bank "@ + dec_chars(bank) + ", slot "@
                    + dec_chars((image % 64) as nat) + ")"@,
                "Target: "@ + target_label(s.selected_color_target) + "    Color: #"@ + hex2(rgb.0)
                    + hex2(rgb.1) + hex2(rgb.2) + "    Dirty pads: "@ + dec_chars(dirty_pads_of(s))
                    + "    Selection: "@ + dec_chars(s.selected_pad_buttons.len()),
                "Selection detail: "@ + pad_summary_of(sorted_pads(s.selected_pad_buttons)),
            ]
        },
    }
}

/// "loaded" or "pending".
fn loaded_text(b: &Option<Vec<u8>>) -> (r: &'static str)
    ensures
        r@ == loaded_word(b.deep_view()),
{
    if b.is_some() {
        "loaded"
    } else {
        "pending"
    }
}

/// The status panel of the pad screen.
pub fn pad_status_lines(state: &AppState) -> (r: Vec<String>)
    requires
        3 * state@.selected_pad_button_idx + 3 <= usize::MAX,
    ensures
        r.deep_view() == pad_status(state@),
{
    proof {
        crate::order::lemma_keys_ordered();
    }
    let mut lines: Vec<String> = Vec::new();
    if state.pad_colors.is_none() {
        lines.push(owned("Pad colors have not been loaded yet."));
        lines.push(owned(""));
        lines.push(
            owned(
                "MF64 color buffers are requested automatically after the base config snapshot completes.",
            ),
        );
        lines.push(owned("If needed, reconnect the device or press g to reread config."));
        assert(lines.deep_view() =~= pad_status(state@));
        return lines;
    }
    let colors = match state.current_pad_colors() {
        Some(c) => c,
        None => {
            return lines;
        },
    };
    let button = state.selected_pad_button_idx;
    let image = image_index_for_button(button);
    let bank: u64 = if image >= 64 {
        2
    } else {
        1
    };
    let buffer = match state.selected_color_target {
        ColorTarget::Inactive => &colors.inactive,
        ColorTarget::Active => &colors.active,
    };
    let rgb = rgb_for_button(
        match buffer {
            Some(b) => Some(b.as_slice()),
            None => None,
        },
        button,
    );
    proof {
        assert(buffer.deep_view() == target_buffer(colors@, state@.selected_color_target));
        if let Some(b) = buffer {
            assert(b.deep_view() =~= b@);
        }
    }
    lines.push(prefixed("Inactive buffer: ", loaded_text(&colors.inactive)));
    lines.push(prefixed("Active buffer: ", loaded_text(&colors.active)));
    let mut selected = owned("Selected pad: ");
    push_decimal(&mut selected, button as u64);
    selected.append(" (bank ");
    push_decimal(&mut selected, bank);
    selected.append(", slot ");
    push_decimal(&mut selected, (image % 64) as u64);
    selected.append(")");
    lines.push(selected);
    let mut target = owned("Target: ");
    target.append(state.selected_color_target.label());
    target.append("    Color: #");
    push_hex2(&mut target, rgb.0);
    push_hex2(&mut target, rgb.1);
    push_hex2(&mut target, rgb.2);
    target.append("    Dirty pads: ");
    push_decimal(&mut target, state.dirty_pad_color_count() as u64);
    target.append("    Selection: ");
    push_decimal(&mut target, state.selected_pad_buttons.len() as u64);
    lines.push(target);
    let summary = selected_pad_summary(state);
    lines.push(prefixed("Selection detail: ", summary.as_str()));
    assert(lines.deep_view() =~= pad_status(state@));
    lines
}

/// One pad of a colour grid: its colour, and whether the cursor is on it
/// or it is selected, on the layer being edited.
#[derive(Clone, Copy, Debug)]
pub struct PadCell {
    pub rgb: (u8, u8, u8),
    pub cursor: bool,
    pub selected: bool,
}

/// The pad at `row` and `col` of `bank` in a grid of `target`'s buffer.
pub open spec fn pad_cell_of(
    s: AppModel,
    buffer: Seq<u8>,
    bank: int,
    row: int,
    col: int,
    target: ColorTarget,
) -> PadCell {
    let button = button_at_image(bank * 64 + row * 8 + col);
    let editing = s.selected_color_target == target;
    PadCell {
        rgb: rgb_at(Some(buffer), button),
        cursor: editing && s.selected_pad_button_idx == button,
        selected: editing && s.selected_pad_buttons.contains(button as usize),
    }
}

/// The pad at `row` and `col` of `bank`, where that is on the grid.
pub fn pad_cell(
    state: &AppState,
    buffer: &[u8],
    bank: usize,
    row: usize,
    col: usize,
    target: ColorTarget,
) -> (r: PadCell)
    requires
        bank * 64 + row * 8 + col < 128,
    ensures
        r == pad_cell_of(state@, buffer@, bank as int, row as int, col as int, target),
{
    proof {
        crate::order::lemma_keys_ordered();
        crate::app::pad_grid::lemma_grid_bijection(bank * 64 + row * 8 + col, 0);
    }
    let button = button_for_image_index(bank * 64 + row * 8 + col);
    let editing = state.selected_color_target == target;
    PadCell {
        rgb: rgb_for_button(Some(buffer), button),
        cursor: editing && state.selected_pad_button_idx == button,
        selected: editing && state.selected_pad_buttons.contains(&button),
    }
}

/// The lines that list staged setting edits: id, arrow, value.
pub open spec fn edit_lines(entries: Seq<(Seq<char>, FieldValueModel)>) -> Seq<Seq<char>> {
    entries.map_values(|e: (Seq<char>, FieldValueModel)| e.0 + " -> "@ + value_text(e.1))
}

/// The apply preview: the staged edits (`entries`, in order of id), the
/// changed pads, and what confirming would send or why it cannot.
pub open spec fn apply_preview(s: AppModel, entries: Seq<(Seq<char>, FieldValueModel)>) -> Seq<
    Seq<char>,
> {
    let head = seq!["Review staged changes"@, ""@] + edit_lines(entries);
    let with_pads = if dirty_pads_of(s) > 0 {
        head.push("pad colors -> "@ + dec_chars(dirty_pads_of(s)) + " changed pad(s)"@)
    } else {
        head
    };
    with_pads + match apply_plan(s) {
        Some(Ok(frames)) => seq![
            ""@,
            "Preview packets: "@ + dec_chars(frames.len()),
            "Enter: apply to the connected device"@,
            "Esc: cancel"@,
        ],
        Some(Err(reason)) => seq![
            ""@,
            reason,
            "Enter is disabled until the serializer is decoded."@,
            "Esc: cancel"@,
        ],
        None => seq![""@, "No config snapshot loaded."@, "Esc: cancel"@],
    }
}

/// The apply preview.
pub fn apply_preview_lines(state: &AppState) -> (r: Vec<String>)
    ensures
        r.deep_view() == apply_preview(state@, state.staged_edits.ordered()),
{
    let ghost entries = state.staged_edits.ordered();
    let mut lines: Vec<String> = Vec::new();
    lines.push(owned("Review staged changes"));
    lines.push(owned(""));
    let count = state.staged_edits.entry_count();
    for i in 0..count
        invariant
            count == entries.len(),
            entries == state.staged_edits.ordered(),
            lines.deep_view() =~= seq!["Review staged changes"@, ""@] + edit_lines(
                entries.subrange(0, i as int),
            ),
    {
        let (id, value) = state.staged_edits.entry_at(i);
        let shown = value.display_text();
        let line = crate::text::concat3(id.as_str(), " -> ", shown.as_str());
        let ghost before = lines.deep_view();
        lines.push(line);
        assert(edit_lines(entries.subrange(0, i as int + 1)) =~= edit_lines(
            entries.subrange(0, i as int),
        ).push(line@));
        assert(lines.deep_view() =~= before.push(line@));
    }
    assert(entries.subrange(0, entries.len() as int) =~= entries);
    let dirty = state.dirty_pad_color_count();
    if dirty > 0 {
        let line = crate::text::with_number("pad colors -> ", dirty as u64, " changed pad(s)");
        lines.push(line);
    }
    match build_apply_messages(state) {
        Some(Ok(frames)) => {
            lines.push(owned(""));
            let mut count_line = owned("Preview packets: ");
            push_decimal(&mut count_line, frames.len() as u64);
            lines.push(count_line);
            lines.push(owned("Enter: apply to the connected device"));
            lines.push(owned("Esc: cancel"));
        },
        Some(Err(err)) => {
            lines.push(owned(""));
            lines.push(err.message());
            lines.push(owned("Enter is disabled until the serializer is decoded."));
            lines.push(owned("Esc: cancel"));
        },
        None => {
            lines.push(owned(""));
            lines.push(owned("No config snapshot loaded."));
            lines.push(owned("Esc: cancel"));
        },
    }
    assert(lines.deep_view() =~= apply_preview(state@, entries));
    lines
}

} // verus!
