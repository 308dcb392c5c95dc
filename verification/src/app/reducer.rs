//! The reducer: how each user action changes the editor's state.
use vstd::prelude::*;

use crate::app::actions::Action;
use crate::app::pad_grid::{
    button_at_image, button_for_image_index, clamp_step, clamp_to, image_index_for_button,
    image_of_button, lemma_grid_bijection, };
use crate::app::state::{
    known_of, state_wf, with_event, with_status, AppMode, AppModel, AppState, ColorTarget, Screen,
    dirty_count_of, dirty_pads_of, screen_at, screen_index, target_label, normalized,
};
use crate::app::state::{
    pads_in_order, PadColorSnapshot, PadColorsModel, current_pad_colors_of,
    current_value_of, fields_in_range, kind_in_range, selected_known_of, value_in_range,
};
use crate::protocol::registry::{
    adjust_in_range, adjusted_value, known_fields_of, value_text, DecodedFieldModel, FieldValue,
    FieldValueModel, SettingKind, SettingKindModel,
};
use crate::text::{concat2, concat3, dec_chars, hex2, index_or_zero, with_number};

verus! {

/// `s` with the pad cursor moved by `(dx, dy)` within the selected bank.
/// The row is taken from the cursor's position within the bank (0 when it
/// lies before the bank, the last row when after), the column from its
/// image index; both stop at the bank's edges.
pub open spec fn pad_cursor_moved(s: AppModel, dx: int, dy: int) -> AppModel {
    let image = image_of_button(s.selected_pad_button_idx as int);
    let offset = 64 * s.selected_pad_bank;
    let in_bank = clamp_to(image - offset, 0, 63);
    let row = in_bank / 8;
    let col = image % 8;
    AppModel {
        selected_pad_button_idx: button_at_image(
            offset + 8 * clamp_to(row + dy, 0, 7) + clamp_to(col + dx, 0, 7),
        ) as usize,
        ..s
    }
}

/// A list cursor moved by `delta` over a list of `len` entries; an empty
/// list puts the cursor at 0.
pub open spec fn list_cursor_moved(cursor: usize, len: nat, delta: int) -> usize {
    if len == 0 {
        0
    } else {
        clamp_to(cursor + delta, 0, len - 1) as usize
    }
}

/// `s` after a vertical move: the pad cursor on the pad screen, else the
/// cursor of the screen's list (devices, known settings or packets).
pub open spec fn selection_moved(s: AppModel, delta: int) -> AppModel {
    match s.screen {
        Screen::PadColors => pad_cursor_moved(s, 0, delta),
        Screen::Devices => AppModel {
            selected_device_idx: list_cursor_moved(s.selected_device_idx, s.devices.len(), delta),
            ..s
        },
        Screen::Settings => AppModel {
            selected_setting_idx: list_cursor_moved(
                s.selected_setting_idx,
                known_of(s).len(),
                delta,
            ),
            ..s
        },
        Screen::PacketLog => AppModel {
            selected_packet_idx: list_cursor_moved(s.selected_packet_idx, s.packet_log.len(), delta),
            ..s
        },
        Screen::ImportExport => s,
    }
}

/// `s` after a horizontal move: only the pad screen has a horizontal cursor.
pub open spec fn horizontal_moved(s: AppModel, delta: int) -> AppModel {
    if s.screen == Screen::PadColors {
        pad_cursor_moved(s, delta, 0)
    } else {
        s
    }
}

/// The status after the pad selection changed to `n` pads.
pub open spec fn selection_status(n: nat) -> Seq<char> {
    "Selected "@ + dec_chars(n) + " pad(s) for bulk color edits."@
}

/// `s` after the pad under the cursor is added to or removed from the
/// selection (pad screen only).
pub open spec fn pad_selection_toggled(s: AppModel) -> AppModel {
    if s.screen != Screen::PadColors {
        s
    } else {
        let b = s.selected_pad_button_idx;
        let sel = if s.selected_pad_buttons.contains(b) {
            s.selected_pad_buttons.remove(b)
        } else {
            s.selected_pad_buttons.insert(b)
        };
        with_status(AppModel { selected_pad_buttons: sel, ..s }, selection_status(sel.len()))
    }
}

/// `s` after the pad selection is emptied (pad screen only).
pub open spec fn pad_selection_cleared(s: AppModel) -> AppModel {
    if s.screen != Screen::PadColors {
        s
    } else {
        with_status(
            AppModel { selected_pad_buttons: Set::empty(), ..s },
            "Cleared pad selection."@,
        )
    }
}

/// The message after switching to bank `bank` (counted from 0).
pub open spec fn bank_message(bank: nat) -> Seq<char> {
    "Switched to pad color bank "@ + dec_chars(bank + 1) + "."@
}

/// `s` after switching to the other bank (pad screen only): the cursor keeps
/// its slot, and the selection is emptied.
pub open spec fn pad_bank_toggled(s: AppModel) -> AppModel {
    if s.screen != Screen::PadColors {
        s
    } else {
        let slot = image_of_button(s.selected_pad_button_idx as int) % 64;
        let bank = ((s.selected_pad_bank + 1) % 2) as usize;
        with_event(
            with_status(
                AppModel {
                    selected_pad_bank: bank,
                    selected_pad_button_idx: button_at_image(bank * 64 + slot) as usize,
                    selected_pad_buttons: Set::empty(),
                    ..s
                },
                bank_message(bank as nat),
            ),
            bank_message(bank as nat),
        )
    }
}

/// `s` with its mode following the connection and the staged changes:
/// without a device the mode becomes Idle (unless scanning, failed or
/// booting); with one, staged changes make it Editing, and Editing without
/// changes falls back to Connected.
pub open spec fn synced(s: AppModel) -> AppModel {
    if s.connected_device_id is None {
        if s.app_mode != AppMode::Scanning && s.app_mode != AppMode::Error && s.app_mode
            != AppMode::Booting {
            AppModel { app_mode: AppMode::Idle, ..s }
        } else {
            s
        }
    } else if dirty_count_of(s) > 0 {
        AppModel { app_mode: AppMode::Editing, ..s }
    } else if s.app_mode == AppMode::Editing {
        AppModel { app_mode: AppMode::Connected, ..s }
    } else {
        s
    }
}

/// Moves the pad cursor by `(dx, dy)` within the selected bank.
fn move_pad_cursor(state: &mut AppState, dx: isize, dy: isize)
    requires
        old(state).selected_pad_bank < 2,
    ensures
        final(state)@ == pad_cursor_moved(old(state)@, dx as int, dy as int),
{
    let image_index = image_index_for_button(state.selected_pad_button_idx);
    let bank_offset = state.selected_pad_bank * 64;
    let shifted = if image_index >= bank_offset {
        image_index - bank_offset
    } else {
        0
    };
    let bank_image_index = if shifted < 63 {
        shifted
    } else {
        63
    };
    let row = bank_image_index / 8;
    let col = image_index % 8;
    let next_row = clamp_step(row, dy);
    let next_col = clamp_step(col, dx);
    let next_image_index = bank_offset + next_row * 8 + next_col;
    state.selected_pad_button_idx = button_for_image_index(next_image_index);
}

/// A list cursor moved by `delta` over `len` entries.
fn move_list_cursor(cursor: usize, len: usize, delta: isize) -> (r: usize)
    ensures
        r == list_cursor_moved(cursor, len as nat, delta as int),
{
    if len == 0 {
        return 0;
    }
    let current = cursor as i128 + delta as i128;
    let hi = len as i128 - 1;
    if current < 0 {
        0
    } else if current > hi {
        len - 1
    } else {
        current as usize
    }
}

/// A vertical move.
fn move_selection(state: &mut AppState, delta: isize)
    requires
        old(state).selected_pad_bank < 2,
    ensures
        final(state)@ == selection_moved(old(state)@, delta as int),
{
    match state.screen {
        Screen::PadColors => move_pad_cursor(state, 0, delta),
        Screen::Devices => {
            state.selected_device_idx = move_list_cursor(
                state.selected_device_idx,
                state.devices.len(),
                delta,
            );
        },
        Screen::Settings => {
            let max = state.known_fields().len();
            state.selected_setting_idx = move_list_cursor(state.selected_setting_idx, max, delta);
        },
        Screen::PacketLog => {
            state.selected_packet_idx = move_list_cursor(
                state.selected_packet_idx,
                state.packet_log.len(),
                delta,
            );
        },
        Screen::ImportExport => {},
    }
}

/// A horizontal move.
fn move_horizontal(state: &mut AppState, delta: isize)
    requires
        old(state).selected_pad_bank < 2,
    ensures
        final(state)@ == horizontal_moved(old(state)@, delta as int),
{
    if state.screen != Screen::PadColors {
        return;
    }
    move_pad_cursor(state, delta, 0);
}

/// Adds the pad under the cursor to the selection, or removes it.
fn toggle_pad_selection(state: &mut AppState)
    ensures
        final(state)@ == pad_selection_toggled(old(state)@),
{
    if state.screen != Screen::PadColors {
        return;
    }
    proof {
        crate::order::lemma_keys_ordered();
    }
    let b = state.selected_pad_button_idx;
    if !state.selected_pad_buttons.insert(b) {
        state.selected_pad_buttons.remove(&b);
    }
    proof {
        if old(state)@.selected_pad_buttons.contains(b) {
            assert(state@.selected_pad_buttons =~= old(state)@.selected_pad_buttons.remove(b));
        }
    }
    let msg = with_number(
        "Selected ",
        state.selected_pad_buttons.len() as u64,
        " pad(s) for bulk color edits.",
    );
    state.set_status(msg.as_str());
}

/// Empties the pad selection.
fn clear_pad_selection(state: &mut AppState)
    ensures
        final(state)@ == pad_selection_cleared(old(state)@),
{
    if state.screen != Screen::PadColors {
        return;
    }
    state.selected_pad_buttons.clear();
    state.set_status("Cleared pad selection.");
}

/// Switches to the other pad bank.
fn toggle_pad_bank(state: &mut AppState)
    requires
        old(state).selected_pad_bank < 2,
    ensures
        final(state)@ == pad_bank_toggled(old(state)@),
{
    if state.screen != Screen::PadColors {
        return;
    }
    let image_index = image_index_for_button(state.selected_pad_button_idx);
    let slot = image_index % 64;
    state.selected_pad_bank = (state.selected_pad_bank + 1) % 2;
    state.selected_pad_button_idx = button_for_image_index(state.selected_pad_bank * 64 + slot);
    state.selected_pad_buttons.clear();
    let msg = with_number(
        "Switched to pad color bank ",
        (state.selected_pad_bank + 1) as u64,
        ".",
    );
    state.set_status(msg.as_str());
    state.push_event(msg.as_str());
}

/// Makes the mode follow the connection and the staged changes.
fn sync_mode(state: &mut AppState)
    ensures
        final(state)@ == synced(old(state)@),
{
    if state.connected_device_id.is_none() {
        if state.app_mode != AppMode::Scanning && state.app_mode != AppMode::Error
            && state.app_mode != AppMode::Booting {
            state.app_mode = AppMode::Idle;
        }
        return;
    }
    if state.dirty_count() > 0 {
        state.app_mode = AppMode::Editing;
    } else if state.app_mode == AppMode::Editing {
        state.app_mode = AppMode::Connected;
    }
}


/// `s` after the selected setting is stepped by `delta` (activation is a
/// step of 1): only on the settings screen with no modal open, only for an
/// editable known setting whose kind can step; a value equal to the
/// device's drops the staged edit, any other value is staged.
pub open spec fn value_change_applied(s: AppModel, delta: int) -> AppModel {
    if s.apply_modal_open || s.screen != Screen::Settings {
        s
    } else {
        match selected_known_of(s) {
            None => s,
            Some(f) => if !f.editable {
                with_status(s, f.label + " is not editable yet."@)
            } else {
                match adjusted_value(f.kind, current_value_of(s, f), delta) {
                    None => with_status(s, f.label + " cannot be adjusted from the TUI yet."@),
                    Some(next) => if next == f.value {
                        with_event(
                            with_status(
                                AppModel { staged_edits: s.staged_edits.remove(f.id), ..s },
                                "Reverted "@ + f.label + " to device value."@,
                            ),
                            "Reverted "@ + f.label,
                        )
                    } else {
                        with_event(
                            with_status(
                                AppModel { staged_edits: s.staged_edits.insert(f.id, next), ..s },
                                "Staged "@ + f.label + " = "@ + value_text(next),
                            ),
                            "staged "@ + f.id + " = "@ + value_text(next),
                        )
                    },
                }
            },
        }
    }
}

/// `s` after the staged edit of the selected setting is dropped.
pub open spec fn field_edit_undone(s: AppModel) -> AppModel {
    match selected_known_of(s) {
        None => s,
        Some(f) => if s.staged_edits.contains_key(f.id) {
            with_event(
                with_status(
                    AppModel { staged_edits: s.staged_edits.remove(f.id), ..s },
                    "Removed staged edit for "@ + f.label + "."@,
                ),
                "Removed staged edit for "@ + f.id,
            )
        } else {
            s
        },
    }
}

/// The known settings of in-range settings are in range.
proof fn lemma_known_in_range(fs: Seq<DecodedFieldModel>)
    requires
        fields_in_range(fs),
    ensures
        fields_in_range(known_fields_of(fs)),
    decreases fs.len(),
{
    if fs.len() > 0 {
        assert(fields_in_range(fs.drop_last())) by {
            assert forall|i: int| 0 <= i < fs.drop_last().len() implies kind_in_range(
                #[trigger] fs.drop_last()[i].kind,
            ) && value_in_range(fs.drop_last()[i].value) by {
                assert(fs.drop_last()[i] == fs[i]);
            }
        }
        lemma_known_in_range(fs.drop_last());
        let k = known_fields_of(fs);
        if fs.last().known {
            assert forall|i: int| 0 <= i < k.len() implies kind_in_range(#[trigger] k[i].kind)
                && value_in_range(k[i].value) by {
                if i < k.len() - 1 {
                    assert(k[i] == known_fields_of(fs.drop_last())[i]);
                } else {
                    assert(k[i] == fs[fs.len() - 1]);
                }
            }
        }
    }
}

/// A small step of an in-range setting stays within `i32`, and any step
/// that is taken gives an in-range value.
proof fn lemma_step_in_range(f: DecodedFieldModel, v: FieldValueModel, delta: int)
    requires
        kind_in_range(f.kind),
        value_in_range(v),
    ensures
        -32768 <= delta <= 32768 ==> adjust_in_range(f.kind, v, delta),
        adjusted_value(f.kind, v, delta) matches Some(n) ==> value_in_range(n),
{
    match f.kind {
        SettingKindModel::Integer { min, max, step } => {
            if -32768 <= delta <= 32768 {
                assert(-32768 * 32768 <= delta * step <= 32768 * 32768) by (nonlinear_arith)
                    requires
                        -32768 <= delta <= 32768,
                        -32768 <= step <= 32768,
                ;
            }
        },
        SettingKindModel::Enum { options } => {
            if let FieldValueModel::Text(cur) = v {
                crate::text::lemma_first_index_found(options, cur);
            }
        },
        _ => {},
    }
}

/// Whether stepping the selected setting by `delta` stays within `i32`
/// arithmetic, wherever the step is taken at all: on the settings screen
/// with no apply modal, for an editable known setting.
pub open spec fn setting_step_fits(s: AppModel, delta: int) -> bool {
    !s.apply_modal_open && s.screen == Screen::Settings ==> match selected_known_of(s) {
        Some(f) => f.editable ==> adjust_in_range(f.kind, current_value_of(s, f), delta),
        None => true,
    }
}

/// Whether stepping the selected pads' colour by `delta` along the palette
/// stays within `i32` arithmetic, wherever the step is taken at all.
pub open spec fn pad_step_fits(s: AppModel, delta: int) -> bool {
    match s.pad_colors {
        None => true,
        Some(device) => pads_below(s.selected_pad_buttons).len() == 0 || {
            let first = least_pad(s.selected_pad_buttons) as int;
            match buffer_of(shown_colors(s, device), s.selected_color_target) {
                None => true,
                Some(buf) => 3 * first + 3 > buf.len() || i32::MIN <= index_or_zero(
                    palette(),
                    (buf[3 * first], buf[3 * first + 1], buf[3 * first + 2]),
                ) + delta <= i32::MAX,
            }
        },
    }
}

/// Whether the reducer can take the action without leaving `i32`
/// arithmetic: an adjustment's step must fit, on the pads or the setting
/// it applies to; every other action always can.
pub open spec fn step_fits(s: AppModel, a: Action) -> bool {
    match a {
        Action::AdjustSelected(delta) => if s.screen == Screen::PadColors {
            pad_step_fits(s, delta as int)
        } else {
            setting_step_fits(s, delta as int)
        },
        _ => true,
    }
}

/// Whether stepping the selected setting by `delta` stays within `i32`
/// arithmetic.
fn setting_step_ok(state: &AppState, delta: i32) -> (r: bool)
    ensures
        r == setting_step_fits(state@, delta as int),
{
    if state.apply_modal_open || state.screen != Screen::Settings {
        return true;
    }
    let field = match state.selected_known_field() {
        Some(f) => f,
        None => {
            return true;
        },
    };
    if !field.editable {
        return true;
    }
    let current = state.current_value_for(field);
    match &field.kind {
        SettingKind::Integer { min, max, step } => match current {
            FieldValue::Integer(v) => {
                let d = delta as i64;
                let st = *step as i64;
                assert(-0x8000_0000 * 0x8000_0000 <= d * st <= 0x8000_0000 * 0x8000_0000)
                    by (nonlinear_arith)
                    requires
                        -0x8000_0000 <= d < 0x8000_0000,
                        -0x8000_0000 <= st < 0x8000_0000,
                ;
                let product = d * st;
                let sum = v as i64 + product;
                *min <= *max && -0x8000_0000 <= product && product <= 0x7fff_ffff && -0x8000_0000
                    <= sum && sum <= 0x7fff_ffff
            },
            _ => true,
        },
        SettingKind::Enum { options } => {
            if options.len() > 0x7fff_ffff {
                return false;
            }
            match &current {
                FieldValue::Text(cur) => {
                    let index = crate::protocol::registry::option_position(options, cur) as i64;
                    let sum = index + delta as i64;
                    -0x8000_0000 <= sum && sum <= 0x7fff_ffff
                },
                _ => true,
            }
        },
        _ => true,
    }
}

/// Whether stepping the selected pads' colour by `delta` stays within
/// `i32` arithmetic.
fn pad_step_ok(state: &AppState, delta: i32) -> (r: bool)
    ensures
        r == pad_step_fits(state@, delta as int),
{
    let device = match &state.pad_colors {
        Some(c) => c,
        None => {
            return true;
        },
    };
    let targets = targeted_pad_buttons(state);
    if targets.len() == 0 {
        return true;
    }
    match shown_color(&state.staged_pad_colors, device, state.selected_color_target, targets[0]) {
        None => true,
        Some(c) => {
            let palette = palette_colors();
            let index = palette_index(&palette, c) as i64;
            let sum = index + delta as i64;
            -0x8000_0000 <= sum && sum <= 0x7fff_ffff
        },
    }
}

/// Whether the reducer can take `action` without leaving `i32` arithmetic.
pub fn step_fits_now(state: &AppState, action: Action) -> (r: bool)
    ensures
        r == step_fits(state@, action),
{
    match action {
        Action::AdjustSelected(delta) => if state.screen == Screen::PadColors {
            pad_step_ok(state, delta)
        } else {
            setting_step_ok(state, delta)
        },
        _ => true,
    }
}

/// Steps the selected setting and stages the result.
fn stage_value_change(state: &mut AppState, activate: bool, delta: i32)
    requires
        state_wf(old(state)@),
        activate || setting_step_fits(old(state)@, delta as int),
    ensures
        final(state)@ == value_change_applied(
            old(state)@,
            if activate {
                1
            } else {
                delta as int
            },
        ),
        state_wf(final(state)@),
{
    if state.apply_modal_open || state.screen != Screen::Settings {
        return;
    }
    let field = match state.selected_known_field() {
        Some(f) => f.clone(),
        None => {
            return;
        },
    };
    if !field.editable {
        let msg = concat2(field.label.as_str(), " is not editable yet.");
        state.set_status(msg.as_str());
        return;
    }
    let current = state.current_value_for(&field);
    proof {
        let s = old(state)@;
        lemma_known_in_range(s.snapshot.unwrap().fields);
        let k = known_of(s);
        assert(k[s.selected_setting_idx as int] == field@);
        assert(value_in_range(current@));
        lemma_step_in_range(field@, current@, if activate { 1 } else { delta as int });
    }
    let next = if activate {
        field.kind.activate(&current)
    } else {
        field.kind.adjust(&current, delta)
    };
    let next = match next {
        Some(v) => v,
        None => {
            let msg = concat2(field.label.as_str(), " cannot be adjusted from the TUI yet.");
            state.set_status(msg.as_str());
            return;
        },
    };
    if next.equals(&field.value) {
        let _ = state.staged_edits.remove(&field.id);
        let msg = concat3("Reverted ", field.label.as_str(), " to device value.");
        state.set_status(msg.as_str());
        let event = concat2("Reverted ", field.label.as_str());
        state.push_event(event.as_str());
    } else {
        let shown = next.display_text();
        state.staged_edits.insert(field.id.clone(), next);
        let mut msg = concat3("Staged ", field.label.as_str(), " = ");
        msg.append(shown.as_str());
        state.set_status(msg.as_str());
        let mut event = concat3("staged ", field.id.as_str(), " = ");
        event.append(shown.as_str());
        state.push_event(event.as_str());
    }
}

/// Drops the staged edit of the selected setting.
fn undo_current_field(state: &mut AppState)
    requires
        state_wf(old(state)@),
    ensures
        final(state)@ == field_edit_undone(old(state)@),
        state_wf(final(state)@),
{
    let field = match state.selected_known_field() {
        Some(f) => f.clone(),
        None => {
            return;
        },
    };
    if state.staged_edits.remove(&field.id).is_none() {
        assert(old(state)@.staged_edits.remove(field.id@) =~= old(state)@.staged_edits);
        assert(state@ == old(state)@);
    } else {
        let msg = concat3("Removed staged edit for ", field.label.as_str(), ".");
        state.set_status(msg.as_str());
        let event = concat2("Removed staged edit for ", field.id.as_str());
        state.push_event(event.as_str());
    }
}


/// The colours that pad colour edits cycle through.
pub open spec fn palette() -> Seq<(u8, u8, u8)> {
    seq![
        (127u8, 0u8, 0u8),
        (105, 31, 0),
        (84, 66, 0),
        (66, 84, 0),
        (0, 127, 0),
        (0, 79, 79),
        (0, 0, 127),
        (66, 18, 84),
        (95, 0, 47),
        (63, 63, 63),
        (63, 0, 0),
        (52, 15, 0),
        (42, 31, 0),
        (31, 42, 0),
        (0, 63, 0),
        (0, 39, 39),
        (0, 0, 63),
        (34, 7, 44),
        (47, 0, 23),
        (0, 0, 0),
    ]
}

/// The colours that pad colour edits cycle through.
fn palette_colors() -> (r: Vec<(u8, u8, u8)>)
    ensures
        r@ == palette(),
{
    let r = vec![
        (127u8, 0u8, 0u8),
        (105, 31, 0),
        (84, 66, 0),
        (66, 84, 0),
        (0, 127, 0),
        (0, 79, 79),
        (0, 0, 127),
        (66, 18, 84),
        (95, 0, 47),
        (63, 63, 63),
        (63, 0, 0),
        (52, 15, 0),
        (42, 31, 0),
        (31, 42, 0),
        (0, 63, 0),
        (0, 39, 39),
        (0, 0, 63),
        (34, 7, 44),
        (47, 0, 23),
        (0, 0, 0),
    ];
    assert(r@ =~= palette());
    r
}

/// The selected pads that lie on the grid.
pub open spec fn pads_below(sel: Set<usize>) -> Set<usize> {
    sel.filter(|b: usize| b < 128)
}

/// The lowest selected pad on the grid.
pub open spec fn least_pad(sel: Set<usize>) -> usize {
    choose|b: usize| pads_below(sel).contains(b) && forall|c: usize| #[trigger]
        pads_below(sel).contains(c) ==> b <= c
}

/// The buffer a colour target edits.
pub open spec fn buffer_of(c: PadColorsModel, t: ColorTarget) -> Option<Seq<u8>> {
    match t {
        ColorTarget::Inactive => c.inactive,
        ColorTarget::Active => c.active,
    }
}

/// `c` with the buffer of target `t` replaced.
pub open spec fn with_buffer(c: PadColorsModel, t: ColorTarget, b: Option<Seq<u8>>) -> PadColorsModel {
    match t {
        ColorTarget::Inactive => PadColorsModel { inactive: b, ..c },
        ColorTarget::Active => PadColorsModel { active: b, ..c },
    }
}

/// The `k`-th component of a colour.
pub open spec fn component(rgb: (u8, u8, u8), k: int) -> u8 {
    if k == 0 {
        rgb.0
    } else if k == 1 {
        rgb.1
    } else {
        rgb.2
    }
}

/// `buf` with every selected pad that the buffer holds whole set to `rgb`.
pub open spec fn painted(buf: Seq<u8>, sel: Set<usize>, rgb: (u8, u8, u8)) -> Seq<u8> {
    Seq::new(
        buf.len(),
        |i: int|
            if sel.contains((i / 3) as usize) && 3 * (i / 3) + 2 < buf.len() {
                component(rgb, i % 3)
            } else {
                buf[i]
            },
    )
}

/// `staged` with every selected pad that both buffers hold whole copied
/// back from `device`.
pub open spec fn restored(staged: Seq<u8>, device: Seq<u8>, sel: Set<usize>) -> Seq<u8> {
    Seq::new(
        staged.len(),
        |i: int|
            if sel.contains((i / 3) as usize) && 3 * (i / 3) + 3 <= device.len() && 3 * (i / 3) + 3
                <= staged.len() {
                device[i]
            } else {
                staged[i]
            },
    )
}

/// A colour component doubled for display, saturating at 255.
pub open spec fn doubled(x: u8) -> u8 {
    if 2 * x > 255 {
        255
    } else {
        (2 * x) as u8
    }
}

/// The status after pads were given colour `rgb`.
pub open spec fn staged_color_status(t: ColorTarget, n: nat, rgb: (u8, u8, u8)) -> Seq<char> {
    "Staged "@ + target_label(t) + " color for "@ + dec_chars(n) + " pad(s) = #"@ + hex2(
        doubled(rgb.0),
    ) + hex2(doubled(rgb.1)) + hex2(doubled(rgb.2))
}

/// `s` after the selected pads are stepped `delta` colours along the palette
/// from the colour of the lowest selected pad, in the edited buffer. The
/// edit is staged on a copy of the device's buffers; when the staged buffers
/// come out equal to the device's, nothing stays staged.
pub open spec fn pad_color_staged(s: AppModel, delta: int) -> AppModel {
    match s.pad_colors {
        None => with_status(s, "Pad color buffers are not loaded yet."@),
        Some(device) => if pads_below(s.selected_pad_buttons).len() == 0 {
            with_status(s, "Select one or more pads before changing colors."@)
        } else {
            pad_color_from(s, device, delta)
        },
    }
}

/// The buffers the pad screen shows: the staged ones, else the device's.
pub open spec fn shown_colors(s: AppModel, device: PadColorsModel) -> PadColorsModel {
    match s.staged_pad_colors {
        Some(c) => c,
        None => device,
    }
}

/// The palette colour `delta` steps from the colour of pad `first` in `buf`
/// (an unlisted colour counts as the first palette entry).
pub open spec fn next_color(buf: Seq<u8>, first: int, delta: int) -> (u8, u8, u8) {
    let cur = (buf[3 * first], buf[3 * first + 1], buf[3 * first + 2]);
    palette()[(index_or_zero(palette(), cur) + delta) % 20]
}

/// `s` after the colour step, once the selection is known to hold pads.
pub open spec fn pad_color_from(s: AppModel, device: PadColorsModel, delta: int) -> AppModel {
    let sel = pads_below(s.selected_pad_buttons);
    let t = s.selected_color_target;
    let first = least_pad(s.selected_pad_buttons) as int;
    let shown = shown_colors(s, device);
    match buffer_of(shown, t) {
        None => with_status(s, "Selected color buffer is not loaded yet."@),
        Some(buf) => if 3 * first + 3 > buf.len() {
            with_status(s, "Selected color buffer is not loaded yet."@)
        } else {
            let next = next_color(buf, first, delta);
            pad_color_result(s, device, with_buffer(shown, t, Some(painted(buf, sel, next))), sel.len(), next)
        },
    }
}

/// `s` once `staged` holds the edited buffers: nothing stays staged when
/// they equal the device's.
pub open spec fn pad_color_result(
    s: AppModel,
    device: PadColorsModel,
    staged: PadColorsModel,
    n: nat,
    next: (u8, u8, u8),
) -> AppModel {
    let t = s.selected_color_target;
    if staged == device {
        with_event(
            with_status(AppModel { staged_pad_colors: None, ..s }, "Reverted staged pad color edits."@),
            "Reverted staged pad color edits."@,
        )
    } else {
        with_event(
            with_status(
                AppModel { staged_pad_colors: Some(staged), ..s },
                staged_color_status(t, n, next),
            ),
            "staged "@ + target_label(t) + " color for "@ + dec_chars(n) + " pad(s)"@,
        )
    }
}

/// `s` after the staged colours of the selected pads are set back to the
/// device's; when nothing is left staged, the staged buffers are dropped.
pub open spec fn pad_color_undone(s: AppModel) -> AppModel {
    let sel = pads_below(s.selected_pad_buttons);
    let t = s.selected_color_target;
    match s.pad_colors {
        None => s,
        Some(device) => if sel.len() == 0 {
            with_status(s, "Select one or more pads before undoing colors."@)
        } else {
            match s.staged_pad_colors {
                None => s,
                Some(staged) => match (buffer_of(device, t), buffer_of(staged, t)) {
                    (Some(db), Some(sb)) => {
                        let next = with_buffer(staged, t, Some(restored(sb, db, sel)));
                        let msg = "Removed staged "@ + target_label(t) + " color for "@ + dec_chars(
                            sel.len(),
                        ) + " pad(s)"@;
                        with_event(
                            with_status(
                                AppModel {
                                    staged_pad_colors: if next == device {
                                        None
                                    } else {
                                        Some(next)
                                    },
                                    ..s
                                },
                                msg + "."@,
                            ),
                            msg,
                        )
                    },
                    _ => s,
                },
            }
        },
    }
}

/// The selected pads on the grid, in increasing order, and facts about them.
fn targeted_pad_buttons(state: &AppState) -> (r: Vec<usize>)
    ensures
        forall|i: int, j: int| 0 <= i < j < r@.len() ==> r@[i] < r@[j],
        forall|b: usize| #[trigger] r@.contains(b) <==> pads_below(state@.selected_pad_buttons).contains(b),
        forall|i: int| 0 <= i < r@.len() ==> r@[i] < 128,
        r@.len() == pads_below(state@.selected_pad_buttons).len(),
        r@.len() > 0 ==> r@[0] == least_pad(state@.selected_pad_buttons),
        pads_below(state@.selected_pad_buttons).finite(),
{
    let r = pads_in_order(&state.selected_pad_buttons);
    proof {
        let sel = pads_below(state@.selected_pad_buttons);
        assert(r@.no_duplicates()) by {
            assert forall|i: int, j: int| 0 <= i < r@.len() && 0 <= j < r@.len() && i != j implies r@[i] != r@[j] by {
                if i < j {
                    assert(r@[i] < r@[j]);
                } else {
                    assert(r@[j] < r@[i]);
                }
            }
        }
        r@.unique_seq_to_set();
        assert(r@.to_set() =~= sel) by {
            assert forall|b: usize| r@.to_set().contains(b) <==> sel.contains(b) by {
                assert(r@.contains(b) <==> sel.contains(b));
            }
        }
        if r@.len() > 0 {
            let b = r@[0];
            assert(r@.contains(b));
            assert(sel.contains(b));
            assert forall|c: usize| #[trigger] sel.contains(c) implies b <= c by {
                assert(r@.contains(c));
                let k = r@.index_of(c);
                if k > 0 {
                    assert(r@[0] < r@[k]);
                }
            }
            let m = least_pad(state@.selected_pad_buttons);
            assert(sel.contains(m) && forall|c: usize| #[trigger] sel.contains(c) ==> m <= c);
            assert(m <= b && b <= m);
        }
    }
    r
}

/// The index of a colour in the palette, or 0 when it is not there.
fn palette_index(palette: &Vec<(u8, u8, u8)>, color: (u8, u8, u8)) -> (r: usize)
    ensures
        r == index_or_zero(palette@, color),
        palette@.len() > 0 ==> r < palette@.len(),
{
    let mut i: usize = 0;
    while i < palette.len()
        invariant
            i <= palette@.len(),
            forall|j: int| 0 <= j < i ==> palette@[j] != color,
        decreases palette@.len() - i,
    {
        let entry = palette[i];
        if entry.0 == color.0 && entry.1 == color.1 && entry.2 == color.2 {
            proof {
                assert(palette@[i as int] == color);
                crate::text::lemma_first_index(palette@, color, i as int);
            }
            return i;
        }
        i = i + 1;
    }
    proof {
        crate::text::lemma_first_index(palette@, color, i as int);
    }
    0
}


/// A colour component doubled for display, saturating at 255.
fn doubled_component(x: u8) -> (r: u8)
    ensures
        r == doubled(x),
{
    if x > 127 {
        255
    } else {
        x * 2
    }
}

/// The pads of `targets[..k]`, as a set.
pub open spec fn first_targets(targets: Seq<usize>, k: int) -> Set<usize> {
    Set::new(|b: usize| targets.subrange(0, k).contains(b))
}

/// Sets every listed pad that the buffer holds whole to `rgb`.
fn paint_pads(buffer: &mut Vec<u8>, targets: &Vec<usize>, rgb: (u8, u8, u8))
    requires
        forall|i: int, j: int| 0 <= i < j < targets@.len() ==> targets@[i] < targets@[j],
        forall|i: int| 0 <= i < targets@.len() ==> targets@[i] < 128,
    ensures
        final(buffer)@ == painted(old(buffer)@, first_targets(targets@, targets@.len() as int), rgb),
{
    let ghost orig = buffer@;
    assert(buffer@ =~= painted(orig, first_targets(targets@, 0), rgb));
    for k in 0..targets.len()
        invariant
            buffer@.len() == orig.len(),
            forall|i: int, j: int| 0 <= i < j < targets@.len() ==> targets@[i] < targets@[j],
            forall|i: int| 0 <= i < targets@.len() ==> targets@[i] < 128,
            buffer@ == painted(orig, first_targets(targets@, k as int), rgb),
    {
        let b = targets[k];
        let start = b * 3;
        let ghost before = buffer@;
        proof {
            assert(!targets@.subrange(0, k as int).contains(b)) by {
                if targets@.subrange(0, k as int).contains(b) {
                    let j = targets@.subrange(0, k as int).index_of(b);
                    assert(targets@[j] == b);
                    assert(targets@[j] < targets@[k as int]);
                }
            }
            assert forall|c: usize| first_targets(targets@, k as int + 1).contains(c) <==> (
            first_targets(targets@, k as int).contains(c) || c == b) by {
                assert(targets@.subrange(0, k as int + 1) =~= targets@.subrange(0, k as int).push(b));
                crate::app::state::lemma_push_contains(targets@.subrange(0, k as int), b, c);
            }
            assert(targets@.subrange(0, k as int + 1)[k as int] == b);
            assert(first_targets(targets@, k as int + 1).contains(b));
        }
        if start + 2 >= buffer.len() {
            assert forall|i: int| 0 <= i < buffer@.len() implies buffer@[i] == painted(
                orig,
                first_targets(targets@, k as int + 1),
                rgb,
            )[i] by {
                if (i / 3) as usize == b {
                    assert(3 * (i / 3) + 2 >= buffer@.len());
                }
            }
            assert(buffer@ =~= painted(orig, first_targets(targets@, k as int + 1), rgb));
        } else {
            buffer.set(start, rgb.0);
            buffer.set(start + 1, rgb.1);
            buffer.set(start + 2, rgb.2);
            assert forall|i: int| 0 <= i < buffer@.len() implies buffer@[i] == painted(
                orig,
                first_targets(targets@, k as int + 1),
                rgb,
            )[i] by {
                let c = (i / 3) as usize;
                assert(first_targets(targets@, k as int + 1).contains(c) <==> (first_targets(
                    targets@,
                    k as int,
                ).contains(c) || c == b));
                assert(before[i] == painted(orig, first_targets(targets@, k as int), rgb)[i]);
                if i == start {
                    assert(i / 3 == b && i % 3 == 0);
                } else if i == start + 1 {
                    assert(i / 3 == b && i % 3 == 1);
                } else if i == start + 2 {
                    assert(i / 3 == b && i % 3 == 2);
                } else {
                    assert(buffer@[i] == before[i]);
                    assert((i / 3) as usize != b);
                }
            }
            assert(buffer@ =~= painted(orig, first_targets(targets@, k as int + 1), rgb));
        }
    }
}

/// Steps the colour of the selected pads along the palette.
fn stage_pad_color_adjustment(state: &mut AppState, delta: i32)
    requires
        state_wf(old(state)@),
        pad_step_fits(old(state)@, delta as int),
    ensures
        final(state)@ == pad_color_staged(old(state)@, delta as int),
        state_wf(final(state)@),
{
    let device_colors = match &state.pad_colors {
        Some(c) => c.clone(),
        None => {
            state.set_status("Pad color buffers are not loaded yet.");
            return;
        },
    };
    let targets = targeted_pad_buttons(state);
    if targets.len() == 0 {
        state.set_status("Select one or more pads before changing colors.");
        return;
    }
    stage_from_shown(state, &device_colors, &targets, delta);
}

/// The colour of pad `first` in the shown buffer of `target`, if that
/// buffer holds the pad whole.
fn shown_color(
    staged: &Option<PadColorSnapshot>,
    device: &PadColorSnapshot,
    target: ColorTarget,
    first: usize,
) -> (r: Option<(u8, u8, u8)>)
    requires
        first < 128,
    ensures
        ({
            let shown = match staged.deep_view() {
                Some(c) => c,
                None => device@,
            };
            match buffer_of(shown, target) {
                None => r is None,
                Some(buf) => if 3 * first + 3 > buf.len() {
                    r is None
                } else {
                    r == Some((buf[3 * first], buf[3 * first + 1], buf[3 * first + 2]))
                },
            }
        }),
{
    let shown = match staged {
        Some(c) => c,
        None => device,
    };
    let buf = match target {
        ColorTarget::Inactive => &shown.inactive,
        ColorTarget::Active => &shown.active,
    };
    let start = first * 3;
    match buf {
        Some(b) => {
            if start + 3 <= b.len() {
                Some((b[start], b[start + 1], b[start + 2]))
            } else {
                None
            }
        },
        None => None,
    }
}

/// Paints the target buffer of `base`, which must be loaded.
fn paint_target(base: PadColorSnapshot, target: ColorTarget, targets: &Vec<usize>, rgb: (u8, u8, u8)) -> (r:
    PadColorSnapshot)
    requires
        buffer_of(base@, target) is Some,
        forall|i: int, j: int| 0 <= i < j < targets@.len() ==> targets@[i] < targets@[j],
        forall|i: int| 0 <= i < targets@.len() ==> targets@[i] < 128,
    ensures
        r@ == with_buffer(
            base@,
            target,
            Some(
                painted(
                    buffer_of(base@, target).unwrap(),
                    first_targets(targets@, targets@.len() as int),
                    rgb,
                ),
            ),
        ),
{
    let mut staged = base;
    match target {
        ColorTarget::Inactive => {
            let mut buffer = staged.inactive.take().unwrap();
            assert(buffer.deep_view() =~= buffer@);
            paint_pads(&mut buffer, targets, rgb);
            assert(buffer.deep_view() =~= buffer@);
            staged.inactive = Some(buffer);
        },
        ColorTarget::Active => {
            let mut buffer = staged.active.take().unwrap();
            assert(buffer.deep_view() =~= buffer@);
            paint_pads(&mut buffer, targets, rgb);
            assert(buffer.deep_view() =~= buffer@);
            staged.active = Some(buffer);
        },
    }
    staged
}

/// The colour step once the selection is known to hold pads.
#[verifier::rlimit(40)]
fn stage_from_shown(
    state: &mut AppState,
    device_colors: &PadColorSnapshot,
    targets: &Vec<usize>,
    delta: i32,
)
    requires
        state_wf(old(state)@),
        pad_step_fits(old(state)@, delta as int),
        old(state)@.pad_colors == Some(device_colors@),
        targets@.len() > 0,
        forall|i: int, j: int| 0 <= i < j < targets@.len() ==> targets@[i] < targets@[j],
        forall|b: usize| #[trigger] targets@.contains(b) <==> pads_below(old(state)@.selected_pad_buttons).contains(b),
        forall|i: int| 0 <= i < targets@.len() ==> targets@[i] < 128,
        targets@.len() == pads_below(old(state)@.selected_pad_buttons).len(),
        targets@[0] == least_pad(old(state)@.selected_pad_buttons),
    ensures
        final(state)@ == pad_color_from(old(state)@, device_colors@, delta as int),
        state_wf(final(state)@),
{
    let first_button = targets[0];
    let target = state.selected_color_target;
    let current = match shown_color(&state.staged_pad_colors, device_colors, target, first_button) {
        Some(c) => c,
        None => {
            state.set_status("Selected color buffer is not loaded yet.");
            return;
        },
    };
    let palette = palette_colors();
    let current_index = palette_index(&palette, current) as i32;
    let next_index = crate::protocol::registry::euclid_mod(current_index + delta, 20) as usize;
    let next = palette[next_index];
    let base = match state.staged_pad_colors.take() {
        Some(c) => c,
        None => device_colors.clone(),
    };
    let staged = paint_target(base, target, targets, next);
    proof {
        assert(first_targets(targets@, targets@.len() as int) =~= pads_below(
            old(state)@.selected_pad_buttons,
        )) by {
            assert(targets@.subrange(0, targets@.len() as int) =~= targets@);
        }
    }
    finish_pad_color_edit(state, device_colors, staged, targets.len() as u64, next);
}

/// Stores edited buffers, or drops them when they equal the device's.
fn finish_pad_color_edit(
    state: &mut AppState,
    device_colors: &PadColorSnapshot,
    staged: PadColorSnapshot,
    count: u64,
    next: (u8, u8, u8),
)
    ensures
        final(state)@ == pad_color_result(old(state)@, device_colors@, staged@, count as nat, next),
{
    let label = state.selected_color_target.label();
    if device_colors.same_as(&staged) {
        state.staged_pad_colors = None;
        state.set_status("Reverted staged pad color edits.");
        state.push_event("Reverted staged pad color edits.");
    } else {
        state.staged_pad_colors = Some(staged);
        let mut msg = concat3("Staged ", label, " color for ");
        crate::text::push_decimal(&mut msg, count);
        msg.append(" pad(s) = #");
        crate::text::push_hex2(&mut msg, doubled_component(next.0));
        crate::text::push_hex2(&mut msg, doubled_component(next.1));
        crate::text::push_hex2(&mut msg, doubled_component(next.2));
        state.set_status(msg.as_str());
        let mut event = concat3("staged ", label, " color for ");
        crate::text::push_decimal(&mut event, count);
        event.append(" pad(s)");
        state.push_event(event.as_str());
    }
}


/// Copies every listed pad that both buffers hold whole from `device`.
fn restore_pads(buffer: &mut Vec<u8>, device: &Vec<u8>, targets: &Vec<usize>)
    requires
        forall|i: int, j: int| 0 <= i < j < targets@.len() ==> targets@[i] < targets@[j],
        forall|i: int| 0 <= i < targets@.len() ==> targets@[i] < 128,
    ensures
        final(buffer)@ == restored(old(buffer)@, device@, first_targets(targets@, targets@.len() as int)),
{
    let ghost orig = buffer@;
    assert(buffer@ =~= restored(orig, device@, first_targets(targets@, 0)));
    for k in 0..targets.len()
        invariant
            buffer@.len() == orig.len(),
            forall|i: int, j: int| 0 <= i < j < targets@.len() ==> targets@[i] < targets@[j],
            forall|i: int| 0 <= i < targets@.len() ==> targets@[i] < 128,
            buffer@ == restored(orig, device@, first_targets(targets@, k as int)),
    {
        let b = targets[k];
        let start = b * 3;
        let ghost before = buffer@;
        proof {
            assert(!targets@.subrange(0, k as int).contains(b)) by {
                if targets@.subrange(0, k as int).contains(b) {
                    let j = targets@.subrange(0, k as int).index_of(b);
                    assert(targets@[j] == b);
                    assert(targets@[j] < targets@[k as int]);
                }
            }
            assert forall|c: usize| first_targets(targets@, k as int + 1).contains(c) <==> (
            first_targets(targets@, k as int).contains(c) || c == b) by {
                assert(targets@.subrange(0, k as int + 1) =~= targets@.subrange(0, k as int).push(b));
                crate::app::state::lemma_push_contains(targets@.subrange(0, k as int), b, c);
            }
            assert(targets@.subrange(0, k as int + 1)[k as int] == b);
            assert(first_targets(targets@, k as int + 1).contains(b));
        }
        if start + 3 <= device.len() && start + 3 <= buffer.len() {
            buffer.set(start, device[start]);
            buffer.set(start + 1, device[start + 1]);
            buffer.set(start + 2, device[start + 2]);
        }
        assert forall|i: int| 0 <= i < buffer@.len() implies buffer@[i] == restored(
            orig,
            device@,
            first_targets(targets@, k as int + 1),
        )[i] by {
            let c = (i / 3) as usize;
            assert(first_targets(targets@, k as int + 1).contains(c) <==> (first_targets(
                targets@,
                k as int,
            ).contains(c) || c == b));
            assert(before[i] == restored(orig, device@, first_targets(targets@, k as int))[i]);
            if i == start {
                assert(i / 3 == b);
            } else if i == start + 1 {
                assert(i / 3 == b);
            } else if i == start + 2 {
                assert(i / 3 == b);
            } else {
                let bb = b as int;
                assert(i / 3 != bb) by (nonlinear_arith)
                    requires
                        i != 3 * bb,
                        i != 3 * bb + 1,
                        i != 3 * bb + 2,
                        i >= 0,
                ;
            }
        }
        assert(buffer@ =~= restored(orig, device@, first_targets(targets@, k as int + 1)));
    }
}

/// Sets the staged colours of the selected pads back to the device's.
#[verifier::rlimit(40)]
fn undo_current_pad_color(state: &mut AppState)
    requires
        state_wf(old(state)@),
    ensures
        final(state)@ == pad_color_undone(old(state)@),
        state_wf(final(state)@),
{
    let device_colors = match &state.pad_colors {
        Some(c) => c.clone(),
        None => {
            return;
        },
    };
    let targets = targeted_pad_buttons(state);
    if targets.len() == 0 {
        state.set_status("Select one or more pads before undoing colors.");
        return;
    }
    let mut staged = match &state.staged_pad_colors {
        Some(c) => c.clone(),
        None => {
            return;
        },
    };
    let target = state.selected_color_target;
    let (device_buffer, taken) = match target {
        ColorTarget::Inactive => (&device_colors.inactive, staged.inactive.take()),
        ColorTarget::Active => (&device_colors.active, staged.active.take()),
    };
    let (device_buffer, mut buffer) = match (device_buffer, taken) {
        (Some(d), Some(b)) => (d, b),
        _ => {
            return;
        },
    };
    assert(buffer.deep_view() =~= buffer@);
    assert(device_buffer.deep_view() =~= device_buffer@);
    restore_pads(&mut buffer, device_buffer, &targets);
    assert(buffer.deep_view() =~= buffer@);
    match target {
        ColorTarget::Inactive => staged.inactive = Some(buffer),
        ColorTarget::Active => staged.active = Some(buffer),
    }
    proof {
        assert(first_targets(targets@, targets@.len() as int) =~= pads_below(
            old(state)@.selected_pad_buttons,
        )) by {
            assert(targets@.subrange(0, targets@.len() as int) =~= targets@);
        }
    }
    if device_colors.same_as(&staged) {
        state.staged_pad_colors = None;
    } else {
        state.staged_pad_colors = Some(staged);
    }
    let label = target.label();
    let mut event = concat3("Removed staged ", label, " color for ");
    crate::text::push_decimal(&mut event, targets.len() as u64);
    event.append(" pad(s)");
    let msg = concat2(event.as_str(), ".");
    state.set_status(msg.as_str());
    state.push_event(event.as_str());
}


/// The other colour target.
pub open spec fn other_target(t: ColorTarget) -> ColorTarget {
    match t {
        ColorTarget::Inactive => ColorTarget::Active,
        ColorTarget::Active => ColorTarget::Inactive,
    }
}

/// `s` after activation: on the pad screen the edited buffer switches, else
/// the selected setting steps once.
pub open spec fn target_activated(s: AppModel) -> AppModel {
    if s.screen == Screen::PadColors {
        let t = other_target(s.selected_color_target);
        with_status(
            AppModel { selected_color_target: t, ..s },
            "Pad color target set to "@ + target_label(t) + "."@,
        )
    } else {
        value_change_applied(s, 1)
    }
}

/// `s` after an adjustment by `delta`: pad colours on the pad screen, else
/// the selected setting.
pub open spec fn adjustment_staged(s: AppModel, delta: int) -> AppModel {
    if s.screen == Screen::PadColors {
        pad_color_staged(s, delta)
    } else {
        value_change_applied(s, delta)
    }
}

/// `s` after an undo: pad colours on the pad screen, else the selected
/// setting's staged edit.
pub open spec fn undo_applied(s: AppModel) -> AppModel {
    if s.screen == Screen::PadColors {
        pad_color_undone(s)
    } else {
        field_edit_undone(s)
    }
}

/// `s` after extending the pad selection by `(dx, dy)` (pad screen only):
/// the pad under the cursor is selected, the cursor moves, and the pad it
/// lands on is selected too. This is the editor's own rule for shift and a
/// direction key; elsewhere the action does nothing.
pub open spec fn selection_extended(s: AppModel, dx: int, dy: int) -> AppModel {
    if s.screen != Screen::PadColors {
        s
    } else {
        let s1 = AppModel {
            selected_pad_buttons: s.selected_pad_buttons.insert(s.selected_pad_button_idx),
            ..s
        };
        let s2 = pad_cursor_moved(s1, dx, dy);
        let sel = s2.selected_pad_buttons.insert(s2.selected_pad_button_idx);
        with_status(AppModel { selected_pad_buttons: sel, ..s2 }, selection_status(sel.len()))
    }
}

/// `s` after everything staged is dropped.
pub open spec fn all_discarded(s: AppModel) -> AppModel {
    with_event(
        with_status(
            AppModel {
                staged_edits: Map::empty(),
                staged_pad_colors: None,
                apply_modal_open: false,
                ..s
            },
            "Discarded all staged edits."@,
        ),
        "Discarded all staged edits."@,
    )
}

/// What an action does to the state, before the mode follows and the
/// cursors are brought back into range. Device commands do nothing here.
pub open spec fn action_applied(s: AppModel, a: Action) -> AppModel {
    let no_modal = !s.apply_modal_open && !s.help_modal_open;
    match a {
        Action::Tick => s,
        Action::Quit => AppModel { should_quit: true, ..s },
        Action::NextScreen => if no_modal {
            AppModel { screen: screen_at((screen_index(s.screen) + 1) % 5), ..s }
        } else {
            s
        },
        Action::PrevScreen => if no_modal {
            AppModel { screen: screen_at((screen_index(s.screen) + 4) % 5), ..s }
        } else {
            s
        },
        Action::MoveLeft => horizontal_moved(s, -1),
        Action::MoveRight => horizontal_moved(s, 1),
        Action::MoveUp => selection_moved(s, -1),
        Action::MoveDown => selection_moved(s, 1),
        Action::AdjustSelected(delta) => adjustment_staged(s, delta as int),
        Action::ActivateSelected => target_activated(s),
        Action::ShowPacketLog => AppModel { screen: Screen::PacketLog, ..s },
        Action::ToggleApplyModal => if dirty_count_of(s) > 0 {
            AppModel { apply_modal_open: !s.apply_modal_open, ..s }
        } else {
            with_status(s, "No staged changes to apply."@)
        },
        Action::CancelModal => if s.apply_modal_open {
            AppModel { apply_modal_open: false, ..s }
        } else if s.help_modal_open {
            AppModel { help_modal_open: false, ..s }
        } else {
            s
        },
        Action::TogglePadSelection => pad_selection_toggled(s),
        Action::TogglePadBank => pad_bank_toggled(s),
        Action::ClearPadSelection => pad_selection_cleared(s),
        Action::UndoField => undo_applied(s),
        Action::DiscardAll => all_discarded(s),
        Action::ShowHelp => AppModel { help_modal_open: true, ..s },
        Action::ExtendPadSelection(dx, dy) => selection_extended(s, dx as int, dy as int),
        Action::RefreshDevices | Action::ConnectSelected | Action::Disconnect
        | Action::RefreshConfig | Action::ConfirmApply => s,
    }
}

/// The state after an action: its effect, then the mode follows the
/// connection and staged changes, then the cursors are brought into range.
pub open spec fn reduced(s: AppModel, a: Action) -> AppModel {
    normalized(synced(action_applied(s, a)))
}

/// Activates the selection.
fn activate_selected(state: &mut AppState)
    requires
        state_wf(old(state)@),
    ensures
        final(state)@ == target_activated(old(state)@),
        state_wf(final(state)@),
{
    if state.screen == Screen::PadColors {
        state.selected_color_target = state.selected_color_target.toggle();
        let msg = concat3("Pad color target set to ", state.selected_color_target.label(), ".");
        state.set_status(msg.as_str());
        return;
    }
    stage_value_change(state, true, 1);
}

/// Adjusts the selection by `delta`.
fn stage_adjustment(state: &mut AppState, delta: i32)
    requires
        state_wf(old(state)@),
        step_fits(old(state)@, Action::AdjustSelected(delta)),
    ensures
        final(state)@ == adjustment_staged(old(state)@, delta as int),
        state_wf(final(state)@),
{
    if state.screen == Screen::PadColors {
        stage_pad_color_adjustment(state, delta);
        return;
    }
    stage_value_change(state, false, delta);
}

/// Undoes the staged edit under the cursor.
fn undo_selected(state: &mut AppState)
    requires
        state_wf(old(state)@),
    ensures
        final(state)@ == undo_applied(old(state)@),
        state_wf(final(state)@),
{
    if state.screen == Screen::PadColors {
        undo_current_pad_color(state);
        return;
    }
    undo_current_field(state);
}

/// Extends the pad selection while moving the pad cursor.
fn extend_pad_selection(state: &mut AppState, dx: isize, dy: isize)
    requires
        state_wf(old(state)@),
    ensures
        final(state)@ == selection_extended(old(state)@, dx as int, dy as int),
{
    if state.screen != Screen::PadColors {
        return;
    }
    proof {
        crate::order::lemma_keys_ordered();
    }
    state.selected_pad_buttons.insert(state.selected_pad_button_idx);
    move_pad_cursor(state, dx, dy);
    state.selected_pad_buttons.insert(state.selected_pad_button_idx);
    let msg = with_number(
        "Selected ",
        state.selected_pad_buttons.len() as u64,
        " pad(s) for bulk color edits.",
    );
    state.set_status(msg.as_str());
}

/// Drops everything staged.
fn discard_all(state: &mut AppState)
    ensures
        final(state)@ == all_discarded(old(state)@),
{
    state.staged_edits.clear();
    state.staged_pad_colors = None;
    state.apply_modal_open = false;
    state.set_status("Discarded all staged edits.");
    state.push_event("Discarded all staged edits.");
}

/// The invariant without the conditions that bringing cursors into range
/// restores.
pub open spec fn wf_before_normalizing(s: AppModel) -> bool {
    &&& s.selected_pad_bank < 2
    &&& s.event_log.len() <= crate::app::state::event_log_limit()
    &&& s.snapshot matches Some(snap) ==> fields_in_range(snap.fields)
    &&& forall|k: Seq<char>| #[trigger] s.staged_edits.contains_key(k) ==> value_in_range(
        s.staged_edits[k],
    )
}

/// Following the mode and bringing the cursors into range restores the
/// invariant.
proof fn lemma_settle_wf(s: AppModel)
    requires
        wf_before_normalizing(s),
    ensures
        state_wf(normalized(synced(s))),
{
}

/// The effect of an action, before the mode follows and the cursors are
/// brought into range.
#[verifier::rlimit(60)]
fn apply_action(state: &mut AppState, action: Action)
    requires
        state_wf(old(state)@),
        step_fits(old(state)@, action),
    ensures
        final(state)@ == action_applied(old(state)@, action),
        wf_before_normalizing(final(state)@),
{
    match action {
        Action::Tick => {},
        Action::Quit => state.should_quit = true,
        Action::NextScreen => {
            if !state.apply_modal_open && !state.help_modal_open {
                state.screen = state.screen.next();
            }
        },
        Action::PrevScreen => {
            if !state.apply_modal_open && !state.help_modal_open {
                state.screen = state.screen.prev();
            }
        },
        Action::MoveLeft => move_horizontal(state, -1),
        Action::MoveRight => move_horizontal(state, 1),
        Action::MoveUp => move_selection(state, -1),
        Action::MoveDown => move_selection(state, 1),
        Action::AdjustSelected(delta) => stage_adjustment(state, delta),
        Action::ActivateSelected => activate_selected(state),
        Action::ShowPacketLog => state.screen = Screen::PacketLog,
        Action::ToggleApplyModal => {
            if state.dirty_count() > 0 {
                state.apply_modal_open = !state.apply_modal_open;
            } else {
                state.set_status("No staged changes to apply.");
            }
        },
        Action::CancelModal => {
            if state.apply_modal_open {
                state.apply_modal_open = false;
            } else if state.help_modal_open {
                state.help_modal_open = false;
            }
        },
        Action::TogglePadSelection => toggle_pad_selection(state),
        Action::TogglePadBank => toggle_pad_bank(state),
        Action::ClearPadSelection => clear_pad_selection(state),
        Action::UndoField => undo_selected(state),
        Action::DiscardAll => discard_all(state),
        Action::ShowHelp => state.help_modal_open = true,
        Action::ExtendPadSelection(dx, dy) => extend_pad_selection(state, dx, dy),
        Action::RefreshDevices | Action::ConnectSelected | Action::Disconnect
        | Action::RefreshConfig | Action::ConfirmApply => {},
    }
}

/// Applies an action to the state.
pub fn reduce(state: &mut AppState, action: Action)
    requires
        state_wf(old(state)@),
        step_fits(old(state)@, action),
    ensures
        final(state)@ == reduced(old(state)@, action),
        state_wf(final(state)@),
{
    apply_action(state, action);
    proof {
        lemma_settle_wf(state@);
    }
    sync_mode(state);
    state.normalize_selection();
}

/// Settling the mode and the cursors keeps the staged edits, the screen,
/// the modals and the selected setting.
proof fn lemma_settle_keeps_selection(x: AppModel)
    ensures
        normalized(synced(x)).staged_edits == x.staged_edits,
        normalized(synced(x)).screen == x.screen,
        normalized(synced(x)).apply_modal_open == x.apply_modal_open,
        selected_known_of(x) is Some ==> selected_known_of(normalized(synced(x))) == selected_known_of(
            x,
        ),
{
    let y = synced(x);
    assert(y.snapshot == x.snapshot);
    assert(y.selected_setting_idx == x.selected_setting_idx);
    assert(known_of(y) == known_of(x));
    let z = normalized(y);
    assert(z.snapshot == y.snapshot);
    assert(known_of(z) == known_of(y));
}

/// A setting step changes at most the selected setting's staged edit and
/// keeps what selects it.
proof fn lemma_step_touches_selected(s: AppModel, delta: int)
    requires
        selected_known_of(s) is Some,
    ensures
        value_change_applied(s, delta).staged_edits.remove(selected_known_of(s)->0.id)
            == s.staged_edits.remove(selected_known_of(s)->0.id),
        value_change_applied(s, delta).snapshot == s.snapshot,
        value_change_applied(s, delta).selected_setting_idx == s.selected_setting_idx,
        value_change_applied(s, delta).screen == s.screen,
        value_change_applied(s, delta).apply_modal_open == s.apply_modal_open,
{
    let f = selected_known_of(s)->0;
    let r = value_change_applied(s, delta);
    assert(r.staged_edits.remove(f.id) =~= s.staged_edits.remove(f.id));
}

/// Undoing a setting drops exactly its staged edit.
proof fn lemma_undo_drops_selected(s: AppModel)
    requires
        selected_known_of(s) is Some,
    ensures
        field_edit_undone(s).staged_edits == s.staged_edits.remove(selected_known_of(s)->0.id),
{
    let f = selected_known_of(s)->0;
    if !s.staged_edits.contains_key(f.id) {
        assert(s.staged_edits.remove(f.id) =~= s.staged_edits);
    }
}

/// What the reducer does with an adjustment and an undo on the settings
/// screen.
proof fn lemma_settings_actions(s: AppModel, delta: i32)
    requires
        s.screen == Screen::Settings,
    ensures
        reduced(s, Action::AdjustSelected(delta)) == normalized(
            synced(value_change_applied(s, delta as int)),
        ),
        reduced(s, Action::UndoField) == normalized(synced(field_edit_undone(s))),
{
}

/// Undoing right after a setting edit drops the edit: the staged edits are
/// those from before, less any for the selected setting.
pub proof fn law_undo_reverts_setting_edit(s: AppModel, delta: i32)
    requires
        s.screen == Screen::Settings,
        selected_known_of(s) is Some,
    ensures
        reduced(reduced(s, Action::AdjustSelected(delta)), Action::UndoField).staged_edits
            == s.staged_edits.remove(selected_known_of(s)->0.id),
{
    let f = selected_known_of(s)->0;
    let a1 = value_change_applied(s, delta as int);
    lemma_step_touches_selected(s, delta as int);
    assert(known_of(a1) == known_of(s));
    assert(selected_known_of(a1) == Some(f));
    lemma_settle_keeps_selection(a1);
    lemma_settings_actions(s, delta);
    let s1 = normalized(synced(a1));
    assert(selected_known_of(s1) == Some(f));
    lemma_settings_actions(s1, delta);
    lemma_undo_drops_selected(s1);
    lemma_settle_keeps_selection(field_edit_undone(s1));
}

/// After discarding, nothing is staged.
pub proof fn law_discard_leaves_nothing_staged(s: AppModel)
    ensures
        dirty_count_of(reduced(s, Action::DiscardAll)) == 0,
        !reduced(s, Action::DiscardAll).apply_modal_open,
{
    assert(reduced(s, Action::DiscardAll).staged_edits =~= Map::<Seq<char>, crate::protocol::registry::FieldValueModel>::empty());
}

/// Cancelling closes the apply modal when it is open, and otherwise the
/// help modal.
pub proof fn law_cancel_closes_modal(s: AppModel)
    ensures
        !reduced(s, Action::CancelModal).apply_modal_open,
        !s.apply_modal_open ==> !reduced(s, Action::CancelModal).help_modal_open,
        s.apply_modal_open ==> reduced(s, Action::CancelModal).help_modal_open == s.help_modal_open,
{
}

/// Undoing a colour on the pads it was given restores what undoing them
/// would have restored before: the paint leaves no trace; and pads painted
/// over the device's own colours come back to exactly the device's buffer.
pub proof fn law_undo_restores_painted_pads(
    buf: Seq<u8>,
    device: Seq<u8>,
    sel: Set<usize>,
    rgb: (u8, u8, u8),
)
    requires
        buf.len() == device.len(),
    ensures
        restored(painted(buf, sel, rgb), device, sel) == restored(buf, device, sel),
        restored(painted(device, sel, rgb), device, sel) == device,
{
    assert(restored(painted(buf, sel, rgb), device, sel) =~= restored(buf, device, sel));
    assert(restored(painted(device, sel, rgb), device, sel) =~= device);
}

/// Settling the mode and the cursors keeps the pad colour buffers, the
/// colour target and the screen, and keeps the same pads selected on the
/// grid.
proof fn lemma_settle_keeps_pads(x: AppModel)
    ensures
        normalized(synced(x)).pad_colors == x.pad_colors,
        normalized(synced(x)).staged_pad_colors == x.staged_pad_colors,
        normalized(synced(x)).selected_color_target == x.selected_color_target,
        normalized(synced(x)).screen == x.screen,
        pads_below(normalized(synced(x)).selected_pad_buttons) == pads_below(x.selected_pad_buttons),
{
    assert(pads_below(normalized(synced(x)).selected_pad_buttons) =~= pads_below(
        x.selected_pad_buttons,
    ));
}

/// What the reducer does with an adjustment and an undo on the pad screen.
#[verifier::rlimit(40)]
proof fn lemma_pad_actions(s: AppModel, delta: i32)
    requires
        s.screen == Screen::PadColors,
    ensures
        reduced(s, Action::AdjustSelected(delta)) == normalized(synced(pad_color_staged(s, delta as int))),
        reduced(s, Action::UndoField) == normalized(synced(pad_color_undone(s))),
{
}

/// A colour step from unstaged buffers keeps the device's buffers, the
/// target and the selection, and stages either nothing or the device's
/// buffers with the selected pads painted in the edited buffer.
proof fn lemma_pad_step_shape(s: AppModel, delta: int)
    requires
        s.staged_pad_colors is None,
    ensures
        pad_color_staged(s, delta).pad_colors == s.pad_colors,
        pad_color_staged(s, delta).selected_color_target == s.selected_color_target,
        pad_color_staged(s, delta).selected_pad_buttons == s.selected_pad_buttons,
        pad_color_staged(s, delta).staged_pad_colors is None || (exists|rgb: (u8, u8, u8)|
            #[trigger] painted_step(s, rgb, pad_color_staged(s, delta).staged_pad_colors)),
{
    if let Some(device) = s.pad_colors {
        let sel = pads_below(s.selected_pad_buttons);
        let t = s.selected_color_target;
        if sel.len() > 0 {
            assert(shown_colors(s, device) == device);
            if let Some(db) = buffer_of(device, t) {
                let first = least_pad(s.selected_pad_buttons) as int;
                if 3 * first + 3 <= db.len() {
                    let next = next_color(db, first, delta);
                    let st = with_buffer(device, t, Some(painted(db, sel, next)));
                    assert(pad_color_staged(s, delta) == pad_color_result(s, device, st, sel.len(), next));
                    lemma_pad_result_fields(s, device, st, sel.len(), next);
                    if st != device {
                        assert(painted_step(s, next, pad_color_staged(s, delta).staged_pad_colors));
                    }
                }
            }
        }
    }
}

/// Settling a colour step keeps all but the staged buffers, which become
/// the edited ones unless they equal the device's.
proof fn lemma_pad_result_fields(
    s: AppModel,
    device: PadColorsModel,
    staged: PadColorsModel,
    n: nat,
    next: (u8, u8, u8),
)
    ensures
        pad_color_result(s, device, staged, n, next).pad_colors == s.pad_colors,
        pad_color_result(s, device, staged, n, next).selected_color_target == s.selected_color_target,
        pad_color_result(s, device, staged, n, next).selected_pad_buttons == s.selected_pad_buttons,
        pad_color_result(s, device, staged, n, next).staged_pad_colors == if staged == device {
            None
        } else {
            Some(staged)
        },
{
}

/// `staged` holds the device's buffers of `s` with the selected pads of the
/// edited buffer painted `rgb`.
pub open spec fn painted_step(s: AppModel, rgb: (u8, u8, u8), staged: Option<PadColorsModel>) -> bool {
    &&& s.pad_colors matches Some(device)
    &&& buffer_of(device, s.selected_color_target) matches Some(db)
    &&& pads_below(s.selected_pad_buttons).len() > 0
    &&& staged == Some(
        with_buffer(
            device,
            s.selected_color_target,
            Some(painted(db, pads_below(s.selected_pad_buttons), rgb)),
        ),
    )
}

/// Undoing on pads whose only staged change is a paint of the same
/// selection drops the staged buffers and keeps the device's.
proof fn lemma_pad_undo_of_paint(x: AppModel, rgb: (u8, u8, u8))
    requires
        painted_step(x, rgb, x.staged_pad_colors),
    ensures
        pad_color_undone(x).staged_pad_colors is None,
        pad_color_undone(x).pad_colors == x.pad_colors,
{
    let device = x.pad_colors->0;
    let t = x.selected_color_target;
    let db = buffer_of(device, t)->0;
    let sel = pads_below(x.selected_pad_buttons);
    let st = x.staged_pad_colors->0;
    assert(buffer_of(st, t) == Some(painted(db, sel, rgb)));
    law_undo_restores_painted_pads(db, db, sel, rgb);
    assert(with_buffer(st, t, Some(db)) == device);
}

/// Staging a colour step on the pad screen and undoing it right away,
/// with the same pads selected, leaves nothing staged: the device's
/// buffers are shown again and no pad counts as changed.
pub proof fn law_pad_step_then_undo_leaves_nothing_staged(s: AppModel, delta: i32)
    requires
        s.screen == Screen::PadColors,
        s.staged_pad_colors is None,
    ensures
        reduced(reduced(s, Action::AdjustSelected(delta)), Action::UndoField).staged_pad_colors is None,
        reduced(reduced(s, Action::AdjustSelected(delta)), Action::UndoField).pad_colors
            == s.pad_colors,
        dirty_pads_of(reduced(reduced(s, Action::AdjustSelected(delta)), Action::UndoField)) == 0,
{
    let a1 = pad_color_staged(s, delta as int);
    lemma_pad_actions(s, delta);
    lemma_pad_step_shape(s, delta as int);
    lemma_settle_keeps_pads(a1);
    let s1 = normalized(synced(a1));
    lemma_pad_actions(s1, delta);
    let a2 = pad_color_undone(s1);
    lemma_settle_keeps_pads(a2);
    if a1.staged_pad_colors is None {
        assert(a2.staged_pad_colors is None);
        assert(a2.pad_colors == s.pad_colors);
    } else {
        let rgb = choose|rgb: (u8, u8, u8)| #[trigger] painted_step(s, rgb, a1.staged_pad_colors);
        assert(painted_step(s1, rgb, s1.staged_pad_colors));
        lemma_pad_undo_of_paint(s1, rgb);
    }
}

/// Staging a colour step on unstaged pads and undoing it right away, with
/// the same pads selected and the same target: nothing stays staged, the
/// device's buffers are shown again and no pad counts as changed.
pub proof fn law_pad_stage_then_undo(s: AppModel, delta: int)
    requires
        s.staged_pad_colors is None,
    ensures
        pad_color_undone(pad_color_staged(s, delta)).staged_pad_colors is None,
        pad_color_undone(pad_color_staged(s, delta)).pad_colors == s.pad_colors,
        current_pad_colors_of(pad_color_undone(pad_color_staged(s, delta))) == s.pad_colors,
        dirty_pads_of(pad_color_undone(pad_color_staged(s, delta))) == 0,
{
    let a1 = pad_color_staged(s, delta);
    lemma_pad_step_shape(s, delta);
    if a1.staged_pad_colors is Some {
        let rgb = choose|rgb: (u8, u8, u8)| #[trigger] painted_step(s, rgb, a1.staged_pad_colors);
        assert(painted_step(a1, rgb, a1.staged_pad_colors));
        lemma_pad_undo_of_paint(a1, rgb);
    }
}

/// Moving the pad cursor by `(dx, dy)` from a pad of the selected bank
/// keeps it in that bank and moves it by the step on the 8 by 8 grid,
/// stopping at the edges: the new row is `row + dy` held within 0..=7 and
/// the new column `col + dx` held within 0..=7. So a move down from the
/// bottom row, or up from the top row, leaves the row as it was, and a row
/// never moves against the step nor by more than it.
pub proof fn law_pad_cursor_moves_within_edges(s: AppModel, dx: int, dy: int)
    requires
        s.selected_pad_bank < 2,
        s.selected_pad_button_idx < 128,
        image_of_button(s.selected_pad_button_idx as int) / 64 == s.selected_pad_bank,
    ensures
        ({
            let old_image = image_of_button(s.selected_pad_button_idx as int);
            let b = pad_cursor_moved(s, dx, dy).selected_pad_button_idx;
            let new_image = image_of_button(b as int);
            let old_row = (old_image % 64) / 8;
            let old_col = old_image % 8;
            let new_row = (new_image % 64) / 8;
            let new_col = new_image % 8;
            &&& b < 128
            &&& new_image / 64 == s.selected_pad_bank
            &&& new_row == if old_row + dy < 0 {
                0
            } else if old_row + dy > 7 {
                7
            } else {
                old_row + dy
            }
            &&& new_col == if old_col + dx < 0 {
                0
            } else if old_col + dx > 7 {
                7
            } else {
                old_col + dx
            }
            &&& (dy >= 0 ==> old_row <= new_row <= old_row + dy)
            &&& (dy <= 0 ==> old_row + dy <= new_row <= old_row)
            &&& pad_cursor_moved(s, dx, dy).selected_pad_bank == s.selected_pad_bank
        }),
{
    let image = image_of_button(s.selected_pad_button_idx as int);
    lemma_grid_bijection(0, s.selected_pad_button_idx as int);
    let bank = s.selected_pad_bank as int;
    lemma_image_in_bank(image, bank);
    let in_bank = image % 64;
    let r = clamp_to(in_bank / 8 + dy, 0, 7);
    let c = clamp_to(image % 8 + dx, 0, 7);
    lemma_grid_cell(bank, r, c);
    lemma_grid_cell(bank, in_bank / 8, image % 8);
    let target = 64 * bank + 8 * r + c;
    lemma_grid_bijection(target, 0);
}

/// A pad of bank `bank` lies `image % 64` places into it, on row
/// `(image % 64) / 8` and column `image % 8`.
proof fn lemma_image_in_bank(image: int, bank: int)
    requires
        0 <= image < 128,
        0 <= bank < 2,
        image / 64 == bank,
    ensures
        image - 64 * bank == image % 64,
        0 <= (image % 64) / 8 < 8,
        0 <= image % 8 < 8,
        image % 64 == 8 * ((image % 64) / 8) + image % 8,
{
    assert(image - 64 * bank == image % 64 && 0 <= (image % 64) / 8 < 8 && 0 <= image % 8 < 8
        && image % 64 == 8 * ((image % 64) / 8) + image % 8) by (nonlinear_arith)
        requires
            0 <= image < 128,
            0 <= bank < 2,
            image / 64 == bank,
    ;
}

/// The pad on row `r` and column `c` of bank `bank` sits at image index
/// `64 * bank + 8 * r + c`, from which bank, row and column are read back.
proof fn lemma_grid_cell(bank: int, r: int, c: int)
    requires
        0 <= bank < 2,
        0 <= r < 8,
        0 <= c < 8,
    ensures
        0 <= 64 * bank + 8 * r + c < 128,
        (64 * bank + 8 * r + c) / 64 == bank,
        (64 * bank + 8 * r + c) % 64 == 8 * r + c,
        ((64 * bank + 8 * r + c) % 64) / 8 == r,
        (64 * bank + 8 * r + c) % 8 == c,
{
    assert(0 <= 64 * bank + 8 * r + c < 128 && (64 * bank + 8 * r + c) / 64 == bank && (64 * bank
        + 8 * r + c) % 64 == 8 * r + c && ((64 * bank + 8 * r + c) % 64) / 8 == r && (64 * bank + 8
        * r + c) % 8 == c) by (nonlinear_arith)
        requires
            0 <= bank < 2,
            0 <= r < 8,
            0 <= c < 8,
    ;
}

/// The row (0 at the top) of button `b` within its bank.
pub open spec fn pad_row(b: int) -> int {
    (image_of_button(b) % 64) / 8
}

/// The column (0 at the left) of button `b` within its bank.
pub open spec fn pad_col(b: int) -> int {
    image_of_button(b) % 8
}

/// The reducer's moves on the pad screen.
#[verifier::rlimit(40)]
proof fn lemma_pad_moves(s: AppModel)
    requires
        s.screen == Screen::PadColors,
    ensures
        reduced(s, Action::MoveUp) == normalized(synced(pad_cursor_moved(s, 0, -1))),
        reduced(s, Action::MoveDown) == normalized(synced(pad_cursor_moved(s, 0, 1))),
        reduced(s, Action::MoveLeft) == normalized(synced(pad_cursor_moved(s, -1, 0))),
        reduced(s, Action::MoveRight) == normalized(synced(pad_cursor_moved(s, 1, 0))),
{
}

/// On the pad screen, each arrow move takes the cursor one pad the way it
/// points within the bank, and stays put at the bank's edge: down adds a
/// row up to the bottom one, up takes one away down to the top one, and
/// left and right do the same with columns; the other coordinate and the
/// bank stay.
pub proof fn law_arrow_moves_on_pads(s: AppModel)
    requires
        s.screen == Screen::PadColors,
        s.selected_pad_bank < 2,
        s.selected_pad_button_idx < 128,
        image_of_button(s.selected_pad_button_idx as int) / 64 == s.selected_pad_bank,
    ensures
        ({
            let b = s.selected_pad_button_idx as int;
            let down = reduced(s, Action::MoveDown).selected_pad_button_idx as int;
            let up = reduced(s, Action::MoveUp).selected_pad_button_idx as int;
            let left = reduced(s, Action::MoveLeft).selected_pad_button_idx as int;
            let right = reduced(s, Action::MoveRight).selected_pad_button_idx as int;
            &&& pad_row(down) == if pad_row(b) < 7 {
                pad_row(b) + 1
            } else {
                7
            } && pad_col(down) == pad_col(b)
            &&& pad_row(up) == if pad_row(b) > 0 {
                pad_row(b) - 1
            } else {
                0
            } && pad_col(up) == pad_col(b)
            &&& pad_col(right) == if pad_col(b) < 7 {
                pad_col(b) + 1
            } else {
                7
            } && pad_row(right) == pad_row(b)
            &&& pad_col(left) == if pad_col(b) > 0 {
                pad_col(b) - 1
            } else {
                0
            } && pad_row(left) == pad_row(b)
            &&& image_of_button(down) / 64 == s.selected_pad_bank
            &&& image_of_button(up) / 64 == s.selected_pad_bank
            &&& image_of_button(left) / 64 == s.selected_pad_bank
            &&& image_of_button(right) / 64 == s.selected_pad_bank
        }),
{
    let b = s.selected_pad_button_idx as int;
    lemma_pad_moves(s);
    lemma_grid_bijection(0, b);
    lemma_image_in_bank(image_of_button(b), s.selected_pad_bank as int);
    assert(reduced(s, Action::MoveDown).selected_pad_button_idx == pad_cursor_moved(s, 0, 1).selected_pad_button_idx) by {
        law_pad_cursor_moves_within_edges(s, 0, 1);
        lemma_settle_keeps_cursor(pad_cursor_moved(s, 0, 1));
    }
    assert(reduced(s, Action::MoveUp).selected_pad_button_idx == pad_cursor_moved(s, 0, -1).selected_pad_button_idx) by {
        law_pad_cursor_moves_within_edges(s, 0, -1);
        lemma_settle_keeps_cursor(pad_cursor_moved(s, 0, -1));
    }
    assert(reduced(s, Action::MoveLeft).selected_pad_button_idx == pad_cursor_moved(s, -1, 0).selected_pad_button_idx) by {
        law_pad_cursor_moves_within_edges(s, -1, 0);
        lemma_settle_keeps_cursor(pad_cursor_moved(s, -1, 0));
    }
    assert(reduced(s, Action::MoveRight).selected_pad_button_idx == pad_cursor_moved(s, 1, 0).selected_pad_button_idx) by {
        law_pad_cursor_moves_within_edges(s, 1, 0);
        lemma_settle_keeps_cursor(pad_cursor_moved(s, 1, 0));
    }
    law_pad_cursor_moves_within_edges(s, 0, 1);
    law_pad_cursor_moves_within_edges(s, 0, -1);
    law_pad_cursor_moves_within_edges(s, -1, 0);
    law_pad_cursor_moves_within_edges(s, 1, 0);
}

/// Settling the mode and the cursors keeps a pad cursor that is on the grid.
proof fn lemma_settle_keeps_cursor(x: AppModel)
    requires
        x.selected_pad_button_idx < 128,
    ensures
        normalized(synced(x)).selected_pad_button_idx == x.selected_pad_button_idx,
{
}

} // verus!
