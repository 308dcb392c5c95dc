//! The frames that apply the staged changes to the device.
use vstd::prelude::*;

use crate::app::state::{opt_bytes_equal, AppModel, AppState};
use crate::protocol::{
    build_bulk_write_messages, build_write_messages, bulk_write_outcome, frames_outcome,
    write_unsupported_message, writes_model, ProtocolError,
};

verus! {

/// The colour buffers to write: each staged buffer that differs from the
/// device's, inactive (tag 1) before active (tag 2).
pub open spec fn color_writes(s: AppModel) -> Seq<(u8, Seq<u8>)> {
    match (s.pad_colors, s.staged_pad_colors) {
        (Some(d), Some(t)) => (if t.inactive != d.inactive && t.inactive is Some {
            seq![(1u8, t.inactive.unwrap())]
        } else {
            Seq::empty()
        }) + (if t.active != d.active && t.active is Some {
            seq![(2u8, t.active.unwrap())]
        } else {
            Seq::empty()
        }),
        _ => Seq::empty(),
    }
}

/// The frames that apply what is staged, or the error that prevents it;
/// nothing without a snapshot. Staged settings cannot be written yet.
pub open spec fn apply_plan(s: AppModel) -> Option<Result<Seq<Seq<u8>>, Seq<char>>> {
    match s.snapshot {
        None => None,
        Some(snap) => if s.staged_edits.len() > 0 {
            Some(Err(write_unsupported_message()))
        } else if color_writes(s).len() == 0 {
            Some(Ok(Seq::empty()))
        } else {
            Some(bulk_write_outcome(snap.family, color_writes(s)))
        },
    }
}

/// The frames that apply what is staged.
pub fn build_apply_messages(state: &AppState) -> (r: Option<Result<Vec<Vec<u8>>, ProtocolError>>)
    ensures
        match r {
            None => apply_plan(state@) is None,
            Some(res) => apply_plan(state@) == Some(frames_outcome(res)),
        },
{
    let snapshot = match &state.snapshot {
        Some(s) => s,
        None => {
            return None;
        },
    };
    let mut frames: Vec<Vec<u8>> = Vec::new();
    if !state.staged_edits.is_empty() {
        match build_write_messages(snapshot, &state.staged_edits) {
            Ok(mut messages) => {
                frames.append(&mut messages);
            },
            Err(err) => {
                return Some(Err(err));
            },
        }
    }
    if let (Some(device_colors), Some(staged_colors)) = (&state.pad_colors, &state.staged_pad_colors) {
        let mut writes: Vec<(u8, &[u8])> = Vec::new();
        if !opt_bytes_equal(&staged_colors.inactive, &device_colors.inactive) {
            if let Some(buffer) = &staged_colors.inactive {
                writes.push((1u8, buffer.as_slice()));
            }
        }
        if !opt_bytes_equal(&staged_colors.active, &device_colors.active) {
            if let Some(buffer) = &staged_colors.active {
                writes.push((2u8, buffer.as_slice()));
            }
        }
        proof {
            if let Some(b) = &staged_colors.inactive {
                assert(b.deep_view() =~= b@);
            }
            if let Some(b) = &staged_colors.active {
                assert(b.deep_view() =~= b@);
            }
            assert(writes_model(writes@) =~= color_writes(state@));
        }
        if writes.len() > 0 {
            match build_bulk_write_messages(&snapshot.family, writes.as_slice()) {
                Ok(mut messages) => {
                    let ghost before = frames@;
                    let ghost more = messages@;
                    frames.append(&mut messages);
                    assert(before.len() == 0);
                    assert(frames@ =~= more);
                    assert(frames.deep_view() =~= more.map_values(|m: Vec<u8>| m.deep_view()));
                },
                Err(err) => {
                    return Some(Err(err));
                },
            }
            return Some(Ok(frames));
        }
    }
    assert(frames.deep_view() =~= Seq::<Seq<u8>>::empty());
    Some(Ok(frames))
}

} // verus!
