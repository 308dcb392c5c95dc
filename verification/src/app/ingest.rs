//! How captured frames are folded into the editor's state: tagged replies
//! update the snapshot, and bulk-transfer chunks fill the pad colour buffers.
use vstd::prelude::*;

use std::collections::BTreeSet;

use crate::app::state::{
    fields_in_range, has_chunks, joined_chunks, kind_in_range, loaded_count, normalized,
    pending_after_chunk, state_wf, value_in_range, with_event, with_status, AppMode, AppModel,
    AppState, PadColorSnapshot, PadColorsModel, PendingBulkRead, PendingModel,
};
use crate::protocol::frame::{FrameModel, SysexFrame};
use crate::protocol::registry::{
    ConfigSnapshot, DecodedField, FamilyModel, DecodedFieldModel, ReadCompleteness, SnapshotModel, TagId,
};
use crate::protocol::{
    apply_frame_to_snapshot, bulk_chunk_message, bulk_chunk_of, bulk_messages, bulk_write_outcome, bulk_write_plan, chunk_count, chunk_data,
    count_known, decode_bulk_transfer_chunk, decoded_field, definition_tags, family_definitions,
    fields_by_tag, known_in_order, law_bulk_message_decodes, merged_fields, reply_update,
    snapshot_after_reply, tagged_pairs, with_decoded_pairs, BulkTransferChunk, ChunkModel,
    DefinitionModel,
};
use crate::text::{dec_chars, first_index, owned, push_decimal, with_number};

verus! {

/// The snapshot after the tagged replies among `frames`, in order. Without a
/// snapshot there is nothing to update.
pub open spec fn snapshot_after_frames(snap: Option<SnapshotModel>, frames: Seq<FrameModel>) -> Option<
    SnapshotModel,
>
    decreases frames.len(),
{
    if frames.len() == 0 {
        snap
    } else {
        let prev = snapshot_after_frames(snap, frames.drop_last());
        match prev {
            Some(s) => match tagged_pairs(frames.last().raw) {
                Some(ps) => if ps.len() > 0 {
                    Some(snapshot_after_reply(s, ps))
                } else {
                    prev
                },
                None => prev,
            },
            None => None,
        }
    }
}

/// The tags a reply carries.
pub open spec fn pair_tags(ps: Seq<(u8, u8)>) -> Set<u16> {
    ps.map_values(|p: (u8, u8)| p.0 as u16).to_set()
}

/// The distinct tags that the tagged replies among `frames` updated.
pub open spec fn tags_after_frames(snap: Option<SnapshotModel>, frames: Seq<FrameModel>) -> Set<u16>
    decreases frames.len(),
{
    if frames.len() == 0 {
        Set::empty()
    } else {
        let t = tags_after_frames(snap, frames.drop_last());
        match snapshot_after_frames(snap, frames.drop_last()) {
            Some(_) => match tagged_pairs(frames.last().raw) {
                Some(ps) => t.union(pair_tags(ps)),
                None => t,
            },
            None => t,
        }
    }
}

/// A bulk read with no chunk yet.
pub open spec fn no_pending() -> PendingModel {
    PendingModel { total_chunks: 0, chunks: Map::empty() }
}

/// The colour buffers once `buffer` arrived under `tag`: tag 1 is the
/// inactive buffer, tag 2 the active one.
pub open spec fn with_loaded_buffer(colors: Option<PadColorsModel>, tag: u8, buffer: Seq<u8>) -> Option<
    PadColorsModel,
> {
    let base = match colors {
        Some(c) => c,
        None => PadColorsModel { inactive: None, active: None },
    };
    Some(
        if tag == 1 {
            PadColorsModel { inactive: Some(buffer), ..base }
        } else if tag == 2 {
            PadColorsModel { active: Some(buffer), ..base }
        } else {
            base
        },
    )
}

/// Pending bulk reads and colour buffers after one chunk arrived.
pub open spec fn bulk_after_chunk(
    p: (Map<u8, PendingModel>, Option<PadColorsModel>),
    c: ChunkModel,
) -> (Map<u8, PendingModel>, Option<PadColorsModel>) {
    let before = if p.0.contains_key(c.tag) {
        p.0[c.tag]
    } else {
        no_pending()
    };
    let (after, buffer) = pending_after_chunk(before, c.chunk_index, c.total_chunks, c.data);
    let pending = p.0.insert(c.tag, after);
    match buffer {
        Some(b) => (pending, with_loaded_buffer(p.1, c.tag, b)),
        None => (pending, p.1),
    }
}

/// Pending bulk reads and colour buffers after the chunks among `frames`.
pub open spec fn bulk_after_frames(
    p: (Map<u8, PendingModel>, Option<PadColorsModel>),
    frames: Seq<FrameModel>,
) -> (Map<u8, PendingModel>, Option<PadColorsModel>)
    decreases frames.len(),
{
    if frames.len() == 0 {
        p
    } else {
        let prev = bulk_after_frames(p, frames.drop_last());
        match bulk_chunk_of(frames.last().raw) {
            Some(c) => bulk_after_chunk(prev, c),
            None => prev,
        }
    }
}

/// The word for a snapshot's completeness.
pub open spec fn completeness_label(c: ReadCompleteness) -> Seq<char> {
    match c {
        ReadCompleteness::Complete => "complete"@,
        ReadCompleteness::Partial => "partial"@,
    }
}

/// The event logged when replies updated `n` tags.
pub open spec fn decoded_event(n: nat) -> Seq<char> {
    "Decoded "@ + dec_chars(n) + " tagged setting(s) into the current snapshot."@
}

/// The status shown when replies updated `n` tags of `snap`.
pub open spec fn loaded_status(n: nat, snap: Option<SnapshotModel>) -> Seq<char> {
    let (known, unknown, c) = match snap {
        Some(sn) => (
            count_known(sn.fields),
            (sn.fields.len() - count_known(sn.fields)) as nat,
            completeness_label(sn.completeness),
        ),
        None => (0nat, 0nat, "partial"@),
    };
    "Loaded "@ + dec_chars(n) + " tagged setting(s): "@ + dec_chars(known) + " known, "@
        + dec_chars(unknown) + " unknown, "@ + c + " snapshot."@
}

/// The event and status when `n` frames arrived and no reply updated a tag.
pub open spec fn captured_message(n: nat) -> Seq<char> {
    "Captured "@ + dec_chars(n) + " incoming MIDI message(s)."@
}

/// `s` after `frames` arrived: they are logged, replies update the
/// snapshot, chunks fill the colour buffers, the cursors are put back in
/// range, and the event and status say what was decoded. No frames change
/// nothing.
pub open spec fn frames_ingested(s: AppModel, frames: Seq<FrameModel>) -> AppModel {
    if frames.len() == 0 {
        s
    } else {
        let tags = tags_after_frames(s.snapshot, frames);
        let bulk = bulk_after_frames((s.pending_bulk_reads, s.pad_colors), frames);
        let s1 = normalized(
            AppModel {
                packet_log: s.packet_log + frames,
                snapshot: snapshot_after_frames(s.snapshot, frames),
                pending_bulk_reads: bulk.0,
                pad_colors: bulk.1,
                ..s
            },
        );
        if tags.len() > 0 {
            with_status(
                with_event(AppModel { app_mode: AppMode::Connected, ..s1 }, decoded_event(tags.len())),
                loaded_status(tags.len(), s1.snapshot),
            )
        } else {
            with_status(with_event(s1, captured_message(frames.len())), captured_message(frames.len()))
        }
    }
}

/// `s` with the status saying how many colour buffers are loaded, when one
/// or both are.
pub open spec fn pad_colors_reported(s: AppModel) -> AppModel {
    match s.pad_colors {
        Some(p) => if loaded_count(p) == 2 {
            with_status(s, "Loaded both pad color buffers from the device."@)
        } else if loaded_count(p) == 1 {
            with_status(s, "Loaded one pad color buffer; waiting for the second buffer."@)
        } else {
            s
        },
        None => s,
    }
}

/// Says in the status how many colour buffers are loaded.
pub fn maybe_report_loaded_pad_colors(state: &mut AppState)
    ensures
        final(state)@ == pad_colors_reported(old(state)@),
{
    let loaded = match &state.pad_colors {
        Some(p) => p.loaded_buffers(),
        None => {
            return;
        },
    };
    if loaded == 2 {
        state.set_status("Loaded both pad color buffers from the device.");
    } else if loaded == 1 {
        state.set_status("Loaded one pad color buffer; waiting for the second buffer.");
    }
}

/// Folds one bulk-transfer chunk into the pending reads, storing the buffer
/// it completes.
fn absorb_chunk(state: &mut AppState, chunk: BulkTransferChunk)
    ensures
        ({
            let r = bulk_after_chunk((old(state)@.pending_bulk_reads, old(state)@.pad_colors), chunk@);
            final(state)@ == AppModel { pending_bulk_reads: r.0, pad_colors: r.1, ..old(state)@ }
        }),
{
    proof {
        crate::order::lemma_keys_ordered();
    }
    let ghost c = chunk@;
    let tag = chunk.tag;
    let mut pending = match state.pending_bulk_reads.remove(&tag) {
        Some(p) => p,
        None => PendingBulkRead::default(),
    };
    let ghost p0 = pending@;
    assert(p0 == (if old(state)@.pending_bulk_reads.contains_key(tag) {
        old(state)@.pending_bulk_reads[tag]
    } else {
        no_pending()
    }));
    let buffer = pending.push_chunk(chunk.chunk_index, chunk.total_chunks, chunk.data);
    state.pending_bulk_reads.insert(tag, pending);
    assert(state@.pending_bulk_reads =~= old(state)@.pending_bulk_reads.insert(
        tag,
        pending_after_chunk(p0, c.chunk_index, c.total_chunks, c.data).0,
    ));
    match buffer {
        Some(b) => {
            let mut colors = match &state.pad_colors {
                Some(x) => x.clone(),
                None => PadColorSnapshot::default(),
            };
            if tag == 1 {
                colors.inactive = Some(b);
            } else if tag == 2 {
                colors.active = Some(b);
            }
            state.pad_colors = Some(colors);
        },
        None => {},
    }
}

/// A setting whose kind and value are small.
pub open spec fn field_ok(f: DecodedFieldModel) -> bool {
    kind_in_range(f.kind) && value_in_range(f.value)
}

/// Every setting a map holds is small.
pub open spec fn map_ok(m: Map<u16, DecodedFieldModel>) -> bool {
    forall|t: u16| #[trigger] m.contains_key(t) ==> field_ok(m[t])
}

/// Every setting the registry can decode is small.
proof fn lemma_decoded_ok(family: crate::protocol::registry::FamilyModel, tag: u8, value: u8)
    ensures
        field_ok(decoded_field(family, tag, value)),
{
    let defs = family_definitions(family);
    crate::text::lemma_first_index_found(definition_tags(defs), tag);
    match first_index(definition_tags(defs), tag) {
        Some(i) => {
            assert(0 <= i < defs.len());
            let d = defs[i];
            if i == 0 {
                assert(d == defs[0]);
            } else if i == 1 {
                assert(d == defs[1]);
            } else if i == 2 {
                assert(d == defs[2]);
            } else if i == 3 {
                assert(d == defs[3]);
            } else if i == 4 {
                assert(d == defs[4]);
            } else if i == 5 {
                assert(d == defs[5]);
            } else {
                assert(d == defs[6]);
            }
        },
        None => {},
    }
}

/// Keying small settings by tag keeps them small.
proof fn lemma_by_tag_ok(fs: Seq<DecodedFieldModel>)
    requires
        fields_in_range(fs),
    ensures
        map_ok(fields_by_tag(fs)),
    decreases fs.len(),
{
    if fs.len() > 0 {
        let init = fs.drop_last();
        assert forall|i: int| 0 <= i < init.len() implies kind_in_range(#[trigger] init[i].kind)
            && value_in_range(init[i].value) by {
            assert(init[i] == fs[i]);
        }
        lemma_by_tag_ok(init);
        assert(field_ok(fs[fs.len() - 1]));
    }
}

/// Decoding reply pairs into a map of small settings keeps it small.
proof fn lemma_pairs_ok(
    m: Map<u16, DecodedFieldModel>,
    family: crate::protocol::registry::FamilyModel,
    ps: Seq<(u8, u8)>,
)
    requires
        map_ok(m),
    ensures
        map_ok(with_decoded_pairs(m, family, ps)),
    decreases ps.len(),
{
    if ps.len() > 0 {
        lemma_pairs_ok(m, family, ps.drop_last());
        lemma_decoded_ok(family, ps.last().0, ps.last().1);
    }
}

/// The registry-ordered settings of a map of small settings are small.
proof fn lemma_known_ok(defs: Seq<DefinitionModel>, m: Map<u16, DecodedFieldModel>)
    requires
        map_ok(m),
    ensures
        fields_in_range(known_in_order(defs, m)),
    decreases defs.len(),
{
    if defs.len() > 0 {
        lemma_known_ok(defs.drop_last(), m);
        let rest = known_in_order(defs.drop_last(), m);
        let t = defs.last().tag as u16;
        if m.contains_key(t) {
            assert(field_ok(m[t]));
            assert forall|i: int| 0 <= i < rest.push(m[t]).len() implies kind_in_range(
                #[trigger] rest.push(m[t])[i].kind,
            ) && value_in_range(rest.push(m[t])[i].value) by {
                if i < rest.len() {
                    assert(rest.push(m[t])[i] == rest[i]);
                }
            }
        }
    }
}

/// A reply keeps the settings of a snapshot small.
proof fn lemma_reply_ok(old: SnapshotModel, ps: Seq<(u8, u8)>, new: SnapshotModel, upd: Seq<TagId>)
    requires
        fields_in_range(old.fields),
        reply_update(old, ps, new, upd),
    ensures
        fields_in_range(new.fields),
{
    let m = merged_fields(old, ps);
    let defs = family_definitions(old.family);
    lemma_by_tag_ok(old.fields);
    lemma_pairs_ok(fields_by_tag(old.fields), old.family, ps);
    lemma_known_ok(defs, m);
    let known = known_in_order(defs, m);
    let rest = new.fields.subrange(known.len() as int, new.fields.len() as int);
    assert forall|i: int| 0 <= i < new.fields.len() implies kind_in_range(#[trigger] new.fields[i].kind)
        && value_in_range(new.fields[i].value) by {
        if i < known.len() {
            assert(new.fields[i] == new.fields.subrange(0, known.len() as int)[i]);
        } else {
            let a = i - known.len();
            assert(new.fields[i] == rest[a]);
            assert(m.contains_key(rest[a].tag_id.0));
        }
    }
}

/// The known and unknown settings of a list, counted.
fn known_counts(fields: &Vec<DecodedField>) -> (r: (usize, usize))
    ensures
        r.0 == count_known(fields.deep_view()),
        r.1 == fields.deep_view().len() - count_known(fields.deep_view()),
{
    let ghost fs = fields.deep_view();
    let mut known: usize = 0;
    for i in 0..fields.len()
        invariant
            fs == fields.deep_view(),
            known == count_known(fs.subrange(0, i as int)),
            known <= i,
    {
        assert(fs.subrange(0, i as int + 1).drop_last() =~= fs.subrange(0, i as int));
        assert(fs[i as int] == fields@[i as int]@);
        if fields[i].known {
            known = known + 1;
        }
    }
    assert(fs.subrange(0, fs.len() as int) =~= fs);
    (known, fields.len() - known)
}

/// The status shown when replies updated `n` tags.
fn loaded_status_text(n: usize, snapshot: &Option<ConfigSnapshot>) -> (r: String)
    ensures
        r@ == loaded_status(n as nat, snapshot.deep_view()),
{
    let (known, unknown, label) = match snapshot {
        Some(sn) => {
            let (k, u) = known_counts(&sn.fields);
            let label = match sn.completeness {
                ReadCompleteness::Complete => "complete",
                ReadCompleteness::Partial => "partial",
            };
            (k, u, label)
        },
        None => (0usize, 0usize, "partial"),
    };
    let mut text = owned("Loaded ");
    push_decimal(&mut text, n as u64);
    text.append(" tagged setting(s): ");
    push_decimal(&mut text, known as u64);
    text.append(" known, ");
    push_decimal(&mut text, unknown as u64);
    text.append(" unknown, ");
    text.append(label);
    text.append(" snapshot.");
    text
}

/// Copies an optional snapshot.
fn copy_snapshot(s: &Option<ConfigSnapshot>) -> (r: Option<ConfigSnapshot>)
    ensures
        r.deep_view() == s.deep_view(),
{
    match s {
        Some(x) => Some(x.clone()),
        None => None,
    }
}

/// Folds captured frames into the state: they are logged, tagged replies
/// update the snapshot, bulk chunks fill the colour buffers, and the event
/// log and status say what was decoded.
#[verifier::rlimit(60)]
pub fn ingest_frames(state: &mut AppState, frames: Vec<SysexFrame>)
    ensures
        final(state)@ == frames_ingested(old(state)@, frames.deep_view()),
        state_wf(old(state)@) ==> state_wf(final(state)@),
{
    if frames.len() == 0 {
        assert(frames.deep_view().len() == 0);
        return;
    }
    proof {
        crate::order::lemma_keys_ordered();
    }
    let ghost s0 = state@;
    let ghost fs = frames.deep_view();
    let mut latest = copy_snapshot(&state.snapshot);
    let mut updated: BTreeSet<u16> = BTreeSet::new();
    assert(fs.subrange(0, 0) =~= Seq::<FrameModel>::empty());
    for i in 0..frames.len()
        invariant
            fs == frames.deep_view(),
            crate::order::tag_keys_ordered(),
            latest.deep_view() == snapshot_after_frames(s0.snapshot, fs.subrange(0, i as int)),
            updated@ == tags_after_frames(s0.snapshot, fs.subrange(0, i as int)),
            (state@.pending_bulk_reads, state@.pad_colors) == bulk_after_frames(
                (s0.pending_bulk_reads, s0.pad_colors),
                fs.subrange(0, i as int),
            ),
            state@ == (AppModel {
                pending_bulk_reads: state@.pending_bulk_reads,
                pad_colors: state@.pad_colors,
                ..s0
            }),
            state_wf(s0) ==> (latest.deep_view() matches Some(sn) ==> fields_in_range(sn.fields)),
    {
        let ghost prefix = fs.subrange(0, i as int);
        assert(fs.subrange(0, i as int + 1).drop_last() =~= prefix);
        assert(fs.subrange(0, i as int + 1).last() == frames@[i as int]@);
        let frame = &frames[i];
        let update = match &latest {
            Some(snap) => apply_frame_to_snapshot(snap, frame),
            None => None,
        };
        match update {
            Some(u) => {
                let ghost before = updated@;
                let ghost ps = tagged_pairs(frame.raw@)->0;
                proof {
                    if state_wf(s0) {
                        lemma_reply_ok(latest.deep_view()->0, ps, u.snapshot@, u.updated_tags@);
                    }
                }
                let tags = &u.updated_tags;
                for k in 0..tags.len()
                    invariant
                        crate::order::tag_keys_ordered(),
                        tags@ == ps.map_values(|p: (u8, u8)| TagId(p.0 as u16)),
                        updated@ == before.union(
                            ps.subrange(0, k as int).map_values(|p: (u8, u8)| p.0 as u16).to_set(),
                        ),
                {
                    updated.insert(tags[k].0);
                    proof {
                        let sk = ps.subrange(0, k as int).map_values(|p: (u8, u8)| p.0 as u16);
                        let sk1 = ps.subrange(0, k as int + 1).map_values(|p: (u8, u8)| p.0 as u16);
                        assert(sk1 =~= sk.push(ps[k as int].0 as u16));
                        assert(sk1.to_set() =~= sk.to_set().insert(ps[k as int].0 as u16)) by {
                            assert forall|x: u16| sk1.to_set().contains(x) <==> sk.to_set().insert(
                                ps[k as int].0 as u16,
                            ).contains(x) by {
                                crate::app::state::lemma_push_contains(sk, ps[k as int].0 as u16, x);
                            }
                        }
                        assert(updated@ =~= before.union(sk1.to_set()));
                    }
                }
                assert(ps.subrange(0, ps.len() as int) =~= ps);
                latest = Some(u.snapshot);
            },
            None => {
                proof {
                    match tagged_pairs(frame.raw@) {
                        Some(ps) => {
                            if latest.deep_view() is Some {
                                assert(ps.len() == 0);
                                assert(pair_tags(ps) =~= Set::<u16>::empty());
                                assert(updated@.union(pair_tags(ps)) =~= updated@);
                            }
                        },
                        None => {},
                    }
                }
            },
        }
        match decode_bulk_transfer_chunk(frame) {
            Some(chunk) => {
                absorb_chunk(state, chunk);
            },
            None => {},
        }
    }
    assert(fs.subrange(0, fs.len() as int) =~= fs);
    let count = frames.len();
    let ghost before_log = state.packet_log.deep_view();
    let mut incoming = frames;
    state.packet_log.append(&mut incoming);
    assert(state.packet_log.deep_view() =~= before_log + fs);
    state.snapshot = latest;
    let ghost s1 = state@;
    state.normalize_selection();
    proof {
        if state_wf(s0) {
            assert(state_wf(normalized(s1)));
        }
    }
    if updated.len() > 0 {
        state.app_mode = AppMode::Connected;
        let event = with_number(
            "Decoded ",
            updated.len() as u64,
            " tagged setting(s) into the current snapshot.",
        );
        state.push_event(event.as_str());
        let status = loaded_status_text(updated.len(), &state.snapshot);
        state.set_status(status.as_str());
    } else {
        let message = with_number("Captured ", count as u64, " incoming MIDI message(s).");
        state.push_event(message.as_str());
        state.set_status(message.as_str());
    }
}

/// Chunks `1..=k` of `data`, keyed by their number.
pub open spec fn chunk_map(data: Seq<u8>, k: nat) -> Map<u8, Seq<u8>>
    decreases k,
{
    if k == 0 {
        Map::empty()
    } else {
        chunk_map(data, (k - 1) as nat).insert(k as u8, chunk_data(data, k - 1))
    }
}

/// `chunk_map` holds exactly the chunks `1..=k`.
proof fn lemma_chunk_map(data: Seq<u8>, k: nat)
    requires
        k < 256,
    ensures
        chunk_map(data, k).dom().finite(),
        chunk_map(data, k).len() == k,
        forall|b: u8| #[trigger] chunk_map(data, k).contains_key(b) <==> 1 <= b <= k,
        forall|b: u8| 1 <= b <= k ==> #[trigger] chunk_map(data, k)[b] == chunk_data(data, b - 1),
    decreases k,
{
    if k > 0 {
        lemma_chunk_map(data, (k - 1) as nat);
        let prev = chunk_map(data, (k - 1) as nat);
        assert(!prev.contains_key(k as u8));
        assert(chunk_map(data, k).dom() =~= prev.dom().insert(k as u8));
    } else {
        assert(chunk_map(data, 0).dom() =~= Set::<u8>::empty());
    }
}

/// The first `k` chunks joined give the first `24 * k` bytes (or all of them).
proof fn lemma_joined_prefix(data: Seq<u8>, n: nat, k: nat)
    requires
        n == chunk_count(data.len()),
        n < 256,
        k <= n,
    ensures
        joined_chunks(chunk_map(data, n), k) == data.subrange(
            0,
            if 24 * k <= data.len() {
                24 * k as int
            } else {
                data.len() as int
            },
        ),
    decreases k,
{
    lemma_chunk_map(data, n);
    if k == 0 {
        assert(data.subrange(0, 0) =~= Seq::<u8>::empty());
    } else {
        lemma_joined_prefix(data, n, (k - 1) as nat);
        assert(24 * (k - 1) < data.len()) by (nonlinear_arith)
            requires
                k <= n,
                n == (data.len() + 23) / 24,
                k >= 1,
        ;
        assert(chunk_map(data, n)[k as u8] == chunk_data(data, k - 1));
        let end = if 24 * k <= data.len() {
            24 * k as int
        } else {
            data.len() as int
        };
        assert(data.subrange(0, 24 * (k - 1)) + data.subrange(24 * (k - 1), end) =~= data.subrange(
            0,
            end,
        ));
    }
}

/// `perm` orders the numbers `0..n`: each comes exactly once.
pub open spec fn is_permutation(perm: Seq<int>, n: nat) -> bool {
    &&& perm.len() == n
    &&& forall|i: int| 0 <= i < n ==> 0 <= #[trigger] perm[i] < n
    &&& forall|i: int, j: int| 0 <= i < n && 0 <= j < n && i != j ==> #[trigger] perm[i] != #[trigger] perm[j]
    &&& forall|c: int| 0 <= c < n ==> #[trigger] perm.contains(c)
}

/// The chunks of `data` held once the first `k` of them arrived in the
/// order `perm`, keyed by their number.
pub open spec fn arrived_chunks(data: Seq<u8>, perm: Seq<int>, k: nat) -> Map<u8, Seq<u8>>
    decreases k,
{
    if k == 0 {
        Map::empty()
    } else {
        arrived_chunks(data, perm, (k - 1) as nat).insert(
            (perm[k - 1] + 1) as u8,
            chunk_data(data, perm[k - 1]),
        )
    }
}

/// The pending read of `data` once the first `k` of its chunks arrived in
/// the order `perm`.
pub open spec fn arrived_pending(data: Seq<u8>, perm: Seq<int>, k: nat) -> PendingModel {
    if k == 0 {
        no_pending()
    } else {
        PendingModel {
            total_chunks: chunk_count(data.len()) as u8,
            chunks: arrived_chunks(data, perm, k),
        }
    }
}

/// What `arrived_chunks` holds: `k` chunks, each under the number of one
/// that arrived.
proof fn lemma_arrived_chunks(data: Seq<u8>, perm: Seq<int>, n: nat, k: nat)
    requires
        n < 256,
        is_permutation(perm, n),
        k <= n,
    ensures
        arrived_chunks(data, perm, k).dom().finite(),
        arrived_chunks(data, perm, k).len() == k,
        forall|b: u8| #[trigger] arrived_chunks(data, perm, k).contains_key(b) ==> exists|j: int|
            0 <= j < k && #[trigger] perm[j] + 1 == b,
    decreases k,
{
    let m = arrived_chunks(data, perm, k);
    if k == 0 {
        assert(m.dom() =~= Set::<u8>::empty());
    } else {
        lemma_arrived_chunks(data, perm, n, (k - 1) as nat);
        let prev = arrived_chunks(data, perm, (k - 1) as nat);
        let key = (perm[k - 1] + 1) as u8;
        assert(perm[k - 1] + 1 == key);
        if prev.contains_key(key) {
            let j = choose|j: int| 0 <= j < k - 1 && #[trigger] perm[j] + 1 == key;
            assert(perm[j] != perm[k - 1]);
        }
        assert(m.dom() =~= prev.dom().insert(key));
        assert forall|b: u8| #[trigger] m.contains_key(b) implies exists|j: int|
            0 <= j < k && #[trigger] perm[j] + 1 == b by {
            if b != key {
                let j = choose|j: int| 0 <= j < k - 1 && #[trigger] perm[j] + 1 == b;
                assert(perm[j] + 1 == b);
            } else {
                assert(perm[k - 1] + 1 == b);
            }
        }
    }
}

/// Once every chunk arrived, in whatever order, the chunks held are
/// exactly those of `data`.
proof fn lemma_arrived_all(data: Seq<u8>, perm: Seq<int>, n: nat)
    requires
        n < 256,
        is_permutation(perm, n),
    ensures
        arrived_chunks(data, perm, n) == chunk_map(data, n),
{
    lemma_arrived_chunks(data, perm, n, n);
    lemma_arrived_values(data, perm, n, n);
    lemma_chunk_map(data, n);
    let m = arrived_chunks(data, perm, n);
    let c = chunk_map(data, n);
    assert forall|b: u8| #[trigger] m.contains_key(b) implies c.contains_key(b) && m[b] == c[b] by {
        let j = choose|j: int| 0 <= j < n && #[trigger] perm[j] + 1 == b;
        assert(0 <= perm[j] < n);
        assert((perm[j] + 1) as u8 == b);
        assert(m[(perm[j] + 1) as u8] == chunk_data(data, perm[j]));
    }
    assert forall|b: u8| #[trigger] c.contains_key(b) implies m.contains_key(b) by {
        assert(perm.contains(b - 1));
        let j = choose|i: int| 0 <= i < perm.len() && #[trigger] perm[i] == b - 1;
        assert((perm[j] + 1) as u8 == b);
        assert(m.contains_key((perm[j] + 1) as u8));
    }
    assert(m =~= c);
}

/// Each arrived chunk is held under its number with its data.
proof fn lemma_arrived_values(data: Seq<u8>, perm: Seq<int>, n: nat, k: nat)
    requires
        n < 256,
        is_permutation(perm, n),
        k <= n,
    ensures
        forall|j: int| 0 <= j < k ==> #[trigger] arrived_chunks(data, perm, k).contains_key(
            (perm[j] + 1) as u8,
        ) && arrived_chunks(data, perm, k)[(perm[j] + 1) as u8] == chunk_data(data, perm[j]),
    decreases k,
{
    if k > 0 {
        lemma_arrived_values(data, perm, n, (k - 1) as nat);
        assert forall|j: int| 0 <= j < k implies #[trigger] arrived_chunks(data, perm, k).contains_key(
            (perm[j] + 1) as u8,
        ) && arrived_chunks(data, perm, k)[(perm[j] + 1) as u8] == chunk_data(data, perm[j]) by {
            if j < k - 1 {
                assert(perm[j] != perm[k - 1]);
                assert(arrived_chunks(data, perm, (k - 1) as nat).contains_key((perm[j] + 1) as u8));
            }
        }
    }
}

/// A buffer's chunks pushed into an empty pending read, in any order:
/// every push but the last answers nothing, and the last answers the
/// buffer whole.
pub proof fn law_chunks_complete_on_last(data: Seq<u8>, perm: Seq<int>, k: nat)
    requires
        data.len() > 0,
        chunk_count(data.len()) < 256,
        is_permutation(perm, chunk_count(data.len())),
        1 <= k <= chunk_count(data.len()),
    ensures
        pending_after_chunk(
            arrived_pending(data, perm, (k - 1) as nat),
            (perm[k - 1] + 1) as u8,
            chunk_count(data.len()) as u8,
            chunk_data(data, perm[k - 1]),
        ) == (
            arrived_pending(data, perm, k),
            if k == chunk_count(data.len()) {
                Some(data)
            } else {
                None
            },
        ),
{
    let n = chunk_count(data.len());
    let prev = arrived_pending(data, perm, (k - 1) as nat);
    lemma_arrived_chunks(data, perm, n, k);
    lemma_arrived_values(data, perm, n, k);
    if k == n {
        lemma_arrived_all(data, perm, n);
    }
    if k == 1 {
        assert(prev.chunks == Map::<u8, Seq<u8>>::empty());
    }
    assert(prev.chunks.insert((perm[k - 1] + 1) as u8, chunk_data(data, perm[k - 1]))
        == arrived_chunks(data, perm, k));
    if k == n {
        lemma_chunk_map(data, n);
        assert(has_chunks(chunk_map(data, n), n));
        lemma_joined_prefix(data, n, n);
        assert(24 * n >= data.len()) by (nonlinear_arith)
            requires
                n == (data.len() + 23) / 24,
        ;
        assert(data.subrange(0, data.len() as int) =~= data);
    }
}

/// The pending reads and colour buffers after the first `k` of the frames
/// that write `data` under `tag`, arriving in the order `perm`.
proof fn lemma_bulk_prefix(
    p: (Map<u8, PendingModel>, Option<PadColorsModel>),
    tag: u8,
    data: Seq<u8>,
    perm: Seq<int>,
    frames: Seq<FrameModel>,
    k: nat,
)
    requires
        data.len() > 0,
        chunk_count(data.len()) < 256,
        !p.0.contains_key(tag),
        is_permutation(perm, chunk_count(data.len())),
        frames.len() == chunk_count(data.len()),
        forall|i: int| 0 <= i < frames.len() ==> #[trigger] frames[i].raw == bulk_chunk_message(tag, data, perm[i]),
        1 <= k <= frames.len(),
    ensures
        ({
            let r = bulk_after_frames(p, frames.subrange(0, k as int));
            &&& r.0 == p.0.insert(tag, arrived_pending(data, perm, k))
            &&& r.1 == if k == frames.len() {
                with_loaded_buffer(p.1, tag, data)
            } else {
                p.1
            }
        }),
    decreases k,
{
    let n = chunk_count(data.len());
    let i = k - 1;
    let prefix = frames.subrange(0, k as int);
    assert(prefix.drop_last() =~= frames.subrange(0, i));
    assert(prefix.last() == frames[i]);
    assert(0 <= perm[i] < n);
    law_bulk_message_decodes(tag, data, perm[i]);
    law_chunks_complete_on_last(data, perm, k);
    let prev = bulk_after_frames(p, frames.subrange(0, i));
    if k == 1 {
        assert(frames.subrange(0, 0) =~= Seq::<FrameModel>::empty());
        assert(prev == p);
    } else {
        lemma_bulk_prefix(p, tag, data, perm, frames, (k - 1) as nat);
    }
    assert(prev.0.insert(tag, arrived_pending(data, perm, k)) =~= p.0.insert(
        tag,
        arrived_pending(data, perm, k),
    ));
}

/// A buffer written as bulk-transfer frames is read back whole, in
/// whatever order its frames arrive: folding the frames that write `data`
/// under `tag`, in any order, into pending reads that hold nothing for
/// `tag` completes the buffer and stores it under its tag.
pub proof fn law_bulk_write_read_round_trip(
    p: (Map<u8, PendingModel>, Option<PadColorsModel>),
    tag: u8,
    data: Seq<u8>,
    perm: Seq<int>,
    frames: Seq<FrameModel>,
)
    requires
        data.len() > 0,
        chunk_count(data.len()) < 256,
        !p.0.contains_key(tag),
        is_permutation(perm, chunk_count(data.len())),
        frames.len() == chunk_count(data.len()),
        forall|i: int| 0 <= i < frames.len() ==> #[trigger] frames[i].raw == bulk_chunk_message(tag, data, perm[i]),
    ensures
        bulk_after_frames(p, frames).1 == with_loaded_buffer(p.1, tag, data),
{
    assert(frames.len() >= 1) by (nonlinear_arith)
        requires
            data.len() > 0,
            frames.len() == (data.len() + 23) / 24,
    ;
    lemma_bulk_prefix(p, tag, data, perm, frames, frames.len());
    assert(frames.subrange(0, frames.len() as int) =~= frames);
}

/// Frames that write a buffer, arriving in any order in one poll, leave
/// that buffer loaded in the editor under its tag, the other buffer as it
/// was.
pub proof fn law_ingested_frames_load_the_buffer(
    s: AppModel,
    tag: u8,
    data: Seq<u8>,
    perm: Seq<int>,
    frames: Seq<FrameModel>,
)
    requires
        data.len() > 0,
        chunk_count(data.len()) < 256,
        !s.pending_bulk_reads.contains_key(tag),
        is_permutation(perm, chunk_count(data.len())),
        frames.len() == chunk_count(data.len()),
        forall|i: int| 0 <= i < frames.len() ==> #[trigger] frames[i].raw == bulk_chunk_message(tag, data, perm[i]),
    ensures
        frames_ingested(s, frames).pad_colors == with_loaded_buffer(s.pad_colors, tag, data),
{
    law_bulk_write_read_round_trip((s.pending_bulk_reads, s.pad_colors), tag, data, perm, frames);
    assert(frames.len() >= 1) by (nonlinear_arith)
        requires
            data.len() > 0,
            frames.len() == (data.len() + 23) / 24,
    ;
}

/// The numbers `0..n` in order.
pub open spec fn in_order(n: nat) -> Seq<int> {
    Seq::new(n, |i: int| i)
}

/// The frames that write a buffer, decoded and pushed one by one into an
/// empty pending read in the order they were built: a write under tag 1 or
/// 2 to a Midi Fighter 64 is exactly these frames, each decodes into a
/// chunk of that buffer under its tag, every push but the last answers
/// nothing, and the last answers the buffer whole.
pub proof fn law_bulk_write_pushes_back(tag: u8, data: Seq<u8>, k: nat)
    requires
        data.len() > 0,
        chunk_count(data.len()) < 256,
        1 <= k <= chunk_count(data.len()),
    ensures
        bulk_messages(tag, data).len() == chunk_count(data.len()),
        tag == 1 || tag == 2 ==> bulk_write_outcome(FamilyModel::MidiFighter64, seq![(tag, data)])
            == Ok::<Seq<Seq<u8>>, Seq<char>>(bulk_messages(tag, data)),
        bulk_chunk_of(bulk_messages(tag, data)[k - 1]) matches Some(c) && c.tag == tag
            && c.total_chunks == chunk_count(data.len()) && pending_after_chunk(
            arrived_pending(data, in_order(chunk_count(data.len())), (k - 1) as nat),
            c.chunk_index,
            c.total_chunks,
            c.data,
        ) == (
            arrived_pending(data, in_order(chunk_count(data.len())), k),
            if k == chunk_count(data.len()) {
                Some(data)
            } else {
                None
            },
        ),
{
    let n = chunk_count(data.len());
    let writes = seq![(tag, data)];
    assert(writes.drop_last() =~= Seq::<(u8, Seq<u8>)>::empty());
    assert(Seq::<Seq<u8>>::empty() + bulk_messages(tag, data) =~= bulk_messages(tag, data));
    assert(bulk_write_plan(writes.drop_last()) == Ok::<Seq<Seq<u8>>, u8>(Seq::empty()));
    if tag == 1 || tag == 2 {
        assert(bulk_write_plan(writes) == Ok::<Seq<Seq<u8>>, u8>(bulk_messages(tag, data)));
    }
    let perm = in_order(n);
    assert(is_permutation(perm, n)) by {
        assert forall|c: int| 0 <= c < n implies #[trigger] perm.contains(c) by {
            assert(perm[c] == c);
        }
    }
    assert(bulk_messages(tag, data)[k - 1] == bulk_chunk_message(tag, data, k - 1));
    law_bulk_message_decodes(tag, data, k - 1);
    law_chunks_complete_on_last(data, perm, k);
    assert(perm[k - 1] == k - 1);
}

} // verus!
