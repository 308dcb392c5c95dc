//! The Midi Fighter system-exclusive protocol: the requests the editor sends,
//! the replies it decodes, and how replies update a configuration snapshot.
pub mod edits;
pub mod frame;
pub mod registry;

use vstd::prelude::*;

use crate::protocol::frame::{Direction, EnvelopeModel, FrameModel, SysexEnvelope, SysexFrame};
use crate::protocol::registry::{
    family_display, Confidence, ConfigSnapshot, DecodedField, DecodedFieldModel,
    DeviceFamily, FamilyModel, FieldValue, FieldValueModel, ReadCompleteness, SettingKind,
    SettingKindModel, SnapshotModel, TagId,
};
use crate::text::{
    concat3, dec_chars, first_index, hex2, hex2_lower, lemma_first_index, owned, push_decimal,
    push_hex2, push_hex2_lower, with_number,
};

verus! {

/// Why a request or write cannot be built.
#[derive(Debug)]
pub enum ProtocolError {
    Unsupported(String),
}

impl View for ProtocolError {
    type V = Seq<char>;

    /// The error's message.
    open spec fn view(&self) -> Seq<char> {
        match self {
            ProtocolError::Unsupported(m) => m@,
        }
    }
}

impl ProtocolError {
    /// The message that describes the error.
    pub fn message(&self) -> (r: String)
        ensures
            r@ == self@,
    {
        match self {
            ProtocolError::Unsupported(m) => m.clone(),
        }
    }
}

/// A snapshot after a reply was folded in, with the tags the reply carried.
#[derive(Debug)]
pub struct SnapshotUpdate {
    pub snapshot: ConfigSnapshot,
    pub updated_tags: Vec<TagId>,
}

/// One chunk of a bulk transfer.
#[derive(Debug)]
pub struct BulkTransferChunk {
    pub tag: u8,
    pub chunk_index: u8,
    pub total_chunks: u8,
    pub data: Vec<u8>,
}

/// A bulk-transfer chunk as a mathematical value.
pub struct ChunkModel {
    pub tag: u8,
    pub chunk_index: u8,
    pub total_chunks: u8,
    pub data: Seq<u8>,
}

impl View for BulkTransferChunk {
    type V = ChunkModel;

    open spec fn view(&self) -> ChunkModel {
        ChunkModel {
            tag: self.tag,
            chunk_index: self.chunk_index,
            total_chunks: self.total_chunks,
            data: self.data@,
        }
    }
}

/// The vendor prefix of every Midi Fighter system-exclusive frame.
pub open spec fn is_vendor_frame(raw: Seq<u8>) -> bool {
    raw.len() >= 5 && raw[0] == 0xF0 && raw[1] == 0x00 && raw[2] == 0x01 && raw[3] == 0x79
}

/// A snapshot of `family` that holds no settings yet.
pub open spec fn empty_snapshot_model(family: FamilyModel) -> SnapshotModel {
    SnapshotModel { family, completeness: ReadCompleteness::Partial, fields: Seq::empty() }
}

/// A snapshot of `family` that holds no settings yet.
pub fn empty_snapshot(family: DeviceFamily) -> (r: ConfigSnapshot)
    ensures
        r@ == empty_snapshot_model(family@),
{
    let r = ConfigSnapshot {
        family,
        completeness: ReadCompleteness::Partial,
        fields: Vec::new(),
    };
    assert(r@.fields =~= Seq::<crate::protocol::registry::DecodedFieldModel>::empty());
    r
}

/// The universal device inquiry request.
pub open spec fn device_inquiry_bytes() -> Seq<u8> {
    seq![0xF0u8, 0x7E, 0x7F, 0x06, 0x01, 0xF7]
}

/// The universal device inquiry request.
pub fn device_inquiry_request() -> (r: Vec<u8>)
    ensures
        r@ == device_inquiry_bytes(),
{
    let r = vec![0xF0u8, 0x7E, 0x7F, 0x06, 0x01, 0xF7];
    assert(r@ =~= device_inquiry_bytes());
    r
}

/// The request for a tagged configuration reply.
pub open spec fn config_read_bytes() -> Seq<u8> {
    seq![0xF0u8, 0x00, 0x01, 0x79, 0x02, 0x00, 0xF7]
}

/// What `config_read_request` answers for a family: the request, or the
/// message of the error.
pub open spec fn config_read_outcome(family: FamilyModel) -> Result<Seq<u8>, Seq<char>> {
    match family {
        FamilyModel::Unknown(name) => Err(
            "Tagged config read is not enabled for unknown device family "@ + name + "."@,
        ),
        _ => Ok(config_read_bytes()),
    }
}

/// A request result as a mathematical value.
pub open spec fn bytes_outcome(r: Result<Vec<u8>, ProtocolError>) -> Result<Seq<u8>, Seq<char>> {
    match r {
        Ok(v) => Ok(v@),
        Err(e) => Err(e@),
    }
}

/// The request for a tagged configuration reply; unknown families have none.
pub fn config_read_request(family: &DeviceFamily) -> (r: Result<Vec<u8>, ProtocolError>)
    ensures
        bytes_outcome(r) == config_read_outcome(family@),
{
    match family {
        DeviceFamily::Unknown(name) => Err(
            ProtocolError::Unsupported(
                concat3(
                    "Tagged config read is not enabled for unknown device family ",
                    name.as_str(),
                    ".",
                ),
            ),
        ),
        _ => {
            let r = vec![0xF0u8, 0x00, 0x01, 0x79, 0x02, 0x00, 0xF7];
            assert(r@ =~= config_read_bytes());
            Ok(r)
        },
    }
}

/// The request for the colour buffer under `tag`.
pub open spec fn bulk_read_bytes(tag: u8) -> Seq<u8> {
    seq![0xF0u8, 0x00, 0x01, 0x79, 0x04, 0x01, tag, 0xF7]
}

/// What `bulk_read_request` answers.
pub open spec fn bulk_read_outcome(family: FamilyModel, tag: u8) -> Result<Seq<u8>, Seq<char>> {
    match family {
        FamilyModel::MidiFighter64 => if tag == 1 || tag == 2 {
            Ok(bulk_read_bytes(tag))
        } else {
            Err(
                "Bulk color read tag "@ + dec_chars(tag as nat)
                    + " is not supported for Midi Fighter 64."@,
            )
        },
        FamilyModel::Unknown(name) => Err(
            "Bulk color read is not enabled for unknown device family "@ + name + "."@,
        ),
        _ => Err(
            "Bulk color read is not enabled for device family "@ + family_display(family) + "."@,
        ),
    }
}

/// The request for a pad colour buffer; only the Midi Fighter 64 has them,
/// under tags 1 and 2.
pub fn bulk_read_request(family: &DeviceFamily, tag: u8) -> (r: Result<Vec<u8>, ProtocolError>)
    ensures
        bytes_outcome(r) == bulk_read_outcome(family@, tag),
{
    match family {
        DeviceFamily::MidiFighter64 => {
            if tag == 1 || tag == 2 {
                let r = vec![0xF0u8, 0x00, 0x01, 0x79, 0x04, 0x01, tag, 0xF7];
                assert(r@ =~= bulk_read_bytes(tag));
                Ok(r)
            } else {
                Err(
                    ProtocolError::Unsupported(
                        with_number(
                            "Bulk color read tag ",
                            tag as u64,
                            " is not supported for Midi Fighter 64.",
                        ),
                    ),
                )
            }
        },
        DeviceFamily::Unknown(name) => Err(
            ProtocolError::Unsupported(
                concat3(
                    "Bulk color read is not enabled for unknown device family ",
                    name.as_str(),
                    ".",
                ),
            ),
        ),
        _ => {
            let shown = family.display_name();
            Err(
                ProtocolError::Unsupported(
                    concat3(
                        "Bulk color read is not enabled for device family ",
                        shown.as_str(),
                        ".",
                    ),
                ),
            )
        },
    }
}

/// The bulk tags of the inactive and active pad colour buffers.
pub open spec fn pad_color_tags_of(family: FamilyModel) -> Option<(u8, u8)> {
    match family {
        FamilyModel::MidiFighter64 => Some((1u8, 2u8)),
        _ => None,
    }
}

/// The bulk tags of the inactive and active pad colour buffers, where the
/// family has them.
pub fn pad_color_tags(family: &DeviceFamily) -> (r: Option<(u8, u8)>)
    ensures
        r == pad_color_tags_of(family@),
{
    match family {
        DeviceFamily::MidiFighter64 => Some((1, 2)),
        _ => None,
    }
}

/// The control change that selects pad bank `bank` on `midi_channel`.
pub open spec fn bank_switch_bytes(midi_channel: u8, bank: u8) -> Seq<u8> {
    seq![(0xB0 + midi_channel % 16) as u8, 0x03u8, bank]
}

/// What `bank_switch_message` answers.
pub open spec fn bank_switch_outcome(family: FamilyModel, midi_channel: u8, bank: int) -> Result<
    Seq<u8>,
    Seq<char>,
> {
    match family {
        FamilyModel::MidiFighter64 => if bank < 2 {
            Ok(bank_switch_bytes(midi_channel, bank as u8))
        } else {
            Err(
                "Pad color bank "@ + dec_chars(bank as nat)
                    + " is not supported for Midi Fighter 64."@,
            )
        },
        FamilyModel::Unknown(name) => Err(
            "Bank switching is not enabled for unknown device family "@ + name + "."@,
        ),
        _ => Err(
            "Bank switching is not enabled for device family "@ + family_display(family) + "."@,
        ),
    }
}

/// The control change that switches the Midi Fighter 64 to pad bank `bank`.
pub fn bank_switch_message(family: &DeviceFamily, midi_channel: u8, bank: usize) -> (r: Result<
    Vec<u8>,
    ProtocolError,
>)
    ensures
        bytes_outcome(r) == bank_switch_outcome(family@, midi_channel, bank as int),
{
    match family {
        DeviceFamily::MidiFighter64 => {
            if bank < 2 {
                let status = 0xB0u8 | (midi_channel & 0x0F);
                assert((0xB0u8 | (midi_channel & 0x0F)) == (0xB0 + midi_channel % 16) as u8) by (bit_vector);
                let r = vec![status, 0x03u8, bank as u8];
                assert(r@ =~= bank_switch_bytes(midi_channel, bank as u8));
                Ok(r)
            } else {
                Err(
                    ProtocolError::Unsupported(
                        with_number(
                            "Pad color bank ",
                            bank as u64,
                            " is not supported for Midi Fighter 64.",
                        ),
                    ),
                )
            }
        },
        DeviceFamily::Unknown(name) => Err(
            ProtocolError::Unsupported(
                concat3(
                    "Bank switching is not enabled for unknown device family ",
                    name.as_str(),
                    ".",
                ),
            ),
        ),
        _ => {
            let shown = family.display_name();
            Err(
                ProtocolError::Unsupported(
                    concat3(
                        "Bank switching is not enabled for device family ",
                        shown.as_str(),
                        ".",
                    ),
                ),
            )
        },
    }
}


/// The note for a universal inquiry frame, by its sub-command byte.
pub open spec fn inquiry_note(sub: u8) -> Seq<char> {
    if sub == 0x01 {
        "Universal Device Inquiry request."@
    } else if sub == 0x02 {
        "Universal Device Inquiry reply."@
    } else {
        "Universal SysEx inquiry frame."@
    }
}

/// The note for a Midi Fighter vendor frame of length `len`.
pub open spec fn vendor_note(command: u8, sub: u8, len: nat) -> Seq<char> {
    if command == 0x02 && sub == 0x00 {
        "Tagged config read request."@
    } else if command == 0x02 && sub == 0x01 {
        "Tagged config response with "@ + dec_chars(((len - 7) / 2) as nat) + " tag/value pair(s)."@
    } else if command == 0x04 && sub == 0x00 {
        "Bulk transfer write request."@
    } else if command == 0x04 && sub == 0x01 {
        "Bulk transfer read request."@
    } else if command == 0x04 && sub == 0x02 {
        "Bulk transfer response."@
    } else {
        "Midi Fighter vendor SysEx frame."@
    }
}

/// What the header of a frame says; frames that do not start with 0xF0, end
/// with 0xF7 and hold at least four bytes have no envelope.
pub open spec fn envelope_of(raw: Seq<u8>) -> Option<EnvelopeModel> {
    if raw.len() < 4 || raw[0] != 0xF0 || raw.last() != 0xF7 {
        None
    } else if raw.len() >= 6 && raw[1] == 0x7E && raw[3] == 0x06 {
        Some(
            EnvelopeModel {
                manufacturer: seq![raw[1]],
                command: raw[3],
                tag: None,
                note: Some(inquiry_note(raw[4])),
            },
        )
    } else if raw.len() >= 7 && raw[1] == 0x00 && raw[2] == 0x01 && raw[3] == 0x79 {
        Some(
            EnvelopeModel {
                manufacturer: raw.subrange(1, 4),
                command: raw[4],
                tag: if raw[4] == 0x04 {
                    Some(TagId(raw[6] as u16))
                } else {
                    None
                },
                note: Some(vendor_note(raw[4], raw[5], raw.len())),
            },
        )
    } else if raw[1] == 0x00 && raw.len() >= 6 {
        Some(
            EnvelopeModel {
                manufacturer: raw.subrange(1, 4),
                command: raw[4],
                tag: None,
                note: Some("Captured raw SysEx frame."@),
            },
        )
    } else {
        Some(
            EnvelopeModel {
                manufacturer: seq![raw[1]],
                command: raw[2],
                tag: None,
                note: Some("Captured raw SysEx frame."@),
            },
        )
    }
}

/// Decodes the header of a frame.
fn parse_envelope(raw: &[u8]) -> (r: Option<SysexEnvelope>)
    ensures
        r.deep_view() == envelope_of(raw@),
{
    let n = raw.len();
    if n < 4 || raw[0] != 0xF0 || raw[n - 1] != 0xF7 {
        return None;
    }
    if n >= 6 && raw[1] == 0x7E && raw[3] == 0x06 {
        let note = if raw[4] == 0x01 {
            owned("Universal Device Inquiry request.")
        } else if raw[4] == 0x02 {
            owned("Universal Device Inquiry reply.")
        } else {
            owned("Universal SysEx inquiry frame.")
        };
        let manufacturer = vec![raw[1]];
        assert(manufacturer@ =~= seq![raw@[1]]);
        return Some(SysexEnvelope { manufacturer, command: raw[3], tag: None, note: Some(note) });
    }
    if n >= 7 && raw[1] == 0x00 && raw[2] == 0x01 && raw[3] == 0x79 {
        let command = raw[4];
        let sub = raw[5];
        let note = if command == 0x02 && sub == 0x00 {
            owned("Tagged config read request.")
        } else if command == 0x02 && sub == 0x01 {
            with_number(
                "Tagged config response with ",
                ((n - 7) / 2) as u64,
                " tag/value pair(s).",
            )
        } else if command == 0x04 && sub == 0x00 {
            owned("Bulk transfer write request.")
        } else if command == 0x04 && sub == 0x01 {
            owned("Bulk transfer read request.")
        } else if command == 0x04 && sub == 0x02 {
            owned("Bulk transfer response.")
        } else {
            owned("Midi Fighter vendor SysEx frame.")
        };
        let manufacturer = vec![raw[1], raw[2], raw[3]];
        assert(manufacturer@ =~= raw@.subrange(1, 4));
        let tag = if command == 0x04 {
            Some(TagId(raw[6] as u16))
        } else {
            None
        };
        return Some(SysexEnvelope { manufacturer, command, tag, note: Some(note) });
    }
    if raw[1] == 0x00 && n >= 6 {
        let manufacturer = vec![raw[1], raw[2], raw[3]];
        assert(manufacturer@ =~= raw@.subrange(1, 4));
        Some(
            SysexEnvelope {
                manufacturer,
                command: raw[4],
                tag: None,
                note: Some(owned("Captured raw SysEx frame.")),
            },
        )
    } else {
        let manufacturer = vec![raw[1]];
        assert(manufacturer@ =~= seq![raw@[1]]);
        Some(
            SysexEnvelope {
                manufacturer,
                command: raw[2],
                tag: None,
                note: Some(owned("Captured raw SysEx frame.")),
            },
        )
    }
}

/// A frame captured at `timestamp`, with its envelope decoded.
pub fn parse_frame(raw: Vec<u8>, direction: Direction, timestamp: String) -> (r: SysexFrame)
    ensures
        r@ == (FrameModel {
            timestamp: timestamp@,
            direction,
            raw: raw@,
            envelope: envelope_of(raw@),
        }),
{
    let envelope = parse_envelope(raw.as_slice());
    SysexFrame { timestamp, direction, raw, envelope }
}

/// Whether `raw` is a tagged configuration reply: vendor command 0x02,
/// sub-command 0x01, framed by 0xF0 and 0xF7, at least eight bytes long.
pub open spec fn is_tagged_reply(raw: Seq<u8>) -> bool {
    &&& raw.len() >= 8
    &&& is_vendor_frame(raw)
    &&& raw.last() == 0xF7
    &&& raw[4] == 0x02
    &&& raw[5] == 0x01
}

/// The tag/value pairs of a tagged configuration reply: the bytes between
/// the header and the final 0xF7, taken two at a time; an odd byte at the
/// end is ignored.
pub open spec fn tagged_pairs(raw: Seq<u8>) -> Option<Seq<(u8, u8)>> {
    if is_tagged_reply(raw) {
        Some(
            Seq::new(
                ((raw.len() - 7) / 2) as nat,
                |i: int| (raw[6 + 2 * i], raw[7 + 2 * i]),
            ),
        )
    } else {
        None
    }
}

/// The tag/value pairs of a tagged configuration reply.
pub fn decode_tagged_config_response(raw: &[u8]) -> (r: Option<Vec<(u8, u8)>>)
    ensures
        match r {
            Some(v) => tagged_pairs(raw@) == Some(v@),
            None => tagged_pairs(raw@) is None,
        },
{
    let n = raw.len();
    if n < 8 || raw[0] != 0xF0 || raw[n - 1] != 0xF7 || raw[1] != 0x00 || raw[2] != 0x01
        || raw[3] != 0x79 || raw[4] != 0x02 || raw[5] != 0x01 {
        return None;
    }
    let count = (n - 7) / 2;
    let mut pairs: Vec<(u8, u8)> = Vec::new();
    for i in 0..count
        invariant
            count == (n - 7) / 2,
            n == raw@.len(),
            n >= 8,
            pairs@ =~= Seq::new(i as nat, |k: int| (raw@[6 + 2 * k], raw@[7 + 2 * k])),
    {
        pairs.push((raw[6 + 2 * i], raw[7 + 2 * i]));
    }
    Some(pairs)
}

/// Whether `raw` is a bulk-transfer write frame: vendor command 0x04,
/// sub-command 0x00, framed by 0xF0 and 0xF7, at least eleven bytes long.
pub open spec fn is_bulk_chunk_frame(raw: Seq<u8>) -> bool {
    &&& raw.len() >= 11
    &&& is_vendor_frame(raw)
    &&& raw.last() == 0xF7
    &&& raw[4] == 0x04
    &&& raw[5] == 0x00
}

/// The chunk a bulk-transfer frame carries: tag, index and count from bytes
/// 6 to 8, and as many data bytes as byte 9 says, cut short at the final 0xF7.
pub open spec fn bulk_chunk_of(raw: Seq<u8>) -> Option<ChunkModel> {
    if is_bulk_chunk_frame(raw) {
        let end = if 10 + raw[9] < raw.len() - 1 {
            10 + raw[9]
        } else {
            raw.len() - 1
        };
        Some(
            ChunkModel {
                tag: raw[6],
                chunk_index: raw[7],
                total_chunks: raw[8],
                data: raw.subrange(10, end),
            },
        )
    } else {
        None
    }
}

/// Decodes a bulk-transfer chunk from raw bytes.
fn decode_bulk_transfer_chunk_raw(raw: &[u8]) -> (r: Option<BulkTransferChunk>)
    ensures
        match r {
            Some(c) => bulk_chunk_of(raw@) == Some(c@),
            None => bulk_chunk_of(raw@) is None,
        },
{
    let n = raw.len();
    if n < 11 || raw[0] != 0xF0 || raw[n - 1] != 0xF7 || raw[1] != 0x00 || raw[2] != 0x01
        || raw[3] != 0x79 || raw[4] != 0x04 || raw[5] != 0x00 {
        return None;
    }
    let data_len = raw[9] as usize;
    let data_end = if 10 + data_len < n - 1 {
        10 + data_len
    } else {
        n - 1
    };
    let mut data: Vec<u8> = Vec::new();
    let mut i: usize = 10;
    while i < data_end
        invariant
            10 <= i <= data_end,
            data_end <= n,
            n == raw@.len(),
            data@ =~= raw@.subrange(10, i as int),
        decreases data_end - i,
    {
        data.push(raw[i]);
        i = i + 1;
    }
    Some(BulkTransferChunk { tag: raw[6], chunk_index: raw[7], total_chunks: raw[8], data })
}

/// Decodes the bulk-transfer chunk a frame carries, if it carries one.
pub fn decode_bulk_transfer_chunk(frame: &SysexFrame) -> (r: Option<BulkTransferChunk>)
    ensures
        match r {
            Some(c) => bulk_chunk_of(frame.raw@) == Some(c@),
            None => bulk_chunk_of(frame.raw@) is None,
        },
{
    decode_bulk_transfer_chunk_raw(frame.raw.as_slice())
}


/// The message of the error that every settings write ends in.
pub open spec fn write_unsupported_message() -> Seq<char> {
    "Config write serializers have not been reverse engineered yet."@
}

/// Settings writes: the write format of tagged settings is not known, so
/// every request ends in an error.
pub fn build_write_messages(
    _snapshot: &ConfigSnapshot,
    _edits: &crate::protocol::edits::StagedEdits,
) -> (r: Result<Vec<Vec<u8>>, ProtocolError>)
    ensures
        r matches Err(e) && e@ == write_unsupported_message(),
{
    Err(ProtocolError::Unsupported(owned("Config write serializers have not been reverse engineered yet.")))
}

/// The number of chunks that `len` bytes take (rounded up).
pub open spec fn chunk_count(len: nat) -> nat {
    (len + 23) / 24
}

/// The data bytes of chunk `i` (counted from 0).
pub open spec fn chunk_data(data: Seq<u8>, i: int) -> Seq<u8> {
    let start = 24 * i;
    let end = if start + 24 <= data.len() {
        start + 24
    } else {
        data.len() as int
    };
    data.subrange(start, end)
}

/// The frame that carries chunk `i` of `data` under `tag`; chunk numbers and
/// the chunk count are written modulo 256, as a byte holds them.
pub open spec fn bulk_chunk_message(tag: u8, data: Seq<u8>, i: int) -> Seq<u8> {
    seq![
        0xF0u8,
        0x00u8,
        0x01u8,
        0x79u8,
        0x04u8,
        0x00u8,
        tag,
        ((i + 1) % 256) as u8,
        (chunk_count(data.len()) % 256) as u8,
        chunk_data(data, i).len() as u8,
    ] + chunk_data(data, i) + seq![0xF7u8]
}

/// Every frame of one buffer's write, in chunk order.
pub open spec fn bulk_messages(tag: u8, data: Seq<u8>) -> Seq<Seq<u8>> {
    Seq::new(chunk_count(data.len()), |i: int| bulk_chunk_message(tag, data, i))
}

/// The frames for a list of buffer writes, in order; a write under a tag
/// other than 1 or 2 stops the list, naming that tag.
pub open spec fn bulk_write_plan(writes: Seq<(u8, Seq<u8>)>) -> Result<Seq<Seq<u8>>, u8>
    decreases writes.len(),
{
    if writes.len() == 0 {
        Ok(Seq::empty())
    } else {
        match bulk_write_plan(writes.drop_last()) {
            Err(t) => Err(t),
            Ok(ms) => {
                let (tag, data) = writes.last();
                if tag != 1 && tag != 2 {
                    Err(tag)
                } else {
                    Ok(ms + bulk_messages(tag, data))
                }
            },
        }
    }
}

/// A bulk-write frame decodes back into the chunk it carries: its tag, its
/// number counted from 1, the chunk count and its data, while the chunk
/// count fits in a byte.
pub proof fn law_bulk_message_decodes(tag: u8, data: Seq<u8>, i: int)
    requires
        0 <= i < chunk_count(data.len()),
        chunk_count(data.len()) < 256,
    ensures
        bulk_chunk_of(bulk_chunk_message(tag, data, i)) == Some(
            ChunkModel {
                tag,
                chunk_index: (i + 1) as u8,
                total_chunks: chunk_count(data.len()) as u8,
                data: chunk_data(data, i),
            },
        ),
{
    let chunk = chunk_data(data, i);
    assert(24 * i <= data.len()) by (nonlinear_arith)
        requires
            0 <= i < (data.len() + 23) / 24,
    ;
    assert(chunk.len() <= 24);
    let header = seq![
        0xF0u8,
        0x00u8,
        0x01u8,
        0x79u8,
        0x04u8,
        0x00u8,
        tag,
        ((i + 1) % 256) as u8,
        (chunk_count(data.len()) % 256) as u8,
        chunk.len() as u8,
    ];
    let raw = bulk_chunk_message(tag, data, i);
    assert(raw =~= header + chunk + seq![0xF7u8]);
    assert(raw.len() == 11 + chunk.len());
    assert(raw[9] == chunk.len());
    assert(raw.last() == 0xF7);
    assert(raw.subrange(10, 10 + chunk.len() as int) =~= chunk);
}

/// A list of writes as mathematical values.
pub open spec fn writes_model(writes: Seq<(u8, &[u8])>) -> Seq<(u8, Seq<u8>)> {
    writes.map_values(|w: (u8, &[u8])| (w.0, w.1@))
}

/// What `build_bulk_write_messages` answers.
pub open spec fn bulk_write_outcome(family: FamilyModel, writes: Seq<(u8, Seq<u8>)>) -> Result<
    Seq<Seq<u8>>,
    Seq<char>,
> {
    match family {
        FamilyModel::MidiFighter64 => match bulk_write_plan(writes) {
            Ok(ms) => Ok(ms),
            Err(t) => Err(
                "Bulk write tag "@ + dec_chars(t as nat) + " is not supported for Midi Fighter 64."@,
            ),
        },
        FamilyModel::Unknown(name) => Err(
            "Bulk color write is not enabled for unknown device family "@ + name + "."@,
        ),
        _ => Err(
            "Bulk color write is not enabled for device family "@ + family_display(family) + "."@,
        ),
    }
}

/// A list of frames as mathematical values.
pub open spec fn frames_outcome(r: Result<Vec<Vec<u8>>, ProtocolError>) -> Result<
    Seq<Seq<u8>>,
    Seq<char>,
> {
    match r {
        Ok(v) => Ok(v.deep_view()),
        Err(e) => Err(e@),
    }
}

/// The frames that write `data` under `tag`, appended to `messages`.
fn push_bulk_messages(messages: &mut Vec<Vec<u8>>, tag: u8, data: &[u8])
    ensures
        final(messages).deep_view() == old(messages).deep_view() + bulk_messages(tag, data@),
{
    let n = data.len();
    let total = n / 24 + if n % 24 != 0 {
        1usize
    } else {
        0usize
    };
    assert(total == chunk_count(n as nat)) by (nonlinear_arith)
        requires
            total == n / 24 + if n % 24 != 0 {
                1int
            } else {
                0int
            },
    ;
    let total_byte = (total % 256) as u8;
    let ghost base = old(messages).deep_view();
    let mut index: usize = 0;
    let mut start: usize = 0;
    while start < n
        invariant
            n == data@.len(),
            total == chunk_count(n as nat),
            total_byte == (total % 256) as u8,
            index <= total,
            index < total ==> start == 24 * index,
            index == total ==> start == n,
            start <= n,
            (start < n) == (index < total),
            messages.deep_view() =~= base + bulk_messages(tag, data@).subrange(0, index as int),
        decreases n - start,
    {
        let end = if n - start > 24 {
            start + 24
        } else {
            n
        };
        let chunk_len = end - start;
        let index_byte = ((index + 1) % 256) as u8;
        let mut message: Vec<u8> = vec![
            0xF0u8,
            0x00,
            0x01,
            0x79,
            0x04,
            0x00,
            tag,
            index_byte,
            total_byte,
            chunk_len as u8,
        ];
        let ghost header = message@;
        let mut k = start;
        while k < end
            invariant
                start <= k <= end,
                end <= n,
                n == data@.len(),
                message@ =~= header + data@.subrange(start as int, k as int),
            decreases end - k,
        {
            message.push(data[k]);
            k = k + 1;
        }
        message.push(0xF7);
        let ghost before = messages.deep_view();
        proof {
            assert(chunk_data(data@, index as int) =~= data@.subrange(start as int, end as int));
            assert(message@ =~= bulk_chunk_message(tag, data@, index as int));
            assert((end == n) == (index + 1 == total)) by (nonlinear_arith)
                requires
                    start == 24 * index,
                    start < n,
                    total == (n + 23) / 24,
                    end == if n - start > 24 {
                        start + 24
                    } else {
                        n as int
                    },
            ;
            assert(end < n ==> end == 24 * (index + 1));
        }
        let ghost mview = message@;
        messages.push(message);
        proof {
            assert(messages@.last().deep_view() =~= mview);
            assert(messages.deep_view() =~= before.push(mview));
            assert(bulk_messages(tag, data@).subrange(0, index as int + 1) =~= bulk_messages(
                tag,
                data@,
            ).subrange(0, index as int).push(bulk_chunk_message(tag, data@, index as int)));
        }
        start = end;
        index = index + 1;
    }
    assert(bulk_messages(tag, data@).subrange(0, index as int) =~= bulk_messages(tag, data@));
}

/// The frames that write pad colour buffers to a Midi Fighter 64: each
/// buffer goes out in chunks of at most 24 bytes, numbered from 1.
pub fn build_bulk_write_messages(family: &DeviceFamily, writes: &[(u8, &[u8])]) -> (r: Result<
    Vec<Vec<u8>>,
    ProtocolError,
>)
    ensures
        frames_outcome(r) == bulk_write_outcome(family@, writes_model(writes@)),
{
    match family {
        DeviceFamily::MidiFighter64 => {
            let ghost ws = writes_model(writes@);
            assert(family@ == FamilyModel::MidiFighter64);
            let mut messages: Vec<Vec<u8>> = Vec::new();
            assert(messages.deep_view() =~= Seq::<Seq<u8>>::empty());
            assert(ws.subrange(0, 0) =~= Seq::<(u8, Seq<u8>)>::empty());
            for i in 0..writes.len()
                invariant
                    ws == writes_model(writes@),
                    family@ == FamilyModel::MidiFighter64,
                    bulk_write_plan(ws.subrange(0, i as int)) == Ok::<Seq<Seq<u8>>, u8>(
                        messages.deep_view(),
                    ),
            {
                let (tag, data) = writes[i];
                proof {
                    assert(ws.subrange(0, i as int + 1).drop_last() =~= ws.subrange(0, i as int));
                    assert(ws.subrange(0, i as int + 1).last() == (tag, data@));
                }
                if tag != 1 && tag != 2 {
                    proof {
                        assert(bulk_write_plan(ws.subrange(0, i as int + 1)) == Err::<Seq<Seq<u8>>, u8>(
                            tag,
                        ));
                        lemma_plan_stops(ws, i as int + 1);
                        assert(bulk_write_plan(ws) == Err::<Seq<Seq<u8>>, u8>(tag));
                    }
                    return Err(
                        ProtocolError::Unsupported(
                            with_number(
                                "Bulk write tag ",
                                tag as u64,
                                " is not supported for Midi Fighter 64.",
                            ),
                        ),
                    );
                }
                push_bulk_messages(&mut messages, tag, data);
            }
            assert(ws.subrange(0, writes@.len() as int) =~= ws);
            Ok(messages)
        },
        DeviceFamily::Unknown(name) => Err(
            ProtocolError::Unsupported(
                concat3(
                    "Bulk color write is not enabled for unknown device family ",
                    name.as_str(),
                    ".",
                ),
            ),
        ),
        _ => {
            let shown = family.display_name();
            Err(
                ProtocolError::Unsupported(
                    concat3(
                        "Bulk color write is not enabled for device family ",
                        shown.as_str(),
                        ".",
                    ),
                ),
            )
        },
    }
}

/// Once a prefix of the writes stops the plan, the whole list stops at the
/// same tag.
proof fn lemma_plan_stops(ws: Seq<(u8, Seq<u8>)>, k: int)
    requires
        0 <= k <= ws.len(),
        bulk_write_plan(ws.subrange(0, k)) is Err,
    ensures
        bulk_write_plan(ws) == bulk_write_plan(ws.subrange(0, k)),
    decreases ws.len() - k,
{
    if k < ws.len() {
        assert(ws.subrange(0, k + 1).drop_last() =~= ws.subrange(0, k));
        lemma_plan_stops(ws, k + 1);
    } else {
        assert(ws.subrange(0, k) =~= ws);
    }
}


/// The kind of a registry setting, as a mathematical value.
pub enum DefinitionKindModel {
    Boolean,
    Integer { min: i32, max: i32, step: i32 },
    Enum { options: Seq<Seq<char>> },
    Bytes,
}

/// A registry entry: what a tag means.
pub struct DefinitionModel {
    pub tag: u8,
    pub id: Seq<char>,
    pub label: Seq<char>,
    pub kind: DefinitionKindModel,
    pub notes: Seq<char>,
}

/// Where the Midi Fighter 64 settings were learned from.
pub open spec fn mf64_notes() -> Seq<char> {
    "Recovered from the official Midi Fighter 64 plugin registry."@
}

/// The settings the registry knows for a family, in display order.
pub open spec fn family_definitions(family: FamilyModel) -> Seq<DefinitionModel> {
    match family {
        FamilyModel::MidiFighter64 => seq![
            DefinitionModel {
                tag: 0,
                id: "midi_channel"@,
                label: "MIDI Channel"@,
                kind: DefinitionKindModel::Integer { min: 1, max: 13, step: 1 },
                notes: mf64_notes(),
            },
            DefinitionModel {
                tag: 1,
                id: "midi_velocity"@,
                label: "MIDI Velocity"@,
                kind: DefinitionKindModel::Integer { min: 0, max: 127, step: 1 },
                notes: mf64_notes(),
            },
            DefinitionModel {
                tag: 7,
                id: "midi_type"@,
                label: "MIDI Type"@,
                kind: DefinitionKindModel::Enum {
                    options: seq!["Notes"@, "Notes + CCs"@, "CCs"@],
                },
                notes: mf64_notes(),
            },
            DefinitionModel {
                tag: 8,
                id: "super_combos"@,
                label: "Super Combos"@,
                kind: DefinitionKindModel::Boolean,
                notes: mf64_notes(),
            },
            DefinitionModel {
                tag: 22,
                id: "sleep_timer"@,
                label: "Sleep Timer"@,
                kind: DefinitionKindModel::Integer { min: 0, max: 120, step: 1 },
                notes: mf64_notes(),
            },
            DefinitionModel {
                tag: 23,
                id: "corner_bank_change"@,
                label: "Corner Button Bank Change"@,
                kind: DefinitionKindModel::Enum {
                    options: seq!["Disabled"@, "Hold"@, "Press"@],
                },
                notes: mf64_notes(),
            },
            DefinitionModel {
                tag: 10,
                id: "animation"@,
                label: "Animation"@,
                kind: DefinitionKindModel::Enum {
                    options: seq!["Square"@, "Circle"@, "Star"@, "Triangle"@, "None"@],
                },
                notes: mf64_notes(),
            },
        ],
        _ => Seq::empty(),
    }
}

/// The setting a registry entry decodes `value` into.
pub open spec fn definition_decode(d: DefinitionModel, value: u8) -> DecodedFieldModel {
    let (v, kind) = match d.kind {
        DefinitionKindModel::Boolean => (FieldValueModel::Bool(value != 0), SettingKindModel::Boolean),
        DefinitionKindModel::Integer { min, max, step } => (
            FieldValueModel::Integer(value as i32),
            SettingKindModel::Integer { min, max, step },
        ),
        DefinitionKindModel::Enum { options } => (
            if (value as int) < options.len() {
                FieldValueModel::Text(options[value as int])
            } else {
                FieldValueModel::Text("Unknown ("@ + dec_chars(value as nat) + ")"@)
            },
            SettingKindModel::Enum { options },
        ),
        DefinitionKindModel::Bytes => (FieldValueModel::Bytes(seq![value]), SettingKindModel::Bytes),
    };
    DecodedFieldModel {
        id: d.id,
        label: d.label,
        tag_id: TagId(d.tag as u16),
        value: v,
        kind,
        confidence: Confidence::Verified,
        editable: true,
        known: true,
        notes: Some(d.notes),
        source_bytes: seq![d.tag, value],
    }
}

/// The setting for a tag the registry does not know: shown as a read-only
/// integer with the raw tag in its id and label.
pub open spec fn unknown_field(tag: u8, value: u8) -> DecodedFieldModel {
    DecodedFieldModel {
        id: "raw.tag."@ + hex2_lower(tag),
        label: "Unknown Tag 0x"@ + hex2(tag),
        tag_id: TagId(tag as u16),
        value: FieldValueModel::Integer(value as i32),
        kind: SettingKindModel::Integer { min: 0, max: 127, step: 1 },
        confidence: Confidence::ObservedOnly,
        editable: false,
        known: false,
        notes: Some("Observed in a live tagged config reply; semantic meaning is still unknown."@),
        source_bytes: seq![tag, value],
    }
}

/// The tags of a list of registry entries.
pub open spec fn definition_tags(defs: Seq<DefinitionModel>) -> Seq<u8> {
    defs.map_values(|d: DefinitionModel| d.tag)
}

/// The setting a tag/value pair of a reply decodes into: the first registry
/// entry for the tag decides, and unknown tags become unknown settings.
pub open spec fn decoded_field(family: FamilyModel, tag: u8, value: u8) -> DecodedFieldModel {
    let defs = family_definitions(family);
    match first_index(definition_tags(defs), tag) {
        Some(i) => definition_decode(defs[i], value),
        None => unknown_field(tag, value),
    }
}

/// The kind of a registry setting.
enum DefinitionKind {
    Boolean,
    Integer { min: i32, max: i32, step: i32 },
    Enum { options: Vec<&'static str> },
    #[allow(dead_code)]
    Bytes,
}

impl DeepView for DefinitionKind {
    type V = DefinitionKindModel;

    closed spec fn deep_view(&self) -> DefinitionKindModel {
        match self {
            DefinitionKind::Boolean => DefinitionKindModel::Boolean,
            DefinitionKind::Integer { min, max, step } => DefinitionKindModel::Integer {
                min: *min,
                max: *max,
                step: *step,
            },
            DefinitionKind::Enum { options } => DefinitionKindModel::Enum {
                options: options.deep_view(),
            },
            DefinitionKind::Bytes => DefinitionKindModel::Bytes,
        }
    }
}

/// A registry entry: what a tag means.
struct SettingDefinition {
    tag: u8,
    id: &'static str,
    label: &'static str,
    kind: DefinitionKind,
    notes: &'static str,
}

impl DeepView for SettingDefinition {
    type V = DefinitionModel;

    closed spec fn deep_view(&self) -> DefinitionModel {
        DefinitionModel {
            tag: self.tag,
            id: self.id@,
            label: self.label@,
            kind: self.kind.deep_view(),
            notes: self.notes@,
        }
    }
}

/// Owned copies of a list of option names.
fn owned_options(options: &Vec<&'static str>) -> (r: Vec<String>)
    ensures
        r.deep_view() == options.deep_view(),
{
    let mut out: Vec<String> = Vec::new();
    for i in 0..options.len()
        invariant
            out@.len() == i,
            forall|k: int| 0 <= k < i ==> #[trigger] out@[k]@ == options@[k]@,
    {
        out.push(owned(options[i]));
    }
    assert(out.deep_view() =~= options.deep_view());
    out
}

impl SettingDefinition {
    /// The setting this entry decodes `value` into.
    fn decode(&self, value: u8) -> (r: DecodedField)
        ensures
            r@ == definition_decode(self.deep_view(), value),
    {
        let (field_value, kind) = match &self.kind {
            DefinitionKind::Boolean => (FieldValue::Bool(value != 0), SettingKind::Boolean),
            DefinitionKind::Integer { min, max, step } => (
                FieldValue::Integer(value as i32),
                SettingKind::Integer { min: *min, max: *max, step: *step },
            ),
            DefinitionKind::Enum { options } => {
                let shown = if (value as usize) < options.len() {
                    assert(options.deep_view()[value as int] == options@[value as int]@);
                    owned(options[value as usize])
                } else {
                    let mut s = owned("Unknown (");
                    push_decimal(&mut s, value as u64);
                    s.append(")");
                    s
                };
                (FieldValue::Text(shown), SettingKind::Enum { options: owned_options(options) })
            },
            DefinitionKind::Bytes => {
                let b = vec![value];
                assert(b@ =~= seq![value]);
                (FieldValue::Bytes(b), SettingKind::Bytes)
            },
        };
        let source_bytes = vec![self.tag, value];
        let r = DecodedField {
            id: owned(self.id),
            label: owned(self.label),
            tag_id: TagId(self.tag as u16),
            value: field_value,
            kind,
            confidence: Confidence::Verified,
            editable: true,
            known: true,
            notes: Some(owned(self.notes)),
            source_bytes,
        };
        assert(r.source_bytes@ =~= seq![self.tag, value]);
        r
    }
}

/// The settings the registry knows for a family.
fn setting_definitions(family: &DeviceFamily) -> (r: Vec<SettingDefinition>)
    ensures
        r.deep_view() == family_definitions(family@),
{
    match family {
        DeviceFamily::MidiFighter64 => {
            let notes = "Recovered from the official Midi Fighter 64 plugin registry.";
            let midi_types = vec!["Notes", "Notes + CCs", "CCs"];
            assert(midi_types.deep_view() =~= seq!["Notes"@, "Notes + CCs"@, "CCs"@]);
            let corner_modes = vec!["Disabled", "Hold", "Press"];
            assert(corner_modes.deep_view() =~= seq!["Disabled"@, "Hold"@, "Press"@]);
            let animations = vec!["Square", "Circle", "Star", "Triangle", "None"];
            assert(animations.deep_view() =~= seq![
                "Square"@,
                "Circle"@,
                "Star"@,
                "Triangle"@,
                "None"@,
            ]);
            let r = vec![
                SettingDefinition {
                    tag: 0,
                    id: "midi_channel",
                    label: "MIDI Channel",
                    kind: DefinitionKind::Integer { min: 1, max: 13, step: 1 },
                    notes,
                },
                SettingDefinition {
                    tag: 1,
                    id: "midi_velocity",
                    label: "MIDI Velocity",
                    kind: DefinitionKind::Integer { min: 0, max: 127, step: 1 },
                    notes,
                },
                SettingDefinition {
                    tag: 7,
                    id: "midi_type",
                    label: "MIDI Type",
                    kind: DefinitionKind::Enum { options: midi_types },
                    notes,
                },
                SettingDefinition {
                    tag: 8,
                    id: "super_combos",
                    label: "Super Combos",
                    kind: DefinitionKind::Boolean,
                    notes,
                },
                SettingDefinition {
                    tag: 22,
                    id: "sleep_timer",
                    label: "Sleep Timer",
                    kind: DefinitionKind::Integer { min: 0, max: 120, step: 1 },
                    notes,
                },
                SettingDefinition {
                    tag: 23,
                    id: "corner_bank_change",
                    label: "Corner Button Bank Change",
                    kind: DefinitionKind::Enum { options: corner_modes },
                    notes,
                },
                SettingDefinition {
                    tag: 10,
                    id: "animation",
                    label: "Animation",
                    kind: DefinitionKind::Enum { options: animations },
                    notes,
                },
            ];
            proof {
                assert(r.deep_view() =~= family_definitions(family@));
            }
            r
        },
        _ => {
            let r: Vec<SettingDefinition> = Vec::new();
            assert(r.deep_view() =~= family_definitions(family@));
            r
        },
    }
}

/// The setting for a tag the registry does not know.
fn unknown_tag_field(tag: u8, value: u8) -> (r: DecodedField)
    ensures
        r@ == unknown_field(tag, value),
{
    let mut id = owned("raw.tag.");
    push_hex2_lower(&mut id, tag);
    let mut label = owned("Unknown Tag 0x");
    push_hex2(&mut label, tag);
    let r = DecodedField {
        id,
        label,
        tag_id: TagId(tag as u16),
        value: FieldValue::Integer(value as i32),
        kind: SettingKind::Integer { min: 0, max: 127, step: 1 },
        confidence: Confidence::ObservedOnly,
        editable: false,
        known: false,
        notes: Some(owned("Observed in a live tagged config reply; semantic meaning is still unknown.")),
        source_bytes: vec![tag, value],
    };
    assert(r.source_bytes@ =~= seq![tag, value]);
    r
}

/// The setting a tag/value pair decodes into for `family`.
fn decode_field(family: &DeviceFamily, tag: u8, value: u8) -> (r: DecodedField)
    ensures
        r@ == decoded_field(family@, tag, value),
{
    let defs = setting_definitions(family);
    let ghost tags = definition_tags(defs.deep_view());
    let mut i: usize = 0;
    while i < defs.len()
        invariant
            tags == definition_tags(defs.deep_view()),
            defs.deep_view() == family_definitions(family@),
            i <= defs@.len(),
            forall|j: int| 0 <= j < i ==> tags[j] != tag,
        decreases defs@.len() - i,
    {
        if defs[i].tag == tag {
            proof {
                assert(defs.deep_view()[i as int] == defs@[i as int].deep_view());
                assert(tags[i as int] == tag);
                lemma_first_index(tags, tag, i as int);
                assert(first_index(tags, tag) == Some(i as int));
                assert(decoded_field(family@, tag, value) == definition_decode(
                    defs@[i as int].deep_view(),
                    value,
                ));
            }
            let r = defs[i].decode(value);
            assert(r@ == definition_decode(defs@[i as int].deep_view(), value));
            return r;
        }
        i = i + 1;
    }
    proof {
        lemma_first_index(tags, tag, i as int);
    }
    unknown_tag_field(tag, value)
}


/// The tags of a list of settings, in order.
pub open spec fn field_tags(fs: Seq<DecodedFieldModel>) -> Seq<u16> {
    fs.map_values(|f: DecodedFieldModel| f.tag_id.0)
}

/// Settings keyed by tag; a later setting with the same tag replaces an
/// earlier one.
pub open spec fn fields_by_tag(fs: Seq<DecodedFieldModel>) -> Map<u16, DecodedFieldModel>
    decreases fs.len(),
{
    if fs.len() == 0 {
        Map::empty()
    } else {
        fields_by_tag(fs.drop_last()).insert(fs.last().tag_id.0, fs.last())
    }
}

/// `m` with the settings that the pairs of a reply decode into, in order.
pub open spec fn with_decoded_pairs(
    m: Map<u16, DecodedFieldModel>,
    family: FamilyModel,
    pairs: Seq<(u8, u8)>,
) -> Map<u16, DecodedFieldModel>
    decreases pairs.len(),
{
    if pairs.len() == 0 {
        m
    } else {
        with_decoded_pairs(m, family, pairs.drop_last()).insert(
            pairs.last().0 as u16,
            decoded_field(family, pairs.last().0, pairs.last().1),
        )
    }
}

/// Every setting of a snapshot and of a reply, keyed by tag, the reply's
/// settings replacing the snapshot's.
pub open spec fn merged_fields(old: SnapshotModel, pairs: Seq<(u8, u8)>) -> Map<
    u16,
    DecodedFieldModel,
> {
    with_decoded_pairs(fields_by_tag(old.fields), old.family, pairs)
}

/// The settings of `m` that the registry lists, in registry order.
pub open spec fn known_in_order(defs: Seq<DefinitionModel>, m: Map<u16, DecodedFieldModel>) -> Seq<
    DecodedFieldModel,
>
    decreases defs.len(),
{
    if defs.len() == 0 {
        Seq::empty()
    } else {
        let rest = known_in_order(defs.drop_last(), m);
        let t = defs.last().tag as u16;
        if m.contains_key(t) {
            rest.push(m[t])
        } else {
            rest
        }
    }
}

/// Whether a registry entry has tag `t`.
pub open spec fn is_definition_tag(defs: Seq<DefinitionModel>, t: u16) -> bool {
    exists|i: int| 0 <= i < defs.len() && defs[i].tag as u16 == t
}

/// `rest` lists exactly the settings of `m` under tags the registry does not
/// list, in increasing order of tag.
pub open spec fn is_unlisted_in_order(
    rest: Seq<DecodedFieldModel>,
    m: Map<u16, DecodedFieldModel>,
    defs: Seq<DefinitionModel>,
) -> bool {
    &&& forall|a: int, b: int| 0 <= a < b < rest.len() ==> rest[a].tag_id.0 < rest[b].tag_id.0
    &&& forall|a: int|
        0 <= a < rest.len() ==> m.contains_key(#[trigger] rest[a].tag_id.0) && m[rest[a].tag_id.0]
            == rest[a] && !is_definition_tag(defs, rest[a].tag_id.0)
    &&& forall|t: u16|
        m.contains_key(t) && !is_definition_tag(defs, t) ==> exists|a: int|
            0 <= a < rest.len() && #[trigger] rest[a].tag_id.0 == t
}

/// The number of settings that the registry knows.
pub open spec fn count_known(fs: Seq<DecodedFieldModel>) -> nat
    decreases fs.len(),
{
    if fs.len() == 0 {
        0
    } else {
        count_known(fs.drop_last()) + if fs.last().known {
            1nat
        } else {
            0nat
        }
    }
}

/// How a snapshot reads after a reply with `pairs` was folded in: the
/// settings the registry lists come first, in registry order, then the
/// others by increasing tag; the snapshot is complete when it holds as many
/// known settings as the registry lists (and the registry lists some).
pub open spec fn reply_update(
    old: SnapshotModel,
    pairs: Seq<(u8, u8)>,
    new: SnapshotModel,
    updated: Seq<TagId>,
) -> bool {
    let m = merged_fields(old, pairs);
    let defs = family_definitions(old.family);
    let known = known_in_order(defs, m);
    &&& new.family == old.family
    &&& updated == pairs.map_values(|p: (u8, u8)| TagId(p.0 as u16))
    &&& known.len() <= new.fields.len()
    &&& new.fields.subrange(0, known.len() as int) == known
    &&& is_unlisted_in_order(new.fields.subrange(known.len() as int, new.fields.len() as int), m, defs)
    &&& new.completeness == if defs.len() > 0 && count_known(new.fields) == defs.len() {
        ReadCompleteness::Complete
    } else {
        ReadCompleteness::Partial
    }
}

/// The settings of `m` under tags the registry does not list, by increasing
/// tag.
pub open spec fn unlisted_fields(m: Map<u16, DecodedFieldModel>, defs: Seq<DefinitionModel>) -> Seq<
    DecodedFieldModel,
> {
    choose|rest: Seq<DecodedFieldModel>| is_unlisted_in_order(rest, m, defs)
}

/// The completeness of a snapshot of a family whose registry lists `defs`.
pub open spec fn completeness_of(defs: Seq<DefinitionModel>, fields: Seq<DecodedFieldModel>) -> ReadCompleteness {
    if defs.len() > 0 && count_known(fields) == defs.len() {
        ReadCompleteness::Complete
    } else {
        ReadCompleteness::Partial
    }
}

/// The snapshot a reply with `pairs` turns `old` into.
pub open spec fn snapshot_after_reply(old: SnapshotModel, pairs: Seq<(u8, u8)>) -> SnapshotModel {
    let m = merged_fields(old, pairs);
    let defs = family_definitions(old.family);
    let fields = known_in_order(defs, m) + unlisted_fields(m, defs);
    SnapshotModel { family: old.family, completeness: completeness_of(defs, fields), fields }
}

/// Two lists that each hold exactly the unlisted settings of `m` by
/// increasing tag are the same list.
proof fn lemma_unlisted_unique(
    a: Seq<DecodedFieldModel>,
    b: Seq<DecodedFieldModel>,
    m: Map<u16, DecodedFieldModel>,
    defs: Seq<DefinitionModel>,
)
    requires
        is_unlisted_in_order(a, m, defs),
        is_unlisted_in_order(b, m, defs),
    ensures
        a == b,
    decreases a.len() + b.len(),
{
    if a.len() == 0 || b.len() == 0 {
        if a.len() > 0 {
            let t = a[0].tag_id.0;
            let j = choose|j: int| 0 <= j < b.len() && #[trigger] b[j].tag_id.0 == t;
        }
        if b.len() > 0 {
            let t = b[0].tag_id.0;
            let j = choose|j: int| 0 <= j < a.len() && #[trigger] a[j].tag_id.0 == t;
        }
        assert(a =~= b);
    } else {
        let ta = a[0].tag_id.0;
        let tb = b[0].tag_id.0;
        let j = choose|j: int| 0 <= j < b.len() && #[trigger] b[j].tag_id.0 == ta;
        let i = choose|i: int| 0 <= i < a.len() && #[trigger] a[i].tag_id.0 == tb;
        assert(tb <= ta) by {
            if j > 0 {
                assert(b[0].tag_id.0 < b[j].tag_id.0);
            }
        }
        assert(ta <= tb) by {
            if i > 0 {
                assert(a[0].tag_id.0 < a[i].tag_id.0);
            }
        }
        assert(a[0] == b[0]);
        let m2 = m.remove(ta);
        let a2 = a.drop_first();
        let b2 = b.drop_first();
        assert forall|x: int, y: int| 0 <= x < y < a2.len() implies a2[x].tag_id.0 < a2[y].tag_id.0 by {
            assert(a[x + 1].tag_id.0 < a[y + 1].tag_id.0);
        }
        assert forall|x: int, y: int| 0 <= x < y < b2.len() implies b2[x].tag_id.0 < b2[y].tag_id.0 by {
            assert(b[x + 1].tag_id.0 < b[y + 1].tag_id.0);
        }
        assert forall|x: int| 0 <= x < a2.len() implies m2.contains_key(#[trigger] a2[x].tag_id.0)
            && m2[a2[x].tag_id.0] == a2[x] && !is_definition_tag(defs, a2[x].tag_id.0) by {
            assert(a[0].tag_id.0 < a[x + 1].tag_id.0);
            assert(a2[x] == a[x + 1]);
        }
        assert forall|x: int| 0 <= x < b2.len() implies m2.contains_key(#[trigger] b2[x].tag_id.0)
            && m2[b2[x].tag_id.0] == b2[x] && !is_definition_tag(defs, b2[x].tag_id.0) by {
            assert(b[0].tag_id.0 < b[x + 1].tag_id.0);
            assert(b2[x] == b[x + 1]);
        }
        assert forall|t: u16| m2.contains_key(t) && !is_definition_tag(defs, t) implies exists|x: int|
            0 <= x < a2.len() && #[trigger] a2[x].tag_id.0 == t by {
            let k = choose|k: int| 0 <= k < a.len() && #[trigger] a[k].tag_id.0 == t;
            assert(k != 0);
            assert(a2[k - 1].tag_id.0 == t);
        }
        assert forall|t: u16| m2.contains_key(t) && !is_definition_tag(defs, t) implies exists|x: int|
            0 <= x < b2.len() && #[trigger] b2[x].tag_id.0 == t by {
            let k = choose|k: int| 0 <= k < b.len() && #[trigger] b[k].tag_id.0 == t;
            assert(k != 0);
            assert(b2[k - 1].tag_id.0 == t);
        }
        lemma_unlisted_unique(a2, b2, m2, defs);
        assert(a =~= seq![a[0]] + a2);
        assert(b =~= seq![b[0]] + b2);
    }
}

/// A snapshot that `reply_update` relates to a reply is the one
/// `snapshot_after_reply` names.
pub proof fn lemma_reply_update_is_function(
    old: SnapshotModel,
    pairs: Seq<(u8, u8)>,
    new: SnapshotModel,
    updated: Seq<TagId>,
)
    requires
        reply_update(old, pairs, new, updated),
    ensures
        new == snapshot_after_reply(old, pairs),
{
    let m = merged_fields(old, pairs);
    let defs = family_definitions(old.family);
    let known = known_in_order(defs, m);
    let rest = new.fields.subrange(known.len() as int, new.fields.len() as int);
    assert(is_unlisted_in_order(rest, m, defs));
    let chosen = unlisted_fields(m, defs);
    assert(is_unlisted_in_order(chosen, m, defs));
    lemma_unlisted_unique(rest, chosen, m, defs);
    assert(new.fields =~= known + chosen);
}

/// Each setting of a map sits under its own tag.
pub open spec fn keyed_by_own_tag(m: Map<u16, DecodedFieldModel>) -> bool {
    forall|t: u16| #[trigger] m.contains_key(t) ==> m[t].tag_id.0 == t
}

/// Keying a list by tag puts each setting under its own tag.
proof fn lemma_by_tag_keyed(fs: Seq<DecodedFieldModel>)
    ensures
        keyed_by_own_tag(fields_by_tag(fs)),
        forall|t: u16| #[trigger] fields_by_tag(fs).contains_key(t) <==> field_tags(fs).contains(t),
    decreases fs.len(),
{
    if fs.len() > 0 {
        lemma_by_tag_keyed(fs.drop_last());
        let init = fs.drop_last();
        assert forall|t: u16| #[trigger] fields_by_tag(fs).contains_key(t) <==> field_tags(fs).contains(t) by {
            assert(field_tags(fs) =~= field_tags(init).push(fs.last().tag_id.0));
            crate::app::state::lemma_push_contains(field_tags(init), fs.last().tag_id.0, t);
        }
    } else {
        assert forall|t: u16| #[trigger] fields_by_tag(fs).contains_key(t) <==> field_tags(fs).contains(t) by {
        }
    }
}

/// Decoding reply pairs keeps every setting under its own tag.
proof fn lemma_pairs_keyed(m: Map<u16, DecodedFieldModel>, family: FamilyModel, ps: Seq<(u8, u8)>)
    requires
        keyed_by_own_tag(m),
    ensures
        keyed_by_own_tag(with_decoded_pairs(m, family, ps)),
    decreases ps.len(),
{
    if ps.len() > 0 {
        lemma_pairs_keyed(m, family, ps.drop_last());
        let (tag, value) = ps.last();
        crate::text::lemma_first_index_found(definition_tags(family_definitions(family)), tag);
        assert(decoded_field(family, tag, value).tag_id.0 == tag as u16);
    }
}

/// A list whose settings are all those of `m` under their own tags, and
/// that names every tag of `m`, keys back into `m`.
proof fn lemma_by_tag_of_listing(fs: Seq<DecodedFieldModel>, m: Map<u16, DecodedFieldModel>)
    requires
        forall|i: int| 0 <= i < fs.len() ==> m.contains_key(#[trigger] fs[i].tag_id.0) && m[fs[i].tag_id.0] == fs[i],
    ensures
        forall|t: u16| #[trigger] fields_by_tag(fs).contains_key(t) ==> m.contains_key(t) && fields_by_tag(fs)[t] == m[t],
    decreases fs.len(),
{
    if fs.len() > 0 {
        let init = fs.drop_last();
        assert forall|i: int| 0 <= i < init.len() implies m.contains_key(#[trigger] init[i].tag_id.0)
            && m[init[i].tag_id.0] == init[i] by {
            assert(init[i] == fs[i]);
        }
        lemma_by_tag_of_listing(init, m);
        let l = fs[fs.len() - 1];
        assert(m.contains_key(l.tag_id.0) && m[l.tag_id.0] == l);
        assert(fs.last() == l);
        assert forall|t: u16| #[trigger] fields_by_tag(fs).contains_key(t) implies m.contains_key(t)
            && fields_by_tag(fs)[t] == m[t] by {
            if t != l.tag_id.0 {
                assert(fields_by_tag(init).contains_key(t));
            }
        }
    }
}

/// The value the last pair with tag `t` decodes into, if any pair has it.
pub open spec fn last_decoded(family: FamilyModel, ps: Seq<(u8, u8)>, t: u16) -> Option<DecodedFieldModel>
    decreases ps.len(),
{
    if ps.len() == 0 {
        None
    } else if ps.last().0 as u16 == t {
        Some(decoded_field(family, ps.last().0, ps.last().1))
    } else {
        last_decoded(family, ps.drop_last(), t)
    }
}

/// Decoding pairs into a map: the tags the pairs carry hold what their last
/// pair decodes into, and the other entries stay.
proof fn lemma_pairs_entry(m: Map<u16, DecodedFieldModel>, family: FamilyModel, ps: Seq<(u8, u8)>, t: u16)
    ensures
        with_decoded_pairs(m, family, ps).contains_key(t) <==> (m.contains_key(t) || last_decoded(family, ps, t) is Some),
        last_decoded(family, ps, t) matches Some(f) ==> with_decoded_pairs(m, family, ps)[t] == f,
        last_decoded(family, ps, t) is None && m.contains_key(t) ==> with_decoded_pairs(m, family, ps)[t] == m[t],
    decreases ps.len(),
{
    if ps.len() > 0 {
        lemma_pairs_entry(m, family, ps.drop_last(), t);
    }
}

/// The registry-ordered settings of a map keyed by own tags are settings of
/// the map under their tags, and they name every registry tag the map holds.
proof fn lemma_known_listing(defs: Seq<DefinitionModel>, m: Map<u16, DecodedFieldModel>)
    requires
        keyed_by_own_tag(m),
    ensures
        forall|i: int| 0 <= i < known_in_order(defs, m).len() ==> m.contains_key(
            #[trigger] known_in_order(defs, m)[i].tag_id.0,
        ) && m[known_in_order(defs, m)[i].tag_id.0] == known_in_order(defs, m)[i],
        forall|t: u16|
            m.contains_key(t) && is_definition_tag(defs, t) ==> exists|i: int|
                0 <= i < known_in_order(defs, m).len() && #[trigger] known_in_order(defs, m)[i].tag_id.0 == t,
    decreases defs.len(),
{
    if defs.len() > 0 {
        let init = defs.drop_last();
        lemma_known_listing(init, m);
        let rest = known_in_order(init, m);
        let k = known_in_order(defs, m);
        let t0 = defs.last().tag as u16;
        assert forall|i: int| 0 <= i < k.len() implies m.contains_key(#[trigger] k[i].tag_id.0) && m[k[i].tag_id.0] == k[i] by {
            if i < rest.len() {
                assert(k[i] == rest[i]);
            }
        }
        assert forall|t: u16| m.contains_key(t) && is_definition_tag(defs, t) implies exists|i: int|
            0 <= i < k.len() && #[trigger] k[i].tag_id.0 == t by {
            let j = choose|j: int| 0 <= j < defs.len() && defs[j].tag as u16 == t;
            if j < init.len() {
                assert(init[j].tag as u16 == t);
                assert(is_definition_tag(init, t));
                let i = choose|i: int| 0 <= i < rest.len() && #[trigger] rest[i].tag_id.0 == t;
                assert(k[i] == rest[i]);
            } else {
                assert(t == t0);
                assert(k[rest.len() as int] == m[t0]);
            }
        }
    }
}

/// Folding a reply into the snapshot it produced gives that snapshot again.
pub proof fn law_reply_fold_idempotent(
    old: SnapshotModel,
    pairs: Seq<(u8, u8)>,
    new: SnapshotModel,
    updated: Seq<TagId>,
)
    requires
        reply_update(old, pairs, new, updated),
    ensures
        reply_update(new, pairs, new, updated),
        snapshot_after_reply(new, pairs) == new,
{
    let family = old.family;
    let defs = family_definitions(family);
    let m0 = fields_by_tag(old.fields);
    let m1 = merged_fields(old, pairs);
    lemma_by_tag_keyed(old.fields);
    lemma_pairs_keyed(m0, family, pairs);
    lemma_known_listing(defs, m1);
    let known = known_in_order(defs, m1);
    let rest = new.fields.subrange(known.len() as int, new.fields.len() as int);
    assert forall|i: int| 0 <= i < new.fields.len() implies m1.contains_key(#[trigger] new.fields[i].tag_id.0)
        && m1[new.fields[i].tag_id.0] == new.fields[i] by {
        if i < known.len() {
            assert(new.fields[i] == new.fields.subrange(0, known.len() as int)[i]);
        } else {
            assert(new.fields[i] == rest[i - known.len()]);
        }
    }
    lemma_by_tag_of_listing(new.fields, m1);
    lemma_by_tag_keyed(new.fields);
    let mn = fields_by_tag(new.fields);
    let m2 = merged_fields(new, pairs);
    assert forall|t: u16| #[trigger] m1.contains_key(t) implies mn.contains_key(t) by {
        if is_definition_tag(defs, t) {
            let i = choose|i: int| 0 <= i < known.len() && #[trigger] known[i].tag_id.0 == t;
            assert(new.fields[i] == new.fields.subrange(0, known.len() as int)[i]);
            assert(field_tags(new.fields)[i] == t);
        } else {
            let a = choose|a: int| 0 <= a < rest.len() && #[trigger] rest[a].tag_id.0 == t;
            assert(new.fields[a + known.len()] == rest[a]);
            assert(field_tags(new.fields)[a + known.len()] == t);
        }
    }
    assert forall|t: u16| #[trigger] m2.contains_key(t) == m1.contains_key(t) && (m2.contains_key(t)
        ==> m2[t] == m1[t]) by {
        lemma_pairs_entry(mn, family, pairs, t);
        lemma_pairs_entry(m0, family, pairs, t);
        if last_decoded(family, pairs, t) is None {
            if m1.contains_key(t) {
                assert(mn.contains_key(t));
            }
        }
    }
    assert(m2 =~= m1);
    assert(new.fields.subrange(0, known.len() as int) == known_in_order(family_definitions(new.family), m2));
    lemma_reply_update_is_function(new, pairs, new, updated);
}

/// The map a tag-sorted list of settings stands for.
pub open spec fn list_map(fs: Seq<DecodedFieldModel>) -> Map<u16, DecodedFieldModel> {
    Map::new(|t: u16| field_tags(fs).contains(t), |t: u16| fs[field_tags(fs).index_of(t)])
}

/// Whether tags strictly increase along a list.
pub open spec fn tags_increasing(t: Seq<u16>) -> bool {
    forall|i: int, j: int| 0 <= i < j < t.len() ==> t[i] < t[j]
}

/// Inserts `f` into a tag-sorted list, replacing the setting with its tag.
fn upsert_by_tag(list: &mut Vec<DecodedField>, f: DecodedField)
    requires
        tags_increasing(field_tags(old(list).deep_view())),
    ensures
        tags_increasing(field_tags(final(list).deep_view())),
        list_map(final(list).deep_view()) == list_map(old(list).deep_view()).insert(f@.tag_id.0, f@),
{
    let t = f.tag_id.0;
    let ghost old_dv = list.deep_view();
    let ghost tags = field_tags(old_dv);
    let ghost fv = f@;
    let mut p: usize = 0;
    while p < list.len() && list[p].tag_id.0 < t
        invariant
            list.deep_view() == old_dv,
            tags == field_tags(old_dv),
            p <= old_dv.len(),
            forall|j: int| 0 <= j < p ==> tags[j] < t,
        decreases old_dv.len() - p,
    {
        assert(list.deep_view()[p as int] == list@[p as int]@);
        p = p + 1;
    }
    if p < list.len() {
        assert(list.deep_view()[p as int] == list@[p as int]@);
    }
    if p < list.len() && list[p].tag_id.0 == t {
        list.set(p, f);
        proof {
            let ndv = list.deep_view();
            assert(ndv =~= old_dv.update(p as int, fv));
            let ntags = field_tags(ndv);
            assert(ntags =~= tags);
            assert(tags[p as int] == t);
            assert forall|q: u16| #![trigger ntags.contains(q)]
                ntags.contains(q) implies ndv[ntags.index_of(q)] == list_map(old_dv).insert(t, fv)[q] by {
                let i = ntags.index_of(q);
                assert(ntags[i] == q);
                if q == t {
                    assert(i == p);
                } else {
                    let k = tags.index_of(q);
                    assert(tags[k] == q);
                    assert(k == i);
                }
            }
            assert(tags[p as int] == t);
            assert(list_map(ndv) =~= list_map(old_dv).insert(t, fv));
        }
    } else {
        list.insert(p, f);
        proof {
            let ndv = list.deep_view();
            assert(ndv =~= old_dv.insert(p as int, fv));
            let ntags = field_tags(ndv);
            assert(ntags =~= tags.insert(p as int, t));
            assert(!tags.contains(t)) by {
                if tags.contains(t) {
                    let k = tags.index_of(t);
                    assert(tags[k] == t);
                    if k >= p {
                        assert(p < tags.len());
                        assert(tags[p as int] <= tags[k]);
                    }
                }
            }
            assert forall|q: u16| ntags.contains(q) <==> (q == t || tags.contains(q)) by {
                if tags.contains(q) {
                    let k = tags.index_of(q);
                    let k2 = if k < p { k } else { k + 1 };
                    assert(ntags[k2] == q);
                }
                if ntags.contains(q) && q != t {
                    let i = ntags.index_of(q);
                    if i < p {
                        assert(tags[i] == q);
                    } else {
                        assert(tags[i - 1] == q);
                    }
                }
                if q == t {
                    assert(ntags[p as int] == q);
                }
            }
            assert forall|q: u16| #![trigger ntags.contains(q)]
                ntags.contains(q) implies ndv[ntags.index_of(q)] == list_map(old_dv).insert(t, fv)[q] by {
                let i = ntags.index_of(q);
                assert(ntags[i] == q);
                if q != t {
                    let k = tags.index_of(q);
                    assert(tags[k] == q);
                    let k2 = if k < p { k } else { k + 1 };
                    assert(ntags[k2] == q);
                    assert(i == k2);
                }
            }
            assert(list_map(ndv) =~= list_map(old_dv).insert(t, fv));
        }
    }
}

/// The index of the setting with tag `t` in a tag-sorted list.
fn find_by_tag(list: &Vec<DecodedField>, t: u16) -> (r: Option<usize>)
    requires
        tags_increasing(field_tags(list.deep_view())),
    ensures
        match r {
            Some(i) => i < list@.len() && list_map(list.deep_view()).contains_key(t)
                && list_map(list.deep_view())[t] == list@[i as int]@,
            None => !list_map(list.deep_view()).contains_key(t),
        },
{
    let ghost tags = field_tags(list.deep_view());
    let mut i: usize = 0;
    while i < list.len()
        invariant
            tags == field_tags(list.deep_view()),
            tags_increasing(tags),
            i <= list@.len(),
            forall|j: int| 0 <= j < i ==> tags[j] != t,
        decreases list@.len() - i,
    {
        assert(list.deep_view()[i as int] == list@[i as int]@);
        if list[i].tag_id.0 == t {
            proof {
                assert(tags[i as int] == t);
                assert(tags.contains(t));
                let k = tags.index_of(t);
                assert(tags[k] == t);
                assert(k == i);
            }
            return Some(i);
        }
        i = i + 1;
    }
    None
}

/// Whether a registry entry of `defs` has tag `t`.
fn definition_has_tag(defs: &Vec<SettingDefinition>, t: u16) -> (r: bool)
    ensures
        r == is_definition_tag(defs.deep_view(), t),
{
    let mut i: usize = 0;
    while i < defs.len()
        invariant
            i <= defs@.len(),
            forall|j: int| 0 <= j < i ==> defs.deep_view()[j].tag as u16 != t,
        decreases defs@.len() - i,
    {
        assert(defs.deep_view()[i as int] == defs@[i as int].deep_view());
        if defs[i].tag as u16 == t {
            return true;
        }
        i = i + 1;
    }
    false
}


/// In a tag-sorted list, each setting is what the list's map holds for its tag.
proof fn lemma_list_map_at(fs: Seq<DecodedFieldModel>, j: int)
    requires
        tags_increasing(field_tags(fs)),
        0 <= j < fs.len(),
    ensures
        list_map(fs).contains_key(fs[j].tag_id.0),
        list_map(fs)[fs[j].tag_id.0] == fs[j],
{
    let tags = field_tags(fs);
    assert(tags[j] == fs[j].tag_id.0);
    assert(tags.contains(fs[j].tag_id.0));
    let k = tags.index_of(fs[j].tag_id.0);
    assert(tags[k] == tags[j]);
    assert(k == j);
}

/// Folds a tagged configuration reply into a snapshot. A frame that is not a
/// tagged reply, or a reply with no pairs, changes nothing and gives `None`.
#[verifier::rlimit(60)]
#[verifier::spinoff_prover]
pub fn apply_frame_to_snapshot(snapshot: &ConfigSnapshot, frame: &SysexFrame) -> (r: Option<
    SnapshotUpdate,
>)
    ensures
        match tagged_pairs(frame.raw@) {
            None => r is None,
            Some(ps) => if ps.len() == 0 {
                r is None
            } else {
                r matches Some(u) && reply_update(snapshot@, ps, u.snapshot@, u.updated_tags@)
                    && u.snapshot@ == snapshot_after_reply(snapshot@, ps)
            },
        },
{
    let pairs = match decode_tagged_config_response(frame.raw.as_slice()) {
        Some(p) => p,
        None => {
            return None;
        },
    };
    let ghost ps = pairs@;
    let ghost old_fields = snapshot@.fields;
    let ghost family = snapshot@.family;
    let mut list: Vec<DecodedField> = Vec::new();
    assert(list.deep_view() =~= Seq::<DecodedFieldModel>::empty());
    assert(list_map(list.deep_view()) =~= fields_by_tag(old_fields.subrange(0, 0)));
    for i in 0..snapshot.fields.len()
        invariant
            old_fields == snapshot@.fields,
            tags_increasing(field_tags(list.deep_view())),
            list_map(list.deep_view()) == fields_by_tag(old_fields.subrange(0, i as int)),
    {
        let f = snapshot.fields[i].clone();
        assert(f@ == old_fields[i as int]);
        upsert_by_tag(&mut list, f);
        assert(old_fields.subrange(0, i as int + 1).drop_last() =~= old_fields.subrange(0, i as int));
    }
    assert(old_fields.subrange(0, old_fields.len() as int) =~= old_fields);
    let mut updated_tags: Vec<TagId> = Vec::new();
    for i in 0..pairs.len()
        invariant
            ps == pairs@,
            family == snapshot@.family,
            old_fields == snapshot@.fields,
            tags_increasing(field_tags(list.deep_view())),
            list_map(list.deep_view()) == with_decoded_pairs(
                fields_by_tag(old_fields),
                family,
                ps.subrange(0, i as int),
            ),
            updated_tags@ =~= ps.subrange(0, i as int).map_values(|p: (u8, u8)| TagId(p.0 as u16)),
    {
        let (tag, value) = pairs[i];
        proof {
            let defs_tags = definition_tags(family_definitions(family));
            crate::text::lemma_first_index_found(defs_tags, tag);
            assert(decoded_field(family, tag, value).tag_id == TagId(tag as u16));
            assert(ps.subrange(0, i as int + 1).last() == (tag, value));
        }
        upsert_by_tag(&mut list, decode_field(&snapshot.family, tag, value));
        updated_tags.push(TagId(tag as u16));
        assert(ps.subrange(0, i as int + 1).drop_last() =~= ps.subrange(0, i as int));
    }
    assert(ps.subrange(0, ps.len() as int) =~= ps);
    if updated_tags.len() == 0 {
        return None;
    }
    let ghost m = merged_fields(snapshot@, ps);
    let ghost ldv = list.deep_view();
    assert(list_map(ldv) == m);
    let defs = setting_definitions(&snapshot.family);
    let ghost dm = defs.deep_view();
    let mut fields: Vec<DecodedField> = Vec::new();
    assert(fields.deep_view() =~= known_in_order(dm.subrange(0, 0), m));
    for i in 0..defs.len()
        invariant
            dm == defs.deep_view(),
            ldv == list.deep_view(),
            tags_increasing(field_tags(ldv)),
            list_map(ldv) == m,
            fields.deep_view() == known_in_order(dm.subrange(0, i as int), m),
    {
        assert(dm[i as int] == defs@[i as int].deep_view());
        assert(dm.subrange(0, i as int + 1).drop_last() =~= dm.subrange(0, i as int));
        let ghost before = fields.deep_view();
        match find_by_tag(&list, defs[i].tag as u16) {
            Some(k) => {
                let f = list[k].clone();
                fields.push(f);
                assert(fields.deep_view() =~= before.push(m[dm[i as int].tag as u16]));
            },
            None => {},
        }
    }
    assert(dm.subrange(0, dm.len() as int) =~= dm);
    let ghost known = fields.deep_view();
    let mut rest: Vec<DecodedField> = Vec::new();
    let ghost mut origin: Seq<int> = Seq::empty();
    for i in 0..list.len()
        invariant
            origin.len() == rest@.len(),
            forall|a: int| 0 <= a < origin.len() ==> 0 <= #[trigger] origin[a] < i,
            forall|a: int| 0 <= a < origin.len() ==> ldv[#[trigger] origin[a]] == rest.deep_view()[a],
            dm == defs.deep_view(),
            ldv == list.deep_view(),
            tags_increasing(field_tags(ldv)),
            list_map(ldv) == m,
            forall|a: int, b: int|
                0 <= a < b < rest@.len() ==> rest@[a].tag_id.0 < rest@[b].tag_id.0,
            forall|a: int|
                0 <= a < rest@.len() ==> m.contains_key(#[trigger] rest.deep_view()[a].tag_id.0)
                    && m[rest.deep_view()[a].tag_id.0] == rest.deep_view()[a]
                    && !is_definition_tag(dm, rest.deep_view()[a].tag_id.0),
            forall|j: int|
                0 <= j < i && !is_definition_tag(dm, #[trigger] ldv[j].tag_id.0) ==> exists|a: int|
                    0 <= a < rest@.len() && rest.deep_view()[a].tag_id.0 == ldv[j].tag_id.0,
    {
        assert(ldv[i as int] == list@[i as int]@);
        if !definition_has_tag(&defs, list[i].tag_id.0) {
            let ghost before = rest.deep_view();
            let f = list[i].clone();
            rest.push(f);
            proof {
                origin = origin.push(i as int);
                assert(rest.deep_view() =~= before.push(ldv[i as int]));
                lemma_list_map_at(ldv, i as int);
                let n = rest@.len() - 1;
                assert(rest.deep_view()[n] == ldv[i as int]);
                assert forall|a: int| 0 <= a < n implies rest@[a].tag_id.0 < rest@[n].tag_id.0 by {
                    assert(rest.deep_view()[a] == before[a]);
                    let j = origin[a];
                    assert(ldv[j] == before[a]);
                    assert(field_tags(ldv)[j] < field_tags(ldv)[i as int]);
                    assert(rest.deep_view()[a] == rest@[a]@);
                    assert(rest.deep_view()[n] == rest@[n]@);
                }
                assert forall|a: int| 0 <= a < origin.len() implies ldv[#[trigger] origin[a]]
                    == rest.deep_view()[a] by {
                    if a < n {
                        assert(rest.deep_view()[a] == before[a]);
                    }
                }
                assert forall|j: int|
                    0 <= j < i + 1 && !is_definition_tag(dm, #[trigger] ldv[j].tag_id.0) implies exists|a: int|
                        0 <= a < rest@.len() && rest.deep_view()[a].tag_id.0 == ldv[j].tag_id.0 by {
                    if j < i {
                        let a = choose|a: int|
                            0 <= a < before.len() && before[a].tag_id.0 == ldv[j].tag_id.0;
                        assert(rest.deep_view()[a] == before[a]);
                    } else {
                        assert(rest.deep_view()[n].tag_id.0 == ldv[j].tag_id.0);
                    }
                }
            }
        }
    }
    proof {
        let rdv = rest.deep_view();
        assert forall|t: u16|
            m.contains_key(t) && !is_definition_tag(dm, t) implies exists|a: int|
                0 <= a < rdv.len() && #[trigger] rdv[a].tag_id.0 == t by {
            let tags = field_tags(ldv);
            assert(tags.contains(t));
            let j = tags.index_of(t);
            assert(ldv[j].tag_id.0 == t);
        }
        assert(is_unlisted_in_order(rdv, m, dm));
    }
    let known_len = fields.len();
    for i in 0..rest.len()
        invariant
            known_len == known.len(),
            fields.deep_view() =~= known + rest.deep_view().subrange(0, i as int),
    {
        let ghost before = fields.deep_view();
        let f = rest[i].clone();
        assert(f@ == rest.deep_view()[i as int]);
        fields.push(f);
        assert(fields.deep_view() =~= before.push(rest.deep_view()[i as int]));
        assert(rest.deep_view().subrange(0, i as int + 1) =~= rest.deep_view().subrange(0, i as int).push(
            rest.deep_view()[i as int],
        ));
    }
    assert(rest.deep_view().subrange(0, rest@.len() as int) =~= rest.deep_view());
    let ghost fdv = fields.deep_view();
    assert(fdv.subrange(0, known.len() as int) =~= known);
    assert(fdv.subrange(known.len() as int, fdv.len() as int) =~= rest.deep_view());
    let mut known_loaded: usize = 0;
    for i in 0..fields.len()
        invariant
            fdv == fields.deep_view(),
            known_loaded == count_known(fdv.subrange(0, i as int)),
            known_loaded <= i,
    {
        assert(fdv.subrange(0, i as int + 1).drop_last() =~= fdv.subrange(0, i as int));
        assert(fdv[i as int] == fields@[i as int]@);
        if fields[i].known {
            known_loaded = known_loaded + 1;
        }
    }
    assert(fdv.subrange(0, fdv.len() as int) =~= fdv);
    let completeness = if defs.len() > 0 && known_loaded == defs.len() {
        ReadCompleteness::Complete
    } else {
        ReadCompleteness::Partial
    };
    let r = SnapshotUpdate {
        snapshot: ConfigSnapshot { family: snapshot.family.clone(), completeness, fields },
        updated_tags,
    };
    proof {
        lemma_reply_update_is_function(snapshot@, ps, r.snapshot@, r.updated_tags@);
    }
    Some(r)
}

/// A boolean registry setting reads the byte 0 as false and any other byte
/// as true, keeping its id and tag.
pub proof fn law_boolean_setting_reads_nonzero_as_true(d: DefinitionModel, value: u8)
    requires
        d.kind == DefinitionKindModel::Boolean,
    ensures
        definition_decode(d, value).value == FieldValueModel::Bool(value != 0),
        definition_decode(d, value).kind == SettingKindModel::Boolean,
        definition_decode(d, value).id == d.id,
        definition_decode(d, value).tag_id == TagId(d.tag as u16),
{
}

/// On a Midi Fighter 64, Super Combos (tag 8) reported as 0 is disabled and
/// reported as anything else is enabled.
pub proof fn law_super_combos_reads_nonzero_as_enabled(value: u8)
    ensures
        decoded_field(FamilyModel::MidiFighter64, 8, value).id == "super_combos"@,
        decoded_field(FamilyModel::MidiFighter64, 8, value).value == FieldValueModel::Bool(
            value != 0,
        ),
{
    let defs = family_definitions(FamilyModel::MidiFighter64);
    let tags = definition_tags(defs);
    assert(tags[0] == 0 && tags[1] == 1 && tags[2] == 7 && tags[3] == 8);
    crate::text::lemma_first_index(tags, 8u8, 3);
    assert(defs[3].kind == DefinitionKindModel::Boolean);
}

/// An integer registry setting holds the number of the byte it reads.
pub proof fn law_integer_setting_reads_its_number(
    d: DefinitionModel,
    value: u8,
    min: i32,
    max: i32,
    step: i32,
)
    requires
        d.kind == (DefinitionKindModel::Integer { min, max, step }),
    ensures
        definition_decode(d, value).value == FieldValueModel::Integer(value as i32),
        definition_decode(d, value).kind == (SettingKindModel::Integer { min, max, step }),
{
}

/// An enumerated registry setting holds the option its byte counts to
/// (from 0); a byte past the options is named as unknown, with its number.
pub proof fn law_enum_setting_reads_its_option(d: DefinitionModel, value: u8, options: Seq<Seq<char>>)
    requires
        d.kind == (DefinitionKindModel::Enum { options }),
    ensures
        (value as int) < options.len() ==> definition_decode(d, value).value == FieldValueModel::Text(
            options[value as int],
        ),
        (value as int) >= options.len() ==> definition_decode(d, value).value
            == FieldValueModel::Text("Unknown ("@ + dec_chars(value as nat) + ")"@),
{
}

} // verus!
