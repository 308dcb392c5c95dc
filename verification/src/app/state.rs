//! The editor's state and the queries and small updates the rest of the
//! editor uses.
use vstd::prelude::*;

use std::collections::{BTreeMap, BTreeSet};

use crate::protocol::edits::StagedEdits;
use crate::protocol::frame::{FrameModel, SysexFrame};
use crate::protocol::registry::{
    copy_bytes, known_fields_of, ConfigSnapshot, DecodedField, DecodedFieldModel, FieldValue,
    FieldValueModel, SnapshotModel,
};
use crate::transport::ports::{ConnectionState, DeviceModel, DeviceRef};
use crate::text::first_index;

verus! {

/// A bulk read whose chunks are still arriving.
#[derive(Debug)]
pub struct PendingBulkRead {
    pub total_chunks: u8,
    pub chunks: BTreeMap<u8, Vec<u8>>,
}

/// A pending bulk read as a mathematical value.
pub struct PendingModel {
    pub total_chunks: u8,
    pub chunks: Map<u8, Seq<u8>>,
}

impl View for PendingBulkRead {
    type V = PendingModel;

    open spec fn view(&self) -> PendingModel {
        PendingModel {
            total_chunks: self.total_chunks,
            chunks: self.chunks@.map_values(|v: Vec<u8>| v@),
        }
    }
}

impl Default for PendingBulkRead {
    fn default() -> (r: Self)
        ensures
            r@.total_chunks == 0,
            r@.chunks == Map::<u8, Seq<u8>>::empty(),
    {
        let r = PendingBulkRead { total_chunks: 0, chunks: BTreeMap::new() };
        assert(r@.chunks =~= Map::<u8, Seq<u8>>::empty());
        r
    }
}

/// Chunks `1..=n` joined in order.
pub open spec fn joined_chunks(chunks: Map<u8, Seq<u8>>, n: nat) -> Seq<u8>
    decreases n,
{
    if n == 0 {
        Seq::empty()
    } else {
        joined_chunks(chunks, (n - 1) as nat) + chunks[n as u8]
    }
}

/// Whether chunks `1..=n` are all present.
pub open spec fn has_chunks(chunks: Map<u8, Seq<u8>>, n: nat) -> bool {
    forall|k: u8| 1 <= k <= n ==> #[trigger] chunks.contains_key(k)
}

/// A pending read after chunk `index` of `total` arrived with `data`, and
/// the whole buffer if that completed it: the count is taken from the
/// newest chunk, and the buffer is complete when exactly chunks `1..=total`
/// are held.
pub open spec fn pending_after_chunk(p: PendingModel, index: u8, total: u8, data: Seq<u8>) -> (
    PendingModel,
    Option<Seq<u8>>,
) {
    let chunks = p.chunks.insert(index, data);
    let next = PendingModel { total_chunks: total, chunks };
    if total == 0 || chunks.len() != total as nat || !has_chunks(chunks, total as nat) {
        (next, None)
    } else {
        (next, Some(joined_chunks(chunks, total as nat)))
    }
}

impl PendingBulkRead {
    /// Records a chunk; answers the whole buffer once every chunk is in.
    pub fn push_chunk(&mut self, chunk_index: u8, total_chunks: u8, data: Vec<u8>) -> (r: Option<
        Vec<u8>,
    >)
        ensures
            (final(self)@, r.deep_view()) == pending_after_chunk(
                old(self)@,
                chunk_index,
                total_chunks,
                data@,
            ),
    {
        let ghost d = data@;
        self.total_chunks = total_chunks;
        self.chunks.insert(chunk_index, data);
        proof {
            crate::order::lemma_keys_ordered();
            assert(self@.chunks =~= old(self)@.chunks.insert(chunk_index, d));
            assert(self@.chunks.dom() =~= self.chunks@.dom());
        }
        let ghost chunks = self@.chunks;
        if self.total_chunks == 0 || self.chunks.len() != self.total_chunks as usize {
            return None;
        }
        let mut combined: Vec<u8> = Vec::new();
        let mut index: u16 = 1;
        assert(combined@ =~= joined_chunks(chunks, 0));
        while index <= total_chunks as u16
            invariant
                1 <= index <= total_chunks as int + 1,
                chunks == self@.chunks,
                chunks == old(self)@.chunks.insert(chunk_index, d),
                d == data@,
                combined@ == joined_chunks(chunks, (index - 1) as nat),
                has_chunks(chunks, (index - 1) as nat),
                total_chunks == self.total_chunks,
                crate::order::byte_keys_ordered(),
            decreases total_chunks as int + 1 - index,
        {
            let key = index as u8;
            let bytes = match self.chunks.get(&key) {
                Some(b) => b,
                None => {
                    proof {
                        assert(!chunks.contains_key(key));
                        assert(!has_chunks(chunks, total_chunks as nat));
                        assert(pending_after_chunk(old(self)@, chunk_index, total_chunks, d).1 is None);
                        assert(pending_after_chunk(old(self)@, chunk_index, total_chunks, d).0 == self@);
                    }
                    return None;
                },
            };
            assert(bytes@ == chunks[key]);
            combined.extend_from_slice(bytes.as_slice());
            assert(combined@ =~= joined_chunks(chunks, index as nat));
            assert(has_chunks(chunks, index as nat)) by {
                assert forall|k: u8| 1 <= k <= index implies #[trigger] chunks.contains_key(k) by {
                    if k < index {
                        assert(has_chunks(chunks, (index - 1) as nat));
                    }
                }
            }
            index = index + 1;
        }
        Some(combined)
    }
}

/// The device's pad colour buffers (three bytes per pad), as far as read.
#[derive(Debug)]
pub struct PadColorSnapshot {
    pub inactive: Option<Vec<u8>>,
    pub active: Option<Vec<u8>>,
}

/// Pad colour buffers as mathematical values.
pub struct PadColorsModel {
    pub inactive: Option<Seq<u8>>,
    pub active: Option<Seq<u8>>,
}

impl View for PadColorSnapshot {
    type V = PadColorsModel;

    open spec fn view(&self) -> PadColorsModel {
        PadColorsModel { inactive: self.inactive.deep_view(), active: self.active.deep_view() }
    }
}

impl DeepView for PadColorSnapshot {
    type V = PadColorsModel;

    open spec fn deep_view(&self) -> PadColorsModel {
        self@
    }
}

impl Default for PadColorSnapshot {
    fn default() -> (r: Self)
        ensures
            r@ == (PadColorsModel { inactive: None, active: None }),
    {
        PadColorSnapshot { inactive: None, active: None }
    }
}

/// Copies an optional byte buffer.
pub fn copy_opt_bytes(b: &Option<Vec<u8>>) -> (r: Option<Vec<u8>>)
    ensures
        r.deep_view() == b.deep_view(),
{
    match b {
        Some(v) => {
            let c = copy_bytes(v);
            assert(c.deep_view() =~= v.deep_view());
            Some(c)
        },
        None => None,
    }
}

/// Whether two optional byte buffers are equal.
pub fn opt_bytes_equal(a: &Option<Vec<u8>>, b: &Option<Vec<u8>>) -> (r: bool)
    ensures
        r == (a.deep_view() == b.deep_view()),
{
    match (a, b) {
        (Some(x), Some(y)) => {
            let r = crate::protocol::registry::bytes_equal(x.as_slice(), y.as_slice());
            assert(x.deep_view() =~= x@);
            assert(y.deep_view() =~= y@);
            r
        },
        (None, None) => true,
        _ => false,
    }
}

impl Clone for PadColorSnapshot {
    fn clone(&self) -> (r: Self)
        ensures
            r@ == self@,
    {
        PadColorSnapshot {
            inactive: copy_opt_bytes(&self.inactive),
            active: copy_opt_bytes(&self.active),
        }
    }
}

/// How many of the two buffers are loaded.
pub open spec fn loaded_count(p: PadColorsModel) -> nat {
    (if p.inactive is Some {
        1nat
    } else {
        0nat
    }) + (if p.active is Some {
        1nat
    } else {
        0nat
    })
}

impl PadColorSnapshot {
    /// How many of the two buffers are loaded.
    pub fn loaded_buffers(&self) -> (r: usize)
        ensures
            r == loaded_count(self@),
    {
        (if self.inactive.is_some() {
            1usize
        } else {
            0usize
        }) + (if self.active.is_some() {
            1usize
        } else {
            0usize
        })
    }

    /// Whether two snapshots hold the same buffers.
    pub fn same_as(&self, other: &PadColorSnapshot) -> (r: bool)
        ensures
            r == (self@ == other@),
    {
        opt_bytes_equal(&self.inactive, &other.inactive) && opt_bytes_equal(
            &self.active,
            &other.active,
        )
    }
}

/// Which pad colour buffer edits go to.
#[derive(Clone, Copy, Debug, PartialEq, Eq, Structural)]
pub enum ColorTarget {
    Inactive,
    Active,
}

/// The name of a colour target.
pub open spec fn target_label(t: ColorTarget) -> Seq<char> {
    match t {
        ColorTarget::Inactive => "inactive"@,
        ColorTarget::Active => "active"@,
    }
}

impl ColorTarget {
    /// The other target.
    pub fn toggle(self) -> (r: Self)
        ensures
            r != self,
    {
        match self {
            ColorTarget::Inactive => ColorTarget::Active,
            ColorTarget::Active => ColorTarget::Inactive,
        }
    }

    /// The name of the target.
    pub fn label(self) -> (r: &'static str)
        ensures
            r@ == target_label(self),
    {
        match self {
            ColorTarget::Inactive => "inactive",
            ColorTarget::Active => "active",
        }
    }
}

/// The screens of the editor, in tab order.
#[derive(Clone, Copy, Debug, PartialEq, Eq, Structural)]
pub enum Screen {
    Devices,
    Settings,
    PadColors,
    PacketLog,
    ImportExport,
}

/// The position of a screen in tab order.
pub open spec fn screen_index(s: Screen) -> int {
    match s {
        Screen::Devices => 0,
        Screen::Settings => 1,
        Screen::PadColors => 2,
        Screen::PacketLog => 3,
        Screen::ImportExport => 4,
    }
}

/// The screen at a position in tab order.
pub open spec fn screen_at(i: int) -> Screen {
    if i == 0 {
        Screen::Devices
    } else if i == 1 {
        Screen::Settings
    } else if i == 2 {
        Screen::PadColors
    } else if i == 3 {
        Screen::PacketLog
    } else {
        Screen::ImportExport
    }
}

/// The title of a screen.
pub open spec fn screen_title(s: Screen) -> Seq<char> {
    match s {
        Screen::Devices => "Devices"@,
        Screen::Settings => "Settings"@,
        Screen::PadColors => "Pad Colors"@,
        Screen::PacketLog => "Activity Log"@,
        Screen::ImportExport => "Import/Export"@,
    }
}

impl Screen {
    /// Every screen, in tab order.
    pub fn all() -> (r: [Screen; 5])
        ensures
            forall|i: int| 0 <= i < 5 ==> #[trigger] r@[i] == screen_at(i),
    {
        [Screen::Devices, Screen::Settings, Screen::PadColors, Screen::PacketLog, Screen::ImportExport]
    }

    /// The tab title of the screen.
    pub fn title(self) -> (r: &'static str)
        ensures
            r@ == screen_title(self),
    {
        match self {
            Screen::Devices => "Devices",
            Screen::Settings => "Settings",
            Screen::PadColors => "Pad Colors",
            Screen::PacketLog => "Activity Log",
            Screen::ImportExport => "Import/Export",
        }
    }

    /// The next screen in tab order, wrapping around.
    pub fn next(self) -> (r: Self)
        ensures
            r == screen_at((screen_index(self) + 1) % 5),
    {
        let all = Screen::all();
        let mut index: usize = 0;
        while index < 5 && all[index] != self
            invariant
                index <= 5,
                forall|i: int| 0 <= i < 5 ==> #[trigger] all@[i] == screen_at(i),
                forall|j: int| 0 <= j < index ==> screen_at(j) != self,
            decreases 5 - index,
        {
            index = index + 1;
        }
        proof {
            assert(screen_at(screen_index(self)) == self);
            assert(index < 5);
            assert(screen_at(index as int) == self);
            assert(index as int == screen_index(self));
        }
        all[(index + 1) % 5]
    }

    /// The previous screen in tab order, wrapping around.
    pub fn prev(self) -> (r: Self)
        ensures
            r == screen_at((screen_index(self) + 4) % 5),
    {
        let all = Screen::all();
        let mut index: usize = 0;
        while index < 5 && all[index] != self
            invariant
                index <= 5,
                forall|i: int| 0 <= i < 5 ==> #[trigger] all@[i] == screen_at(i),
                forall|j: int| 0 <= j < index ==> screen_at(j) != self,
            decreases 5 - index,
        {
            index = index + 1;
        }
        proof {
            assert(screen_at(screen_index(self)) == self);
            assert(index < 5);
            assert(screen_at(index as int) == self);
            assert(index as int == screen_index(self));
        }
        all[(index + 5 - 1) % 5]
    }
}

/// What the editor is doing.
#[derive(Clone, Copy, Debug, PartialEq, Eq, Structural)]
pub enum AppMode {
    Booting,
    Idle,
    Scanning,
    Connected,
    ReadingConfig,
    Editing,
    ApplyingChanges,
    CaptureMode,
    Error,
}

/// The word that shows a mode.
pub open spec fn mode_label(m: AppMode) -> Seq<char> {
    match m {
        AppMode::Booting => "booting"@,
        AppMode::Idle => "idle"@,
        AppMode::Scanning => "scanning"@,
        AppMode::Connected => "connected"@,
        AppMode::ReadingConfig => "reading"@,
        AppMode::Editing => "editing"@,
        AppMode::ApplyingChanges => "applying"@,
        AppMode::CaptureMode => "capture"@,
        AppMode::Error => "error"@,
    }
}

impl AppMode {
    /// The word that shows the mode.
    pub fn label(self) -> (r: &'static str)
        ensures
            r@ == mode_label(self),
    {
        match self {
            AppMode::Booting => "booting",
            AppMode::Idle => "idle",
            AppMode::Scanning => "scanning",
            AppMode::Connected => "connected",
            AppMode::ReadingConfig => "reading",
            AppMode::Editing => "editing",
            AppMode::ApplyingChanges => "applying",
            AppMode::CaptureMode => "capture",
            AppMode::Error => "error",
        }
    }
}


/// Everything the editor holds.
#[derive(Debug)]
pub struct AppState {
    pub screen: Screen,
    pub should_quit: bool,
    pub devices: Vec<DeviceRef>,
    pub selected_device_idx: usize,
    pub selected_setting_idx: usize,
    pub selected_packet_idx: usize,
    pub connected_device_id: Option<String>,
    pub snapshot: Option<ConfigSnapshot>,
    pub pad_colors: Option<PadColorSnapshot>,
    pub staged_pad_colors: Option<PadColorSnapshot>,
    pub selected_pad_bank: usize,
    pub selected_pad_button_idx: usize,
    pub selected_pad_buttons: BTreeSet<usize>,
    pub selected_color_target: ColorTarget,
    pub pending_bulk_reads: BTreeMap<u8, PendingBulkRead>,
    pub pad_color_reads_requested: bool,
    pub staged_edits: StagedEdits,
    pub packet_log: Vec<SysexFrame>,
    pub event_log: Vec<String>,
    pub status_message: String,
    pub last_error: Option<String>,
    pub app_mode: AppMode,
    pub apply_modal_open: bool,
    pub help_modal_open: bool,
}

/// The editor's state as a mathematical value.
pub struct AppModel {
    pub screen: Screen,
    pub should_quit: bool,
    pub devices: Seq<DeviceModel>,
    pub selected_device_idx: usize,
    pub selected_setting_idx: usize,
    pub selected_packet_idx: usize,
    pub connected_device_id: Option<Seq<char>>,
    pub snapshot: Option<SnapshotModel>,
    pub pad_colors: Option<PadColorsModel>,
    pub staged_pad_colors: Option<PadColorsModel>,
    pub selected_pad_bank: usize,
    pub selected_pad_button_idx: usize,
    pub selected_pad_buttons: Set<usize>,
    pub selected_color_target: ColorTarget,
    pub pending_bulk_reads: Map<u8, PendingModel>,
    pub pad_color_reads_requested: bool,
    pub staged_edits: Map<Seq<char>, FieldValueModel>,
    pub packet_log: Seq<FrameModel>,
    pub event_log: Seq<Seq<char>>,
    pub status_message: Seq<char>,
    pub last_error: Option<Seq<char>>,
    pub app_mode: AppMode,
    pub apply_modal_open: bool,
    pub help_modal_open: bool,
}

impl View for AppState {
    type V = AppModel;

    open spec fn view(&self) -> AppModel {
        AppModel {
            screen: self.screen,
            should_quit: self.should_quit,
            devices: self.devices.deep_view(),
            selected_device_idx: self.selected_device_idx,
            selected_setting_idx: self.selected_setting_idx,
            selected_packet_idx: self.selected_packet_idx,
            connected_device_id: self.connected_device_id.deep_view(),
            snapshot: self.snapshot.deep_view(),
            pad_colors: self.pad_colors.deep_view(),
            staged_pad_colors: self.staged_pad_colors.deep_view(),
            selected_pad_bank: self.selected_pad_bank,
            selected_pad_button_idx: self.selected_pad_button_idx,
            selected_pad_buttons: self.selected_pad_buttons@,
            selected_color_target: self.selected_color_target,
            pending_bulk_reads: self.pending_bulk_reads@.map_values(|p: PendingBulkRead| p@),
            pad_color_reads_requested: self.pad_color_reads_requested,
            staged_edits: self.staged_edits@,
            packet_log: self.packet_log.deep_view(),
            event_log: self.event_log.deep_view(),
            status_message: self.status_message@,
            last_error: self.last_error.deep_view(),
            app_mode: self.app_mode,
            apply_modal_open: self.apply_modal_open,
            help_modal_open: self.help_modal_open,
        }
    }
}

/// The most events the log keeps.
pub open spec fn event_log_limit() -> nat {
    200
}

/// A log with its oldest entries dropped beyond the limit.
pub open spec fn keep_latest(log: Seq<Seq<char>>) -> Seq<Seq<char>> {
    if log.len() > event_log_limit() {
        log.subrange(log.len() - event_log_limit(), log.len() as int)
    } else {
        log
    }
}

/// `s` with `msg` logged.
pub open spec fn with_event(s: AppModel, msg: Seq<char>) -> AppModel {
    AppModel { event_log: keep_latest(s.event_log.push(msg)), ..s }
}

/// `s` showing `msg` as its status.
pub open spec fn with_status(s: AppModel, msg: Seq<char>) -> AppModel {
    AppModel { status_message: msg, ..s }
}

/// `s` after an error: the error is kept, shown, logged, and the mode is Error.
pub open spec fn with_error(s: AppModel, msg: Seq<char>) -> AppModel {
    with_event(
        AppModel {
            last_error: Some(msg),
            status_message: msg,
            app_mode: AppMode::Error,
            ..s
        },
        "error: "@ + msg,
    )
}

/// The state the editor starts in.
pub open spec fn initial_model() -> AppModel {
    AppModel {
        screen: Screen::Devices,
        should_quit: false,
        devices: Seq::empty(),
        selected_device_idx: 0,
        selected_setting_idx: 0,
        selected_packet_idx: 0,
        connected_device_id: None,
        snapshot: None,
        pad_colors: None,
        staged_pad_colors: None,
        selected_pad_bank: 0,
        selected_pad_button_idx: 0,
        selected_pad_buttons: Set::empty(),
        selected_color_target: ColorTarget::Active,
        pending_bulk_reads: Map::empty(),
        pad_color_reads_requested: false,
        staged_edits: Map::empty(),
        packet_log: Seq::empty(),
        event_log: seq!["Application booted."@],
        status_message: "Press r to scan MIDI ports."@,
        last_error: None,
        app_mode: AppMode::Booting,
        apply_modal_open: false,
        help_modal_open: false,
    }
}

/// The index of the first device with id `id`.
pub open spec fn device_position(devices: Seq<DeviceModel>, id: Seq<char>) -> Option<int> {
    first_index(devices.map_values(|d: DeviceModel| d.id), id)
}

/// The connected device, if the connected id names a listed device.
pub open spec fn connected_device_of(s: AppModel) -> Option<DeviceModel> {
    match s.connected_device_id {
        Some(id) => match device_position(s.devices, id) {
            Some(i) => Some(s.devices[i]),
            None => None,
        },
        None => None,
    }
}

/// The known settings of the snapshot, if any.
pub open spec fn known_of(s: AppModel) -> Seq<DecodedFieldModel> {
    match s.snapshot {
        Some(snap) => known_fields_of(snap.fields),
        None => Seq::empty(),
    }
}

/// The selected known setting, if the index is in range.
pub open spec fn selected_known_of(s: AppModel) -> Option<DecodedFieldModel> {
    if s.snapshot is Some && s.selected_setting_idx < known_of(s).len() {
        Some(known_of(s)[s.selected_setting_idx as int])
    } else {
        None
    }
}

/// The value a setting shows: the staged one if any, else the device's.
pub open spec fn current_value_of(s: AppModel, f: DecodedFieldModel) -> FieldValueModel {
    if s.staged_edits.contains_key(f.id) {
        s.staged_edits[f.id]
    } else {
        f.value
    }
}

/// How many pads differ between two buffers: only whole pads (three bytes)
/// that both buffers hold are compared.
pub open spec fn changed_pads(device: Option<Seq<u8>>, staged: Option<Seq<u8>>) -> nat {
    match (device, staged) {
        (Some(d), Some(t)) => {
            let pads = (if d.len() < t.len() {
                d.len()
            } else {
                t.len()
            }) / 3;
            changed_pads_below(d, t, pads)
        },
        _ => 0,
    }
}

/// How many of the first `n` pads differ.
pub open spec fn changed_pads_below(d: Seq<u8>, t: Seq<u8>, n: nat) -> nat
    decreases n,
{
    if n == 0 {
        0
    } else {
        let i = n - 1;
        changed_pads_below(d, t, (n - 1) as nat) + if d.subrange(3 * i, 3 * i + 3) != t.subrange(
            3 * i,
            3 * i + 3,
        ) {
            1nat
        } else {
            0nat
        }
    }
}

/// How many pads carry staged colour edits.
pub open spec fn dirty_pads_of(s: AppModel) -> nat {
    match (s.pad_colors, s.staged_pad_colors) {
        (Some(device), Some(staged)) => changed_pads(device.inactive, staged.inactive)
            + changed_pads(device.active, staged.active),
        _ => 0,
    }
}

/// The number of staged changes, settings and pads together (saturating at
/// the largest `usize`).
pub open spec fn dirty_count_of(s: AppModel) -> nat {
    let n = s.staged_edits.len() + dirty_pads_of(s);
    if n > usize::MAX {
        usize::MAX as nat
    } else {
        n
    }
}

/// The colours the pad screen shows: staged ones first, else the device's.
pub open spec fn current_pad_colors_of(s: AppModel) -> Option<PadColorsModel> {
    match s.staged_pad_colors {
        Some(c) => Some(c),
        None => s.pad_colors,
    }
}

/// Counts pads that differ between two colour buffers.
fn count_changed_pads(device: Option<&[u8]>, staged: Option<&[u8]>) -> (r: usize)
    ensures
        r == changed_pads(
            match device {
                Some(d) => Some(d@),
                None => None,
            },
            match staged {
                Some(t) => Some(t@),
                None => None,
            },
        ),
        r <= usize::MAX / 3,
{
    let (device, staged) = match (device, staged) {
        (Some(d), Some(t)) => (d, t),
        _ => {
            return 0;
        },
    };
    let shorter = if device.len() < staged.len() {
        device.len()
    } else {
        staged.len()
    };
    let pad_count = shorter / 3;
    let mut count: usize = 0;
    let mut index: usize = 0;
    while index < pad_count
        invariant
            index <= pad_count,
            pad_count == shorter / 3,
            shorter <= device@.len(),
            shorter <= staged@.len(),
            count == changed_pads_below(device@, staged@, index as nat),
            count <= index,
        decreases pad_count - index,
    {
        let start = index * 3;
        let d = &device[start..start + 3];
        let t = &staged[start..start + 3];
        if !crate::protocol::registry::bytes_equal(d, t) {
            count = count + 1;
        }
        index = index + 1;
    }
    count
}


impl AppState {
    /// The state the editor starts in.
    pub fn new() -> (r: Self)
        ensures
            r@ == initial_model(),
    {
        let mut state = AppState {
            screen: Screen::Devices,
            should_quit: false,
            devices: Vec::new(),
            selected_device_idx: 0,
            selected_setting_idx: 0,
            selected_packet_idx: 0,
            connected_device_id: None,
            snapshot: None,
            pad_colors: None,
            staged_pad_colors: None,
            selected_pad_bank: 0,
            selected_pad_button_idx: 0,
            selected_pad_buttons: BTreeSet::new(),
            selected_color_target: ColorTarget::Active,
            pending_bulk_reads: BTreeMap::new(),
            pad_color_reads_requested: false,
            staged_edits: StagedEdits::new(),
            packet_log: Vec::new(),
            event_log: Vec::new(),
            status_message: String::from_str("Press r to scan MIDI ports."),
            last_error: None,
            app_mode: AppMode::Booting,
            apply_modal_open: false,
            help_modal_open: false,
        };
        state.push_event("Application booted.");
        proof {
            assert(state@.devices =~= Seq::<DeviceModel>::empty());
            assert(state@.packet_log =~= Seq::<FrameModel>::empty());
            assert(state@.pending_bulk_reads =~= Map::<u8, PendingModel>::empty());
            assert(state@.event_log =~= seq!["Application booted."@]);
        }
        state
    }

    /// The device under the device cursor.
    pub fn selected_device(&self) -> (r: Option<&DeviceRef>)
        ensures
            match r {
                Some(d) => self.selected_device_idx < self@.devices.len() && d@
                    == self@.devices[self.selected_device_idx as int],
                None => self.selected_device_idx >= self@.devices.len(),
            },
    {
        if self.selected_device_idx < self.devices.len() {
            Some(&self.devices[self.selected_device_idx])
        } else {
            None
        }
    }

    /// The first listed device whose id is the connected id.
    pub fn connected_device(&self) -> (r: Option<&DeviceRef>)
        ensures
            r.deep_view() == connected_device_of(self@),
    {
        let connected_id = match &self.connected_device_id {
            Some(id) => id,
            None => {
                return None;
            },
        };
        let ghost ids = self@.devices.map_values(|d: DeviceModel| d.id);
        let mut i: usize = 0;
        while i < self.devices.len()
            invariant
                ids == self@.devices.map_values(|d: DeviceModel| d.id),
                self@.connected_device_id == Some(connected_id@),
                i <= self@.devices.len(),
                forall|j: int| 0 <= j < i ==> ids[j] != connected_id@,
            decreases self@.devices.len() - i,
        {
            assert(ids[i as int] == self.devices@[i as int]@.id);
            if self.devices[i].id == *connected_id {
                proof {
                    assert(ids[i as int] == connected_id@);
                    crate::text::lemma_first_index(ids, connected_id@, i as int);
                    assert(device_position(self@.devices, connected_id@) == Some(i as int));
                    assert(self@.devices[i as int] == self.devices@[i as int]@);
                }
                return Some(&self.devices[i]);
            }
            i = i + 1;
        }
        proof {
            crate::text::lemma_first_index(ids, connected_id@, i as int);
        }
        None
    }

    /// The known settings of the snapshot, in snapshot order.
    pub fn known_fields(&self) -> (r: Vec<&DecodedField>)
        ensures
            r.deep_view() == known_of(self@),
    {
        let mut out: Vec<&DecodedField> = Vec::new();
        match &self.snapshot {
            None => {
                assert(out.deep_view() =~= known_of(self@));
            },
            Some(snapshot) => {
                let ghost fs = snapshot@.fields;
                assert(out.deep_view() =~= known_fields_of(fs.subrange(0, 0)));
                for i in 0..snapshot.fields.len()
                    invariant
                        fs == snapshot@.fields,
                        out.deep_view() == known_fields_of(fs.subrange(0, i as int)),
                {
                    assert(fs.subrange(0, i as int + 1).drop_last() =~= fs.subrange(0, i as int));
                    assert(fs[i as int] == snapshot.fields@[i as int]@);
                    if snapshot.fields[i].known {
                        let ghost before = out.deep_view();
                        out.push(&snapshot.fields[i]);
                        assert(out.deep_view() =~= before.push(fs[i as int]));
                    }
                }
                assert(fs.subrange(0, fs.len() as int) =~= fs);
            },
        }
        out
    }

    /// The known setting under the settings cursor.
    pub fn selected_known_field(&self) -> (r: Option<&DecodedField>)
        ensures
            r.deep_view() == selected_known_of(self@),
    {
        let known = self.known_fields();
        assert(known.deep_view().len() == known@.len());
        if self.selected_setting_idx < known.len() {
            assert(self@.snapshot is Some);
            assert(known.deep_view()[self.selected_setting_idx as int] == known@[self.selected_setting_idx as int]@);
            Some(known[self.selected_setting_idx])
        } else {
            None
        }
    }

    /// The value a setting shows: the staged one if any, else the device's.
    pub fn current_value_for(&self, field: &DecodedField) -> (r: FieldValue)
        ensures
            r@ == current_value_of(self@, field@),
    {
        match self.staged_edits.get(&field.id) {
            Some(v) => v.clone(),
            None => field.value.clone(),
        }
    }

    /// The number of staged pad colour changes.
    pub fn dirty_pad_color_count(&self) -> (r: usize)
        ensures
            r == dirty_pads_of(self@),
    {
        let device = match &self.pad_colors {
            Some(d) => d,
            None => {
                return 0;
            },
        };
        let staged = match &self.staged_pad_colors {
            Some(t) => t,
            None => {
                return 0;
            },
        };
        let a = count_changed_pads(
            match &device.inactive {
                Some(v) => Some(v.as_slice()),
                None => None,
            },
            match &staged.inactive {
                Some(v) => Some(v.as_slice()),
                None => None,
            },
        );
        let b = count_changed_pads(
            match &device.active {
                Some(v) => Some(v.as_slice()),
                None => None,
            },
            match &staged.active {
                Some(v) => Some(v.as_slice()),
                None => None,
            },
        );
        proof {
            assert(device@.inactive == match &device.inactive {
                Some(v) => Some(v@),
                None => None::<Seq<u8>>,
            });
            assert(device@.active == match &device.active {
                Some(v) => Some(v@),
                None => None::<Seq<u8>>,
            });
            assert(staged@.inactive == match &staged.inactive {
                Some(v) => Some(v@),
                None => None::<Seq<u8>>,
            });
            assert(staged@.active == match &staged.active {
                Some(v) => Some(v@),
                None => None::<Seq<u8>>,
            });
        }
        a + b
    }

    /// The number of staged changes, settings and pads together.
    pub fn dirty_count(&self) -> (r: usize)
        ensures
            r == dirty_count_of(self@),
    {
        self.staged_edits.len().saturating_add(self.dirty_pad_color_count())
    }

    /// The colours the pad screen shows.
    pub fn current_pad_colors(&self) -> (r: Option<&PadColorSnapshot>)
        ensures
            r.deep_view() == current_pad_colors_of(self@),
    {
        match &self.staged_pad_colors {
            Some(c) => Some(c),
            None => match &self.pad_colors {
                Some(c) => Some(c),
                None => None,
            },
        }
    }

    /// Logs `message`, keeping only the latest entries.
    pub fn push_event(&mut self, message: &str)
        ensures
            final(self)@ == with_event(old(self)@, message@),
    {
        let ghost before = self.event_log.deep_view();
        self.event_log.push(String::from_str(message));
        assert(self.event_log.deep_view() =~= before.push(message@));
        if self.event_log.len() > 200 {
            let overflow = self.event_log.len() - 200;
            let ghost pushed = self.event_log.deep_view();
            let kept = self.event_log.split_off(overflow);
            self.event_log = kept;
            assert(self.event_log.deep_view() =~= pushed.subrange(
                overflow as int,
                pushed.len() as int,
            ));
        }
    }

    /// Shows `status`.
    pub fn set_status(&mut self, status: &str)
        ensures
            final(self)@ == with_status(old(self)@, status@),
    {
        self.status_message = String::from_str(status);
    }

    /// Records an error: it is kept, shown, logged, and the mode becomes Error.
    pub fn mark_error(&mut self, error: &str)
        ensures
            final(self)@ == with_error(old(self)@, error@),
    {
        self.last_error = Some(String::from_str(error));
        self.status_message = String::from_str(error);
        self.app_mode = AppMode::Error;
        let msg = crate::text::concat2("error: ", error);
        self.push_event(msg.as_str());
    }

    /// Forgets the last error.
    pub fn clear_error(&mut self)
        ensures
            final(self)@ == (AppModel { last_error: None, ..old(self)@ }),
    {
        self.last_error = None;
    }
}


/// `s` with every cursor moved back into range: list cursors onto the last
/// entry when past the end of a non-empty list, the pad cursor onto the last
/// pad, and pads beyond the last dropped from the selection.
pub open spec fn normalized(s: AppModel) -> AppModel {
    let known_len = known_of(s).len();
    AppModel {
        selected_device_idx: if s.selected_device_idx >= s.devices.len() && s.devices.len() > 0 {
            (s.devices.len() - 1) as usize
        } else {
            s.selected_device_idx
        },
        selected_setting_idx: if s.selected_setting_idx >= known_len && known_len > 0 {
            (known_len - 1) as usize
        } else {
            s.selected_setting_idx
        },
        selected_packet_idx: if s.selected_packet_idx >= s.packet_log.len() && s.packet_log.len()
            > 0 {
            (s.packet_log.len() - 1) as usize
        } else {
            s.selected_packet_idx
        },
        selected_pad_button_idx: if s.selected_pad_button_idx > 127 {
            127
        } else {
            s.selected_pad_button_idx
        },
        selected_pad_buttons: s.selected_pad_buttons.filter(|b: usize| b < 128),
        ..s
    }
}

/// `s` with `id` as the connected device: exactly the listed devices with
/// that id are marked connected.
pub open spec fn with_connection(s: AppModel, id: Option<Seq<char>>) -> AppModel {
    AppModel {
        connected_device_id: id,
        devices: Seq::new(
            s.devices.len(),
            |i: int| connected_as(s.devices[i], id),
        ),
        ..s
    }
}

/// Appending `x` adds exactly `x` to what a sequence contains.
pub proof fn lemma_push_contains<A>(s: Seq<A>, x: A, c: A)
    ensures
        s.push(x).contains(c) <==> (s.contains(c) || c == x),
{
    if s.contains(c) {
        let k = s.index_of(c);
        assert(s.push(x)[k] == c);
    }
    if c == x {
        assert(s.push(x)[s.len() as int] == c);
    }
    if s.push(x).contains(c) && c != x {
        let k = s.push(x).index_of(c);
        assert(k < s.len());
        assert(s[k] == c);
    }
}

/// The members of `set` below 128, in increasing order.
pub fn pads_in_order(set: &BTreeSet<usize>) -> (r: Vec<usize>)
    ensures
        forall|i: int, j: int| 0 <= i < j < r@.len() ==> r@[i] < r@[j],
        forall|b: usize| #[trigger] r@.contains(b) <==> (set@.contains(b) && b < 128),
        forall|i: int| 0 <= i < r@.len() ==> r@[i] < 128,
{
    proof {
        crate::order::lemma_keys_ordered();
    }
    let mut out: Vec<usize> = Vec::new();
    for b in 0..128usize
        invariant
            crate::order::index_keys_ordered(),
            forall|i: int, j: int| 0 <= i < j < out@.len() ==> out@[i] < out@[j],
            forall|i: int| 0 <= i < out@.len() ==> out@[i] < b,
            forall|c: usize| #[trigger] out@.contains(c) <==> (set@.contains(c) && c < b),
    {
        let ghost before = out@;
        if set.contains(&b) {
            out.push(b);
            assert forall|c: usize| #[trigger] out@.contains(c) <==> (set@.contains(c) && c < b + 1) by {
                lemma_push_contains(before, b, c);
            }
        } else {
            assert forall|c: usize| #[trigger] out@.contains(c) <==> (set@.contains(c) && c < b + 1) by {
                if c == b {
                    assert(!(set@.contains(c) && c < b));
                }
            }
        }
    }
    out
}

/// A device marked connected exactly when its id is `id`.
pub open spec fn connected_as(d: DeviceModel, id: Option<Seq<char>>) -> DeviceModel {
    DeviceModel {
        connection_state: if id == Some(d.id) {
            ConnectionState::Connected
        } else {
            ConnectionState::Disconnected
        },
        ..d
    }
}

impl AppState {
    /// Moves every cursor back into range.
    pub fn normalize_selection(&mut self)
        ensures
            final(self)@ == normalized(old(self)@),
    {
        proof {
            crate::order::lemma_keys_ordered();
        }
        if self.selected_device_idx >= self.devices.len() && self.devices.len() > 0 {
            self.selected_device_idx = self.devices.len() - 1;
        }
        let known_len = self.known_fields().len();
        if self.selected_setting_idx >= known_len && known_len > 0 {
            self.selected_setting_idx = known_len - 1;
        }
        if self.selected_packet_idx >= self.packet_log.len() && self.packet_log.len() > 0 {
            self.selected_packet_idx = self.packet_log.len() - 1;
        }
        if self.selected_pad_button_idx > 127 {
            self.selected_pad_button_idx = 127;
        }
        let kept = pads_in_order(&self.selected_pad_buttons);
        let mut buttons: BTreeSet<usize> = BTreeSet::new();
        for i in 0..kept.len()
            invariant
                crate::order::index_keys_ordered(),
                forall|b: usize| #[trigger] buttons@.contains(b) <==> kept@.subrange(0, i as int).contains(b),
        {
            buttons.insert(kept[i]);
            assert(kept@.subrange(0, i as int + 1) =~= kept@.subrange(0, i as int).push(kept@[i as int]));
            assert forall|b: usize| #[trigger] buttons@.contains(b) <==> kept@.subrange(0, i as int + 1).contains(b) by {
                lemma_push_contains(kept@.subrange(0, i as int), kept@[i as int], b);
            }
        }
        assert(kept@.subrange(0, kept@.len() as int) =~= kept@);
        let ghost old_buttons = self.selected_pad_buttons@;
        self.selected_pad_buttons = buttons;
        proof {
            assert forall|b: usize| #[trigger] self.selected_pad_buttons@.contains(b) <==> (
            old_buttons.contains(b) && b < 128) by {
            }
            assert(self.selected_pad_buttons@ =~= old_buttons.filter(|b: usize| b < 128));
        }
    }

    /// Records `device_id` as the connected device and marks each listed
    /// device connected or not.
    pub fn set_connected_device(&mut self, device_id: Option<String>)
        ensures
            final(self)@ == with_connection(old(self)@, device_id.deep_view()),
    {
        let ghost id = device_id.deep_view();
        let ghost old_devices = self@.devices;
        self.connected_device_id = copy_opt(&device_id);
        let ghost pre = self@;
        assert(pre == AppModel { connected_device_id: id, ..old(self)@ });
        let n = self.devices.len();
        for i in 0..n
            invariant
                self@ == (AppModel { devices: self@.devices, ..pre }),
                n == self.devices@.len(),
                old_devices.len() == n,
                id == device_id.deep_view(),
                forall|k: int| i <= k < n ==> #[trigger] self.devices@[k]@ == old_devices[k],
                forall|k: int|
                    0 <= k < i ==> #[trigger] self.devices@[k]@ == connected_as(old_devices[k], id),
        {
            let state = match &device_id {
                Some(current) => if *current == self.devices[i].id {
                    ConnectionState::Connected
                } else {
                    ConnectionState::Disconnected
                },
                None => ConnectionState::Disconnected,
            };
            let mut d = self.devices[i].clone();
            assert(d@ == old_devices[i as int]);
            assert(state == connected_as(old_devices[i as int], id).connection_state);
            d.connection_state = state;
            assert(d@ == connected_as(old_devices[i as int], id));
            self.devices.set(i, d);
        }
        assert(self@.devices =~= with_connection(old(self)@, id).devices);
        assert(self@ == with_connection(old(self)@, id));
    }
}

/// Copies an optional string.
fn copy_opt(s: &Option<String>) -> (r: Option<String>)
    ensures
        r == *s,
{
    crate::protocol::registry::copy_opt_string(s)
}


/// The bound on setting numbers that keeps every edit within `i32`.
pub open spec fn setting_bound() -> int {
    32768
}

/// A setting kind whose bounds are ordered and small.
pub open spec fn kind_in_range(k: crate::protocol::registry::SettingKindModel) -> bool {
    match k {
        crate::protocol::registry::SettingKindModel::Integer { min, max, step } => {
            &&& min <= max
            &&& -setting_bound() <= min <= setting_bound()
            &&& -setting_bound() <= max <= setting_bound()
            &&& -setting_bound() <= step <= setting_bound()
        },
        crate::protocol::registry::SettingKindModel::Enum { options } => options.len()
            <= setting_bound(),
        _ => true,
    }
}

/// A setting value that is small.
pub open spec fn value_in_range(v: FieldValueModel) -> bool {
    match v {
        FieldValueModel::Integer(i) => -setting_bound() <= i <= setting_bound(),
        _ => true,
    }
}

/// Every setting has small bounds and a small value.
pub open spec fn fields_in_range(fs: Seq<DecodedFieldModel>) -> bool {
    forall|i: int|
        0 <= i < fs.len() ==> kind_in_range(#[trigger] fs[i].kind) && value_in_range(fs[i].value)
}

/// The invariant the editor keeps: the pad bank and cursor lie on the grid,
/// selected pads are on the grid, the event log is within its limit, and
/// setting kinds and values are small.
pub open spec fn state_wf(s: AppModel) -> bool {
    &&& s.selected_pad_bank < 2
    &&& s.selected_pad_button_idx < 128
    &&& forall|b: usize| #[trigger] s.selected_pad_buttons.contains(b) ==> b < 128
    &&& s.event_log.len() <= event_log_limit()
    &&& s.snapshot matches Some(snap) ==> fields_in_range(snap.fields)
    &&& forall|k: Seq<char>| #[trigger] s.staged_edits.contains_key(k) ==> value_in_range(
        s.staged_edits[k],
    )
}

/// Moving one screen forward and one back returns to the same screen, and
/// five steps forward go round the tabs once.
pub proof fn law_screen_tabs_cycle(s: Screen)
    ensures
        screen_at((screen_index(screen_at((screen_index(s) + 1) % 5)) + 4) % 5) == s,
        screen_at((screen_index(screen_at((screen_index(s) + 4) % 5)) + 1) % 5) == s,
        ({
            let step = |x: Screen| screen_at((screen_index(x) + 1) % 5);
            step(step(step(step(step(s))))) == s
        }),
{
}

/// Putting the cursors back into range twice changes nothing more.
pub proof fn law_normalize_idempotent(s: AppModel)
    ensures
        normalized(normalized(s)) == normalized(s),
{
    let n = normalized(s);
    assert(known_of(n) == known_of(s));
    assert(n.selected_pad_buttons.filter(|b: usize| b < 128) =~= n.selected_pad_buttons);
}

} // verus!
