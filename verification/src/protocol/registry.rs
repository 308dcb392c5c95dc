//! The device registry: families, decoded settings and the edit rules that
//! each kind of setting follows.
use vstd::prelude::*;

use crate::text::{
    chars_of, contains_chars, contains_seq, hex_spaced, hex_spaced_string, int_chars, lower_all,
    lower_chars, owned, push_int, index_or_zero, lemma_first_index,
};

verus! {

/// A Midi Fighter product line, as far as port names tell it.
#[derive(Debug)]
pub enum DeviceFamily {
    MidiFighter64,
    MidiFighter3D,
    MidiFighterTwister,
    MidiFighterSpectra,
    Unknown(String),
}

/// A device family as a mathematical value.
pub enum FamilyModel {
    MidiFighter64,
    MidiFighter3D,
    MidiFighterTwister,
    MidiFighterSpectra,
    Unknown(Seq<char>),
}

impl View for DeviceFamily {
    type V = FamilyModel;

    open spec fn view(&self) -> FamilyModel {
        match self {
            DeviceFamily::MidiFighter64 => FamilyModel::MidiFighter64,
            DeviceFamily::MidiFighter3D => FamilyModel::MidiFighter3D,
            DeviceFamily::MidiFighterTwister => FamilyModel::MidiFighterTwister,
            DeviceFamily::MidiFighterSpectra => FamilyModel::MidiFighterSpectra,
            DeviceFamily::Unknown(name) => FamilyModel::Unknown(name@),
        }
    }
}

impl DeepView for DeviceFamily {
    type V = FamilyModel;

    open spec fn deep_view(&self) -> FamilyModel {
        self@
    }
}

impl Clone for DeviceFamily {
    fn clone(&self) -> (r: Self)
        ensures
            r == *self,
    {
        match self {
            DeviceFamily::MidiFighter64 => DeviceFamily::MidiFighter64,
            DeviceFamily::MidiFighter3D => DeviceFamily::MidiFighter3D,
            DeviceFamily::MidiFighterTwister => DeviceFamily::MidiFighterTwister,
            DeviceFamily::MidiFighterSpectra => DeviceFamily::MidiFighterSpectra,
            DeviceFamily::Unknown(name) => DeviceFamily::Unknown(name.clone()),
        }
    }
}

/// The family that a port name denotes: the name is lower-cased and searched
/// for "twister", "spectra", "3d" and "midi fighter", in that order.
pub open spec fn family_for_name(name: Seq<char>) -> FamilyModel {
    let lower = lower_chars(name);
    if contains_chars(lower, "twister"@) {
        FamilyModel::MidiFighterTwister
    } else if contains_chars(lower, "spectra"@) {
        FamilyModel::MidiFighterSpectra
    } else if contains_chars(lower, "3d"@) {
        FamilyModel::MidiFighter3D
    } else if contains_chars(lower, "midi fighter"@) {
        FamilyModel::MidiFighter64
    } else {
        FamilyModel::Unknown(name)
    }
}

/// How a family is written for people.
pub open spec fn family_display(f: FamilyModel) -> Seq<char> {
    match f {
        FamilyModel::MidiFighter64 => "Midi Fighter 64"@,
        FamilyModel::MidiFighter3D => "Midi Fighter 3D"@,
        FamilyModel::MidiFighterTwister => "Midi Fighter Twister"@,
        FamilyModel::MidiFighterSpectra => "Midi Fighter Spectra"@,
        FamilyModel::Unknown(name) => name,
    }
}

impl DeviceFamily {
    /// Classifies a MIDI port name.
    pub fn from_name(name: &str) -> (r: Self)
        ensures
            r@ == family_for_name(name@),
    {
        let lower = lower_all(&chars_of(name));
        if contains_seq(&lower, &chars_of("twister")) {
            DeviceFamily::MidiFighterTwister
        } else if contains_seq(&lower, &chars_of("spectra")) {
            DeviceFamily::MidiFighterSpectra
        } else if contains_seq(&lower, &chars_of("3d")) {
            DeviceFamily::MidiFighter3D
        } else if contains_seq(&lower, &chars_of("midi fighter")) {
            DeviceFamily::MidiFighter64
        } else {
            DeviceFamily::Unknown(owned(name))
        }
    }

    /// The family's name as it is shown.
    pub fn display_name(&self) -> (r: String)
        ensures
            r@ == family_display(self@),
    {
        match self {
            DeviceFamily::MidiFighter64 => owned("Midi Fighter 64"),
            DeviceFamily::MidiFighter3D => owned("Midi Fighter 3D"),
            DeviceFamily::MidiFighterTwister => owned("Midi Fighter Twister"),
            DeviceFamily::MidiFighterSpectra => owned("Midi Fighter Spectra"),
            DeviceFamily::Unknown(name) => name.clone(),
        }
    }
}

/// How sure the registry is of what it decoded.
#[derive(Clone, Copy, Debug, PartialEq, Eq, PartialOrd, Ord, Structural)]
pub enum Confidence {
    ObservedOnly,
    Tentative,
    Verified,
}

impl Confidence {
    /// The word that shows this confidence.
    pub fn label(self) -> (r: &'static str)
        ensures
            r@ == (match self {
                Confidence::ObservedOnly => "observed"@,
                Confidence::Tentative => "tentative"@,
                Confidence::Verified => "verified"@,
            }),
    {
        match self {
            Confidence::ObservedOnly => "observed",
            Confidence::Tentative => "tentative",
            Confidence::Verified => "verified",
        }
    }
}

/// Whether every known setting of the family has been read.
#[derive(Clone, Copy, Debug, PartialEq, Eq, Structural)]
pub enum ReadCompleteness {
    Partial,
    Complete,
}

/// The tag under which a setting travels in a tagged config reply.
#[derive(Clone, Copy, Debug, PartialEq, Eq, Structural)]
pub struct TagId(pub u16);

/// How a tag is written: `0x` and at least two upper-case hexadecimal digits.
pub open spec fn tag_text(t: TagId) -> Seq<char> {
    "0x"@ + crate::text::hex_min2(t.0 as nat)
}

impl TagId {
    /// The tag as it is shown.
    pub fn text(&self) -> (r: String)
        ensures
            r@ == tag_text(*self),
    {
        let mut s = owned("0x");
        crate::text::push_hex_min2(&mut s, self.0 as u64);
        s
    }
}

/// The value of one setting.
#[derive(Debug)]
pub enum FieldValue {
    Bool(bool),
    Integer(i32),
    Text(String),
    Bytes(Vec<u8>),
}

/// A setting value as a mathematical value.
pub enum FieldValueModel {
    Bool(bool),
    Integer(i32),
    Text(Seq<char>),
    Bytes(Seq<u8>),
}

impl View for FieldValue {
    type V = FieldValueModel;

    open spec fn view(&self) -> FieldValueModel {
        match self {
            FieldValue::Bool(b) => FieldValueModel::Bool(*b),
            FieldValue::Integer(i) => FieldValueModel::Integer(*i),
            FieldValue::Text(s) => FieldValueModel::Text(s@),
            FieldValue::Bytes(b) => FieldValueModel::Bytes(b@),
        }
    }
}

impl DeepView for FieldValue {
    type V = FieldValueModel;

    open spec fn deep_view(&self) -> FieldValueModel {
        self@
    }
}

/// Copies a byte vector.
pub fn copy_bytes(v: &Vec<u8>) -> (r: Vec<u8>)
    ensures
        r@ == v@,
{
    let r = v.clone();
    assert(r@ =~= v@);
    r
}

/// Whether two byte sequences are equal.
pub fn bytes_equal(a: &[u8], b: &[u8]) -> (r: bool)
    ensures
        r == (a@ == b@),
{
    if a.len() != b.len() {
        return false;
    }
    let mut i: usize = 0;
    while i < a.len()
        invariant
            a@.len() == b@.len(),
            i <= a@.len(),
            forall|k: int| 0 <= k < i ==> a@[k] == b@[k],
        decreases a@.len() - i,
    {
        if a[i] != b[i] {
            return false;
        }
        i = i + 1;
    }
    assert(a@ =~= b@);
    true
}

impl Clone for FieldValue {
    fn clone(&self) -> (r: Self)
        ensures
            r@ == self@,
    {
        match self {
            FieldValue::Bool(b) => FieldValue::Bool(*b),
            FieldValue::Integer(i) => FieldValue::Integer(*i),
            FieldValue::Text(s) => FieldValue::Text(s.clone()),
            FieldValue::Bytes(b) => FieldValue::Bytes(copy_bytes(b)),
        }
    }
}

/// How a setting value is written for people: booleans as enabled/disabled,
/// integers in decimal, text as it is, bytes as spaced upper-case hex.
pub open spec fn value_text(v: FieldValueModel) -> Seq<char> {
    match v {
        FieldValueModel::Bool(b) => if b {
            "enabled"@
        } else {
            "disabled"@
        },
        FieldValueModel::Integer(i) => int_chars(i as int),
        FieldValueModel::Text(s) => s,
        FieldValueModel::Bytes(b) => hex_spaced(b),
    }
}

impl FieldValue {
    /// Whether two values are the same value.
    pub fn equals(&self, other: &FieldValue) -> (r: bool)
        ensures
            r == (self@ == other@),
    {
        match (self, other) {
            (FieldValue::Bool(a), FieldValue::Bool(b)) => *a == *b,
            (FieldValue::Integer(a), FieldValue::Integer(b)) => *a == *b,
            (FieldValue::Text(a), FieldValue::Text(b)) => *a == *b,
            (FieldValue::Bytes(a), FieldValue::Bytes(b)) => bytes_equal(a.as_slice(), b.as_slice()),
            _ => false,
        }
    }

    /// The value as it is shown.
    pub fn display_text(&self) -> (r: String)
        ensures
            r@ == value_text(self@),
    {
        match self {
            FieldValue::Bool(b) => if *b {
                owned("enabled")
            } else {
                owned("disabled")
            },
            FieldValue::Integer(i) => {
                let mut s = String::new();
                push_int(&mut s, *i as i64);
                assert(s@ =~= value_text(self@));
                s
            },
            FieldValue::Text(s) => s.clone(),
            FieldValue::Bytes(b) => hex_spaced_string(b.as_slice()),
        }
    }
}

} // verus!

verus! {

/// What kind of control a setting is, and the bounds of its values.
#[derive(Debug)]
pub enum SettingKind {
    Boolean,
    Integer { min: i32, max: i32, step: i32 },
    Enum { options: Vec<String> },
    Bytes,
}

/// A setting kind as a mathematical value.
pub enum SettingKindModel {
    Boolean,
    Integer { min: i32, max: i32, step: i32 },
    Enum { options: Seq<Seq<char>> },
    Bytes,
}

impl View for SettingKind {
    type V = SettingKindModel;

    open spec fn view(&self) -> SettingKindModel {
        match self {
            SettingKind::Boolean => SettingKindModel::Boolean,
            SettingKind::Integer { min, max, step } => SettingKindModel::Integer {
                min: *min,
                max: *max,
                step: *step,
            },
            SettingKind::Enum { options } => SettingKindModel::Enum { options: options.deep_view() },
            SettingKind::Bytes => SettingKindModel::Bytes,
        }
    }
}

impl DeepView for SettingKind {
    type V = SettingKindModel;

    open spec fn deep_view(&self) -> SettingKindModel {
        self@
    }
}

/// Copies a list of strings.
pub fn copy_strings(v: &Vec<String>) -> (r: Vec<String>)
    ensures
        r.deep_view() == v.deep_view(),
{
    let mut out: Vec<String> = Vec::new();
    for i in 0..v.len()
        invariant
            out@.len() == i,
            forall|k: int| 0 <= k < i ==> #[trigger] out@[k]@ == v@[k]@,
    {
        let s = v[i].clone();
        out.push(s);
    }
    assert(out.deep_view() =~= v.deep_view());
    out
}

impl Clone for SettingKind {
    fn clone(&self) -> (r: Self)
        ensures
            r@ == self@,
    {
        match self {
            SettingKind::Boolean => SettingKind::Boolean,
            SettingKind::Integer { min, max, step } => SettingKind::Integer {
                min: *min,
                max: *max,
                step: *step,
            },
            SettingKind::Enum { options } => SettingKind::Enum { options: copy_strings(options) },
            SettingKind::Bytes => SettingKind::Bytes,
        }
    }
}

/// `x` held within `[lo, hi]`.
pub open spec fn clamp_int(x: int, lo: int, hi: int) -> int {
    if x < lo {
        lo
    } else if x > hi {
        hi
    } else {
        x
    }
}

/// The option `delta` steps away from the current one, wrapping around the
/// list; an unlisted current value counts as the first option.
pub open spec fn cycle_choice(options: Seq<Seq<char>>, current: FieldValueModel, delta: int) -> Option<
    FieldValueModel,
> {
    match current {
        FieldValueModel::Text(cur) => if options.len() == 0 {
            None
        } else {
            Some(
                FieldValueModel::Text(
                    options[(index_or_zero(options, cur) + delta) % (options.len() as int)],
                ),
            )
        },
        _ => None,
    }
}

/// Cycling stays within `i32` arithmetic.
pub open spec fn cycle_in_range(options: Seq<Seq<char>>, current: FieldValueModel, delta: int) -> bool {
    &&& options.len() <= i32::MAX
    &&& current matches FieldValueModel::Text(cur) ==> i32::MIN <= index_or_zero(options, cur)
        + delta <= i32::MAX
}

/// The value a setting takes when it is stepped by `delta`.
pub open spec fn adjusted_value(kind: SettingKindModel, current: FieldValueModel, delta: int) -> Option<
    FieldValueModel,
> {
    match kind {
        SettingKindModel::Boolean => match current {
            FieldValueModel::Bool(b) => Some(FieldValueModel::Bool(!b)),
            _ => None,
        },
        SettingKindModel::Integer { min, max, step } => match current {
            FieldValueModel::Integer(v) => Some(
                FieldValueModel::Integer(clamp_int(v + delta * step, min as int, max as int) as i32),
            ),
            _ => None,
        },
        SettingKindModel::Enum { options } => cycle_choice(options, current, delta),
        SettingKindModel::Bytes => None,
    }
}

/// The value a setting takes when it is activated: booleans flip, integers
/// and enumerations step forward by one, raw bytes do not change.
pub open spec fn activated_value(kind: SettingKindModel, current: FieldValueModel) -> Option<
    FieldValueModel,
> {
    match kind {
        SettingKindModel::Boolean => match current {
            FieldValueModel::Bool(b) => Some(FieldValueModel::Bool(!b)),
            _ => None,
        },
        SettingKindModel::Integer { min, max, step } => match current {
            FieldValueModel::Integer(v) => Some(
                FieldValueModel::Integer(clamp_int(v + step, min as int, max as int) as i32),
            ),
            _ => None,
        },
        SettingKindModel::Enum { options } => cycle_choice(options, current, 1),
        SettingKindModel::Bytes => None,
    }
}

/// Activating a setting is the same as stepping it forward by one.
pub proof fn law_activate_is_step_forward(kind: SettingKindModel, current: FieldValueModel)
    ensures
        activated_value(kind, current) == adjusted_value(kind, current, 1),
{
}

/// Stepping by `delta` stays within `i32` arithmetic and the bounds are ordered.
pub open spec fn adjust_in_range(kind: SettingKindModel, current: FieldValueModel, delta: int) -> bool {
    match kind {
        SettingKindModel::Integer { min, max, step } => current matches FieldValueModel::Integer(v)
            ==> {
            &&& min <= max
            &&& i32::MIN <= delta * step <= i32::MAX
            &&& i32::MIN <= v + delta * step <= i32::MAX
        },
        SettingKindModel::Enum { options } => cycle_in_range(options, current, delta),
        _ => true,
    }
}

/// `x` modulo `m`, always in `[0, m)`.
pub fn euclid_mod(x: i32, m: i32) -> (r: i32)
    requires
        m > 0,
    ensures
        r as int == (x as int) % (m as int),
        0 <= r < m,
{
    let xx = x as i64;
    let mm = m as i64;
    if xx >= 0 {
        (xx % mm) as i32
    } else {
        let q = (-xx) % mm;
        proof {
            let a = x as int;
            let b = m as int;
            assert(q as int == (-a) % b);
            assert((-a) == b * ((-a) / b) + (-a) % b) by (nonlinear_arith)
                requires b > 0;
            let k = (-a) / b;
            if q == 0 {
                assert(a == b * (-k)) by (nonlinear_arith)
                    requires -a == b * k + 0;
                vstd::arithmetic::div_mod::lemma_mod_multiples_basic(-k, b);
                assert(a % b == 0);
            } else {
                assert(a == b * (-k - 1) + (b - q as int)) by (nonlinear_arith)
                    requires -a == b * k + q as int;
                vstd::arithmetic::div_mod::lemma_mod_multiples_vanish(
                    -k - 1,
                    b - q as int,
                    b,
                );
                vstd::arithmetic::div_mod::lemma_small_mod((b - q as int) as nat, b as nat);
            }
        }
        if q == 0 {
            0
        } else {
            (mm - q) as i32
        }
    }
}

/// The position of `cur` among `options`, or 0 when it is not listed.
pub(crate) fn option_position(options: &Vec<String>, cur: &String) -> (r: usize)
    ensures
        r == index_or_zero(options.deep_view(), cur@),
        options@.len() > 0 ==> r < options@.len(),
{
    let ghost opts = options.deep_view();
    let mut index: usize = 0;
    let mut found = false;
    while index < options.len()
        invariant_except_break
            !found,
        invariant
            opts == options.deep_view(),
            index <= options@.len(),
            forall|j: int| 0 <= j < index ==> opts[j] != cur@,
        ensures
            found ==> index < options@.len() && opts[index as int] == cur@,
            !found ==> index == options@.len(),
            forall|j: int| 0 <= j < index ==> opts[j] != cur@,
        decreases options@.len() - index,
    {
        if options[index] == *cur {
            found = true;
            break;
        }
        index = index + 1;
    }
    proof {
        lemma_first_index(opts, cur@, index as int);
    }
    if found {
        index
    } else {
        0
    }
}

/// The option `delta` steps away from the current one.
pub fn cycle_enum(options: &Vec<String>, current: &FieldValue, delta: i32) -> (r: Option<FieldValue>)
    requires
        cycle_in_range(options.deep_view(), current@, delta as int),
    ensures
        r.deep_view() == cycle_choice(options.deep_view(), current@, delta as int),
{
    let cur = match current {
        FieldValue::Text(cur) => cur,
        _ => {
            return None;
        },
    };
    let current_index = option_position(options, cur) as i32;
    let len = options.len() as i32;
    if len == 0 {
        return None;
    }
    let next_index = euclid_mod(current_index + delta, len) as usize;
    Some(FieldValue::Text(options[next_index].clone()))
}

impl SettingKind {
    /// The value after activating the setting once.
    pub fn activate(&self, current: &FieldValue) -> (r: Option<FieldValue>)
        requires
            adjust_in_range(self@, current@, 1),
        ensures
            r.deep_view() == activated_value(self@, current@),
    {
        match self {
            SettingKind::Boolean => match current {
                FieldValue::Bool(value) => Some(FieldValue::Bool(!*value)),
                _ => None,
            },
            SettingKind::Enum { options } => cycle_enum(options, current, 1),
            SettingKind::Integer { .. } => self.adjust(current, 1),
            SettingKind::Bytes => None,
        }
    }

    /// The value after stepping the setting by `delta`.
    pub fn adjust(&self, current: &FieldValue, delta: i32) -> (r: Option<FieldValue>)
        requires
            adjust_in_range(self@, current@, delta as int),
        ensures
            r.deep_view() == adjusted_value(self@, current@, delta as int),
    {
        match self {
            SettingKind::Boolean => match current {
                FieldValue::Bool(value) => Some(FieldValue::Bool(!*value)),
                _ => None,
            },
            SettingKind::Integer { min, max, step } => match current {
                FieldValue::Integer(value) => {
                    let raw = *value + delta * *step;
                    let next = if raw < *min {
                        *min
                    } else if raw > *max {
                        *max
                    } else {
                        raw
                    };
                    Some(FieldValue::Integer(next))
                },
                _ => None,
            },
            SettingKind::Enum { options } => cycle_enum(options, current, delta),
            SettingKind::Bytes => None,
        }
    }
}

} // verus!

verus! {

/// One setting as decoded from a device reply.
#[derive(Debug)]
pub struct DecodedField {
    pub id: String,
    pub label: String,
    pub tag_id: TagId,
    pub value: FieldValue,
    pub kind: SettingKind,
    pub confidence: Confidence,
    pub editable: bool,
    pub known: bool,
    pub notes: Option<String>,
    pub source_bytes: Vec<u8>,
}

/// A decoded setting as a mathematical value.
pub struct DecodedFieldModel {
    pub id: Seq<char>,
    pub label: Seq<char>,
    pub tag_id: TagId,
    pub value: FieldValueModel,
    pub kind: SettingKindModel,
    pub confidence: Confidence,
    pub editable: bool,
    pub known: bool,
    pub notes: Option<Seq<char>>,
    pub source_bytes: Seq<u8>,
}

impl View for DecodedField {
    type V = DecodedFieldModel;

    open spec fn view(&self) -> DecodedFieldModel {
        DecodedFieldModel {
            id: self.id@,
            label: self.label@,
            tag_id: self.tag_id,
            value: self.value@,
            kind: self.kind@,
            confidence: self.confidence,
            editable: self.editable,
            known: self.known,
            notes: self.notes.deep_view(),
            source_bytes: self.source_bytes@,
        }
    }
}

impl DeepView for DecodedField {
    type V = DecodedFieldModel;

    open spec fn deep_view(&self) -> DecodedFieldModel {
        self@
    }
}

/// Copies an optional string.
pub fn copy_opt_string(s: &Option<String>) -> (r: Option<String>)
    ensures
        r == *s,
{
    match s {
        Some(s) => Some(s.clone()),
        None => None,
    }
}

impl Clone for DecodedField {
    fn clone(&self) -> (r: Self)
        ensures
            r@ == self@,
    {
        DecodedField {
            id: self.id.clone(),
            label: self.label.clone(),
            tag_id: self.tag_id,
            value: self.value.clone(),
            kind: self.kind.clone(),
            confidence: self.confidence,
            editable: self.editable,
            known: self.known,
            notes: copy_opt_string(&self.notes),
            source_bytes: copy_bytes(&self.source_bytes),
        }
    }
}

/// Copies a list of decoded settings.
pub fn copy_fields(v: &Vec<DecodedField>) -> (r: Vec<DecodedField>)
    ensures
        r.deep_view() == v.deep_view(),
{
    let mut out: Vec<DecodedField> = Vec::new();
    for i in 0..v.len()
        invariant
            out@.len() == i,
            forall|k: int| 0 <= k < i ==> #[trigger] out@[k]@ == v@[k]@,
    {
        let f = v[i].clone();
        out.push(f);
    }
    assert(out.deep_view() =~= v.deep_view());
    out
}

/// What is known of a device's configuration.
#[derive(Debug)]
pub struct ConfigSnapshot {
    pub family: DeviceFamily,
    pub completeness: ReadCompleteness,
    pub fields: Vec<DecodedField>,
}

/// A configuration snapshot as a mathematical value.
pub struct SnapshotModel {
    pub family: FamilyModel,
    pub completeness: ReadCompleteness,
    pub fields: Seq<DecodedFieldModel>,
}

impl View for ConfigSnapshot {
    type V = SnapshotModel;

    open spec fn view(&self) -> SnapshotModel {
        SnapshotModel {
            family: self.family@,
            completeness: self.completeness,
            fields: self.fields.deep_view(),
        }
    }
}

impl DeepView for ConfigSnapshot {
    type V = SnapshotModel;

    open spec fn deep_view(&self) -> SnapshotModel {
        self@
    }
}

impl Clone for ConfigSnapshot {
    fn clone(&self) -> (r: Self)
        ensures
            r@ == self@,
    {
        ConfigSnapshot {
            family: self.family.clone(),
            completeness: self.completeness,
            fields: copy_fields(&self.fields),
        }
    }
}

/// The settings of a snapshot that the registry knows, in snapshot order.
pub open spec fn known_fields_of(fields: Seq<DecodedFieldModel>) -> Seq<DecodedFieldModel>
    decreases fields.len(),
{
    if fields.len() == 0 {
        Seq::empty()
    } else if fields.last().known {
        known_fields_of(fields.drop_last()).push(fields.last())
    } else {
        known_fields_of(fields.drop_last())
    }
}

} // verus!

verus! {

/// A snapshot together with the edits staged against it.
#[derive(Debug)]
pub struct StagedConfig {
    pub base_snapshot: ConfigSnapshot,
    pub edits: crate::protocol::edits::StagedEdits,
}

/// How a port name's family is read, from its lower-cased form: "twister"
/// makes a Twister; otherwise "spectra" a Spectra; otherwise "3d" a 3D;
/// otherwise "midi fighter" a Midi Fighter 64; any other name is unknown
/// and kept as given.
pub proof fn law_family_from_lowercased_name(name: Seq<char>)
    ensures
        contains_chars(lower_chars(name), "twister"@) ==> family_for_name(name)
            == FamilyModel::MidiFighterTwister,
        !contains_chars(lower_chars(name), "twister"@) && contains_chars(
            lower_chars(name),
            "spectra"@,
        ) ==> family_for_name(name) == FamilyModel::MidiFighterSpectra,
        !contains_chars(lower_chars(name), "twister"@) && !contains_chars(
            lower_chars(name),
            "spectra"@,
        ) && contains_chars(lower_chars(name), "3d"@) ==> family_for_name(name)
            == FamilyModel::MidiFighter3D,
        !contains_chars(lower_chars(name), "twister"@) && !contains_chars(
            lower_chars(name),
            "spectra"@,
        ) && !contains_chars(lower_chars(name), "3d"@) && contains_chars(
            lower_chars(name),
            "midi fighter"@,
        ) ==> family_for_name(name) == FamilyModel::MidiFighter64,
        !contains_chars(lower_chars(name), "twister"@) && !contains_chars(
            lower_chars(name),
            "spectra"@,
        ) && !contains_chars(lower_chars(name), "3d"@) && !contains_chars(
            lower_chars(name),
            "midi fighter"@,
        ) ==> family_for_name(name) == FamilyModel::Unknown(name),
{
}

} // verus!
