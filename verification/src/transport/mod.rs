//! The MIDI side of the editor: the operations a transport offers, and how
//! port names are read.
pub mod ports;

use vstd::prelude::*;

use crate::protocol::edits::{chars_less, chars_lt, lemma_chars_lt_total, lemma_chars_lt_trans};
use crate::protocol::frame::{FrameModel, SysexFrame};
use crate::protocol::registry::{family_for_name, Confidence, DeviceFamily};
use crate::text::{chars_of, contains_chars, contains_seq, lower_all, lower_chars, lower_ascii};
use crate::transport::ports::{ConnectionState, DeviceModel, DeviceRef, TransportError, TransportErrorModel};

verus! {

/// One call made on a transport, with its answer, as mathematical values;
/// `HandedOut` marks that the backend was handed out of the editor.
pub enum TransportCall {
    Scan(Result<Seq<DeviceModel>, TransportErrorModel>),
    Connect(DeviceModel, Result<Option<Seq<char>>, TransportErrorModel>),
    Disconnect(Result<(), TransportErrorModel>),
    Poll(Result<Seq<FrameModel>, TransportErrorModel>),
    Send(Seq<u8>, Result<FrameModel, TransportErrorModel>),
    HandedOut,
}

/// A scan's answer as a mathematical value.
pub open spec fn scan_answer(r: &Result<Vec<DeviceRef>, TransportError>) -> Result<Seq<DeviceModel>, TransportErrorModel> {
    match r {
        Ok(d) => Ok(d.deep_view()),
        Err(e) => Err(e@),
    }
}

/// A connect's answer as a mathematical value.
pub open spec fn connect_answer(r: &Result<Option<String>, TransportError>) -> Result<Option<Seq<char>>, TransportErrorModel> {
    match r {
        Ok(Some(n)) => Ok(Some(n@)),
        Ok(None) => Ok(None),
        Err(e) => Err(e@),
    }
}

/// A disconnect's answer as a mathematical value.
pub open spec fn unit_answer(r: &Result<(), TransportError>) -> Result<(), TransportErrorModel> {
    match r {
        Ok(()) => Ok(()),
        Err(e) => Err(e@),
    }
}

/// A poll's answer as a mathematical value.
pub open spec fn poll_answer(r: &Result<Vec<SysexFrame>, TransportError>) -> Result<Seq<FrameModel>, TransportErrorModel> {
    match r {
        Ok(fs) => Ok(fs.deep_view()),
        Err(e) => Err(e@),
    }
}

/// A send's answer as a mathematical value.
pub open spec fn send_answer(r: &Result<SysexFrame, TransportError>) -> Result<FrameModel, TransportErrorModel> {
    match r {
        Ok(f) => Ok(f@),
        Err(e) => Err(e@),
    }
}

/// What the editor needs from a MIDI backend.
pub trait MidiTransport {
    /// The Midi Fighter ports that can be seen now.
    fn scan_devices(&mut self) -> Result<Vec<DeviceRef>, TransportError>;

    /// Opens the device's ports, with an optional note for the event log.
    fn connect(&mut self, device: &DeviceRef) -> Result<Option<String>, TransportError>;

    /// Closes the open ports.
    fn disconnect(&mut self) -> Result<(), TransportError>;

    /// The frames received since the last poll.
    fn poll_packets(&mut self) -> Result<Vec<SysexFrame>, TransportError>;

    /// Sends bytes, answering with the frame that records them: an
    /// implementation's answer holds exactly the bytes it was given.
    fn send(&mut self, bytes: &[u8]) -> (r: Result<SysexFrame, TransportError>)
        ensures
            r matches Ok(f) ==> f@.raw == bytes@,
    ;

    /// Waits before a scan is tried again; by default it does not wait.
    fn pause_before_retry(&mut self) {
    }
}

/// A backend together with the record of the calls the editor made on it,
/// each with its answer. The editor reaches the backend only through the
/// methods here, each of which adds its call to the end of the record;
/// handing the backend out is recorded too.
pub struct Recorded<T: MidiTransport> {
    backend: T,
    log: Ghost<Seq<TransportCall>>,
}

impl<T: MidiTransport> Recorded<T> {
    /// The calls made so far, oldest first.
    pub closed spec fn calls(&self) -> Seq<TransportCall> {
        self.log@
    }

    /// `backend` with nothing recorded yet.
    pub fn new(backend: T) -> (r: Self)
        ensures
            r.calls() == Seq::<TransportCall>::empty(),
    {
        Recorded { backend, log: Ghost(Seq::empty()) }
    }

    /// The backend, to look at.
    pub fn backend(&self) -> &T {
        &self.backend
    }

    /// The backend, to change from outside the editor; the record notes
    /// that it was handed out.
    pub fn backend_mut(&mut self) -> (r: &mut T)
        ensures
            final(self).calls() == old(self).calls().push(TransportCall::HandedOut),
    {
        proof {
            self.log@ = self.log@.push(TransportCall::HandedOut);
        }
        &mut self.backend
    }

    /// Scans for Midi Fighter ports.
    pub fn scan_devices(&mut self) -> (r: Result<Vec<DeviceRef>, TransportError>)
        ensures
            final(self).calls() == old(self).calls().push(TransportCall::Scan(scan_answer(&r))),
    {
        let r = self.backend.scan_devices();
        proof {
            self.log@ = self.log@.push(TransportCall::Scan(scan_answer(&r)));
        }
        r
    }

    /// Opens the device's ports.
    pub fn connect(&mut self, device: &DeviceRef) -> (r: Result<Option<String>, TransportError>)
        ensures
            final(self).calls() == old(self).calls().push(
                TransportCall::Connect(device@, connect_answer(&r)),
            ),
    {
        let r = self.backend.connect(device);
        proof {
            self.log@ = self.log@.push(TransportCall::Connect(device@, connect_answer(&r)));
        }
        r
    }

    /// Closes the open ports.
    pub fn disconnect(&mut self) -> (r: Result<(), TransportError>)
        ensures
            final(self).calls() == old(self).calls().push(TransportCall::Disconnect(unit_answer(&r))),
    {
        let r = self.backend.disconnect();
        proof {
            self.log@ = self.log@.push(TransportCall::Disconnect(unit_answer(&r)));
        }
        r
    }

    /// The frames received since the last poll.
    pub fn poll_packets(&mut self) -> (r: Result<Vec<SysexFrame>, TransportError>)
        ensures
            final(self).calls() == old(self).calls().push(TransportCall::Poll(poll_answer(&r))),
    {
        let r = self.backend.poll_packets();
        proof {
            self.log@ = self.log@.push(TransportCall::Poll(poll_answer(&r)));
        }
        r
    }

    /// Sends bytes; a frame answered holds exactly those bytes.
    pub fn send(&mut self, bytes: &[u8]) -> (r: Result<SysexFrame, TransportError>)
        ensures
            r matches Ok(f) ==> f@.raw == bytes@,
            final(self).calls() == old(self).calls().push(
                TransportCall::Send(bytes@, send_answer(&r)),
            ),
    {
        let r = self.backend.send(bytes);
        proof {
            self.log@ = self.log@.push(TransportCall::Send(bytes@, send_answer(&r)));
        }
        r
    }

    /// Waits before a scan is tried again; this is not a call the record
    /// keeps.
    pub fn pause_before_retry(&mut self)
        ensures
            final(self).calls() == old(self).calls(),
    {
        self.backend.pause_before_retry();
    }
}

impl<T: MidiTransport> core::ops::Deref for Recorded<T> {
    type Target = T;

    fn deref(&self) -> &T {
        &self.backend
    }
}

/// Whether a port name names a Midi Fighter (case-insensitively).
pub open spec fn is_midi_fighter_name_spec(name: Seq<char>) -> bool {
    contains_chars(lower_chars(name), "midi fighter"@)
}

/// Whether a port name names a Midi Fighter.
pub fn is_midi_fighter_name(name: &str) -> (r: bool)
    ensures
        r == is_midi_fighter_name_spec(name@),
{
    contains_seq(&lower_all(&chars_of(name)), &chars_of("midi fighter"))
}

/// A character of a device id: ASCII letters (lower-cased) and digits stay,
/// everything else becomes `-`.
pub open spec fn slug_char(c: char) -> char {
    let l = crate::text::lower_char(c);
    if ('a' <= l && l <= 'z') || ('0' <= l && l <= '9') {
        l
    } else {
        '-'
    }
}

/// The device id made from a port name.
pub open spec fn slug_of(name: Seq<char>) -> Seq<char> {
    name.map_values(|c: char| slug_char(c))
}

/// The device id made from a port name.
pub fn slugify(name: &str) -> (r: String)
    ensures
        r@ == slug_of(name@),
{
    let chars = chars_of(name);
    let mut out = String::new();
    for i in 0..chars.len()
        invariant
            chars@ == name@,
            out@ == slug_of(name@.subrange(0, i as int)),
    {
        let l = lower_ascii(chars[i]);
        let c = if ('a' <= l && l <= 'z') || ('0' <= l && l <= '9') {
            l
        } else {
            '-'
        };
        crate::text::push_char(&mut out, c);
        assert(out@ =~= slug_of(name@.subrange(0, i as int + 1)));
    }
    assert(name@.subrange(0, chars@.len() as int) =~= name@);
    out
}

/// `names` lists, in increasing order and once each, exactly the Midi
/// Fighter names among the input and output port names.
pub open spec fn is_port_list(
    names: Seq<Seq<char>>,
    inputs: Seq<Seq<char>>,
    outputs: Seq<Seq<char>>,
) -> bool {
    &&& forall|i: int, j: int| 0 <= i < j < names.len() ==> chars_lt(names[i], names[j])
    &&& forall|n: Seq<char>|
        #[trigger] names.contains(n) <==> (inputs.contains(n) || outputs.contains(n))
            && is_midi_fighter_name_spec(n)
}

/// The device a Midi Fighter port name stands for: its ports are the input
/// and output ports of that name, and a device with both is tentatively
/// understood.
pub open spec fn device_for_port(name: Seq<char>, inputs: Seq<Seq<char>>, outputs: Seq<Seq<char>>) -> DeviceModel {
    let has_input = inputs.contains(name);
    let has_output = outputs.contains(name);
    DeviceModel {
        id: slug_of(name),
        name,
        input_port: if has_input {
            Some(name)
        } else {
            None
        },
        output_port: if has_output {
            Some(name)
        } else {
            None
        },
        family: family_for_name(name),
        protocol_confidence: if has_input && has_output {
            Confidence::Tentative
        } else {
            Confidence::ObservedOnly
        },
        connection_state: ConnectionState::Disconnected,
    }
}

/// Whether `list` holds `name`.
fn holds_name(list: &Vec<String>, name: &String) -> (r: bool)
    ensures
        r == list.deep_view().contains(name@),
{
    let ghost l = list.deep_view();
    for i in 0..list.len()
        invariant
            l == list.deep_view(),
            forall|j: int| 0 <= j < i ==> l[j] != name@,
    {
        assert(l[i as int] == list@[i as int]@);
        if list[i] == *name {
            return true;
        }
    }
    proof {
        if l.contains(name@) {
            let k = l.index_of(name@);
            assert(l[k] == name@);
        }
    }
    false
}

/// Adds `name` to an increasing list of names, unless it is there.
fn insert_name(names: &mut Vec<String>, name: String)
    requires
        forall|i: int, j: int|
            0 <= i < j < old(names).deep_view().len() ==> chars_lt(
                old(names).deep_view()[i],
                old(names).deep_view()[j],
            ),
    ensures
        forall|i: int, j: int|
            0 <= i < j < final(names).deep_view().len() ==> chars_lt(
                final(names).deep_view()[i],
                final(names).deep_view()[j],
            ),
        forall|n: Seq<char>|
            #[trigger] final(names).deep_view().contains(n) <==> (old(names).deep_view().contains(n)
                || n == name@),
{
    let ghost before = names.deep_view();
    let key = chars_of(name.as_str());
    let mut i: usize = 0;
    while i < names.len() && chars_less(&chars_of(names[i].as_str()), &key)
        invariant
            before == names.deep_view(),
            *names == *old(names),
            key@ == name@,
            i <= before.len(),
            forall|j: int| 0 <= j < i ==> chars_lt(#[trigger] before[j], name@),
            forall|i: int, j: int| 0 <= i < j < before.len() ==> chars_lt(before[i], before[j]),
        decreases before.len() - i,
    {
        assert(before[i as int] == names@[i as int]@);
        i = i + 1;
    }
    if i < names.len() {
        assert(before[i as int] == names@[i as int]@);
        proof {
            lemma_chars_lt_total(before[i as int], name@);
        }
        if names[i] == name {
            proof {
                assert forall|n: Seq<char>| #[trigger] before.contains(n) <==> (before.contains(n)
                    || n == name@) by {
                    if n == name@ {
                        assert(before[i as int] == n);
                    }
                }
            }
            return;
        }
    }
    proof {
        assert forall|j: int| i <= j < before.len() implies chars_lt(name@, #[trigger] before[j]) by {
            if j > i {
                lemma_chars_lt_trans(name@, before[i as int], before[j]);
            }
        }
    }
    names.insert(i, name);
    proof {
        let after = names.deep_view();
        assert(after =~= before.insert(i as int, key@));
        assert forall|a: int, b: int| 0 <= a < b < after.len() implies chars_lt(after[a], after[b]) by {
            if b < i {
            } else if a < i && b == i {
            } else if a < i && b > i {
                assert(after[b] == before[b - 1]);
                lemma_chars_lt_trans(before[a], name@, before[b - 1]);
            } else if a == i {
                assert(after[b] == before[b - 1]);
            } else {
                assert(after[a] == before[a - 1]);
                assert(after[b] == before[b - 1]);
            }
        }
        assert forall|n: Seq<char>| #[trigger] after.contains(n) <==> (before.contains(n) || n
            == name@) by {
            if after.contains(n) {
                let k = after.index_of(n);
                if k < i {
                    assert(before[k] == n);
                } else if k > i {
                    assert(before[k - 1] == n);
                }
            }
            if before.contains(n) {
                let k = before.index_of(n);
                if k < i {
                    assert(after[k] == n);
                } else {
                    assert(after[k + 1] == n);
                }
            }
            if n == name@ {
                assert(after[i as int] == n);
            }
        }
    }
}

/// The candidate devices among the port names a MIDI backend lists: each
/// Midi Fighter name once, in increasing order, with the input and output
/// ports of that name.
pub fn devices_from_port_names(inputs: &Vec<String>, outputs: &Vec<String>) -> (r: Vec<DeviceRef>)
    ensures
        is_port_list(
            r.deep_view().map_values(|d: DeviceModel| d.name),
            inputs.deep_view(),
            outputs.deep_view(),
        ),
        forall|i: int|
            0 <= i < r@.len() ==> #[trigger] r@[i]@ == device_for_port(
                r@[i]@.name,
                inputs.deep_view(),
                outputs.deep_view(),
            ),
{
    let ghost ins = inputs.deep_view();
    let ghost outs = outputs.deep_view();
    let mut names: Vec<String> = Vec::new();
    for i in 0..inputs.len()
        invariant
            ins == inputs.deep_view(),
            forall|a: int, b: int|
                0 <= a < b < names.deep_view().len() ==> chars_lt(
                    names.deep_view()[a],
                    names.deep_view()[b],
                ),
            forall|n: Seq<char>|
                #[trigger] names.deep_view().contains(n) <==> ins.subrange(0, i as int).contains(n)
                    && is_midi_fighter_name_spec(n),
    {
        let ghost prefix = ins.subrange(0, i as int + 1);
        assert(prefix =~= ins.subrange(0, i as int).push(inputs@[i as int]@));
        if is_midi_fighter_name(inputs[i].as_str()) {
            insert_name(&mut names, inputs[i].clone());
        }
        assert forall|n: Seq<char>| #[trigger] names.deep_view().contains(n) <==> prefix.contains(n)
            && is_midi_fighter_name_spec(n) by {
            crate::app::state::lemma_push_contains(ins.subrange(0, i as int), inputs@[i as int]@, n);
        }
    }
    assert(ins.subrange(0, ins.len() as int) =~= ins);
    for i in 0..outputs.len()
        invariant
            ins == inputs.deep_view(),
            outs == outputs.deep_view(),
            forall|a: int, b: int|
                0 <= a < b < names.deep_view().len() ==> chars_lt(
                    names.deep_view()[a],
                    names.deep_view()[b],
                ),
            forall|n: Seq<char>|
                #[trigger] names.deep_view().contains(n) <==> (ins.contains(n) || outs.subrange(
                    0,
                    i as int,
                ).contains(n)) && is_midi_fighter_name_spec(n),
    {
        let ghost prefix = outs.subrange(0, i as int + 1);
        assert(prefix =~= outs.subrange(0, i as int).push(outputs@[i as int]@));
        if is_midi_fighter_name(outputs[i].as_str()) {
            insert_name(&mut names, outputs[i].clone());
        }
        assert forall|n: Seq<char>| #[trigger] names.deep_view().contains(n) <==> (ins.contains(n)
            || prefix.contains(n)) && is_midi_fighter_name_spec(n) by {
            crate::app::state::lemma_push_contains(outs.subrange(0, i as int), outputs@[i as int]@, n);
        }
    }
    assert(outs.subrange(0, outs.len() as int) =~= outs);
    let ghost nd = names.deep_view();
    let mut devices: Vec<DeviceRef> = Vec::new();
    for i in 0..names.len()
        invariant
            ins == inputs.deep_view(),
            outs == outputs.deep_view(),
            nd == names.deep_view(),
            devices@.len() == i,
            forall|k: int| 0 <= k < i ==> #[trigger] devices@[k]@ == device_for_port(nd[k], ins, outs),
    {
        let name = &names[i];
        assert(name@ == nd[i as int]);
        let has_input = holds_name(inputs, name);
        let has_output = holds_name(outputs, name);
        let device = DeviceRef {
            id: slugify(name.as_str()),
            name: name.clone(),
            input_port: if has_input {
                Some(name.clone())
            } else {
                None
            },
            output_port: if has_output {
                Some(name.clone())
            } else {
                None
            },
            family: DeviceFamily::from_name(name.as_str()),
            protocol_confidence: if has_input && has_output {
                Confidence::Tentative
            } else {
                Confidence::ObservedOnly
            },
            connection_state: ConnectionState::Disconnected,
        };
        assert(device@ == device_for_port(nd[i as int], ins, outs));
        devices.push(device);
    }
    assert(devices.deep_view().map_values(|d: DeviceModel| d.name) =~= nd);
    devices
}

} // verus!
