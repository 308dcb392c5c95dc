//! MIDI ports as the editor sees them, and what can go wrong with them.
use vstd::prelude::*;

use crate::protocol::registry::{copy_opt_string, Confidence, DeviceFamily, FamilyModel};
use crate::text::concat2;

verus! {

/// Whether a device's ports are open.
#[derive(Clone, Copy, Debug, PartialEq, Eq, Structural)]
pub enum ConnectionState {
    Disconnected,
    Connected,
}

/// A candidate device: a port name with its input and output ports.
#[derive(Debug)]
pub struct DeviceRef {
    pub id: String,
    pub name: String,
    pub input_port: Option<String>,
    pub output_port: Option<String>,
    pub family: DeviceFamily,
    pub protocol_confidence: Confidence,
    pub connection_state: ConnectionState,
}

/// A device as a mathematical value.
pub struct DeviceModel {
    pub id: Seq<char>,
    pub name: Seq<char>,
    pub input_port: Option<Seq<char>>,
    pub output_port: Option<Seq<char>>,
    pub family: FamilyModel,
    pub protocol_confidence: Confidence,
    pub connection_state: ConnectionState,
}

impl View for DeviceRef {
    type V = DeviceModel;

    open spec fn view(&self) -> DeviceModel {
        DeviceModel {
            id: self.id@,
            name: self.name@,
            input_port: self.input_port.deep_view(),
            output_port: self.output_port.deep_view(),
            family: self.family@,
            protocol_confidence: self.protocol_confidence,
            connection_state: self.connection_state,
        }
    }
}

impl DeepView for DeviceRef {
    type V = DeviceModel;

    open spec fn deep_view(&self) -> DeviceModel {
        self@
    }
}

impl Clone for DeviceRef {
    fn clone(&self) -> (r: Self)
        ensures
            r == *self,
    {
        DeviceRef {
            id: self.id.clone(),
            name: self.name.clone(),
            input_port: copy_opt_string(&self.input_port),
            output_port: copy_opt_string(&self.output_port),
            family: self.family.clone(),
            protocol_confidence: self.protocol_confidence,
            connection_state: self.connection_state,
        }
    }
}

/// What can go wrong on the MIDI side.
#[derive(Debug)]
pub enum TransportError {
    Backend(String),
    MissingPort(String),
    NotConnected,
    OutputUnavailable,
}

/// A transport error as a mathematical value.
pub enum TransportErrorModel {
    Backend(Seq<char>),
    MissingPort(Seq<char>),
    NotConnected,
    OutputUnavailable,
}

impl View for TransportError {
    type V = TransportErrorModel;

    open spec fn view(&self) -> TransportErrorModel {
        match self {
            TransportError::Backend(m) => TransportErrorModel::Backend(m@),
            TransportError::MissingPort(m) => TransportErrorModel::MissingPort(m@),
            TransportError::NotConnected => TransportErrorModel::NotConnected,
            TransportError::OutputUnavailable => TransportErrorModel::OutputUnavailable,
        }
    }
}

/// The message that describes a transport error.
pub open spec fn transport_error_text(e: TransportErrorModel) -> Seq<char> {
    match e {
        TransportErrorModel::Backend(m) => "midi backend error: "@ + m,
        TransportErrorModel::MissingPort(m) => "midi port unavailable: "@ + m,
        TransportErrorModel::NotConnected => "no MIDI device is currently connected"@,
        TransportErrorModel::OutputUnavailable => "the connected MIDI device has no output port"@,
    }
}

impl TransportError {
    /// The message that describes the error.
    pub fn message(&self) -> (r: String)
        ensures
            r@ == transport_error_text(self@),
    {
        match self {
            TransportError::Backend(m) => concat2("midi backend error: ", m.as_str()),
            TransportError::MissingPort(m) => concat2("midi port unavailable: ", m.as_str()),
            TransportError::NotConnected => String::from_str("no MIDI device is currently connected"),
            TransportError::OutputUnavailable => String::from_str(
                "the connected MIDI device has no output port",
            ),
        }
    }
}

} // verus!
