//! Captured system-exclusive frames and their decoded envelopes.
use vstd::prelude::*;

use crate::protocol::registry::{copy_bytes, copy_opt_string, TagId};
use crate::text::{hex_spaced, hex_spaced_string};

verus! {

/// Which way a frame travelled.
#[derive(Clone, Copy, Debug, PartialEq, Eq, Structural)]
pub enum Direction {
    Sent,
    Received,
}

impl Direction {
    /// The short word that shows the direction.
    pub fn label(&self) -> (r: &'static str)
        ensures
            r@ == (match self {
                Direction::Sent => "sent"@,
                Direction::Received => "recv"@,
            }),
    {
        match self {
            Direction::Sent => "sent",
            Direction::Received => "recv",
        }
    }
}

/// What the header of a system-exclusive frame says.
#[derive(Debug)]
pub struct SysexEnvelope {
    pub manufacturer: Vec<u8>,
    pub command: u8,
    pub tag: Option<TagId>,
    pub note: Option<String>,
}

/// An envelope as a mathematical value.
pub struct EnvelopeModel {
    pub manufacturer: Seq<u8>,
    pub command: u8,
    pub tag: Option<TagId>,
    pub note: Option<Seq<char>>,
}

impl View for SysexEnvelope {
    type V = EnvelopeModel;

    open spec fn view(&self) -> EnvelopeModel {
        EnvelopeModel {
            manufacturer: self.manufacturer@,
            command: self.command,
            tag: self.tag,
            note: self.note.deep_view(),
        }
    }
}

impl DeepView for SysexEnvelope {
    type V = EnvelopeModel;

    open spec fn deep_view(&self) -> EnvelopeModel {
        self@
    }
}

impl Clone for SysexEnvelope {
    fn clone(&self) -> (r: Self)
        ensures
            r@ == self@,
    {
        SysexEnvelope {
            manufacturer: copy_bytes(&self.manufacturer),
            command: self.command,
            tag: self.tag,
            note: copy_opt_string(&self.note),
        }
    }
}

/// One captured frame.
#[derive(Debug)]
pub struct SysexFrame {
    pub timestamp: String,
    pub direction: Direction,
    pub raw: Vec<u8>,
    pub envelope: Option<SysexEnvelope>,
}

/// A frame as a mathematical value.
pub struct FrameModel {
    pub timestamp: Seq<char>,
    pub direction: Direction,
    pub raw: Seq<u8>,
    pub envelope: Option<EnvelopeModel>,
}

impl View for SysexFrame {
    type V = FrameModel;

    open spec fn view(&self) -> FrameModel {
        FrameModel {
            timestamp: self.timestamp@,
            direction: self.direction,
            raw: self.raw@,
            envelope: self.envelope.deep_view(),
        }
    }
}

impl DeepView for SysexFrame {
    type V = FrameModel;

    open spec fn deep_view(&self) -> FrameModel {
        self@
    }
}

impl Clone for SysexFrame {
    fn clone(&self) -> (r: Self)
        ensures
            r@ == self@,
    {
        SysexFrame {
            timestamp: self.timestamp.clone(),
            direction: self.direction,
            raw: copy_bytes(&self.raw),
            envelope: match &self.envelope {
                Some(e) => Some(e.clone()),
                None => None,
            },
        }
    }
}

impl SysexFrame {
    /// The raw bytes as space-separated upper-case hexadecimal pairs.
    pub fn hex_string(&self) -> (r: String)
        ensures
            r@ == hex_spaced(self.raw@),
    {
        hex_spaced_string(self.raw.as_slice())
    }
}

} // verus!
