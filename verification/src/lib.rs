//! Configuration and pad-colour editing for Midi Fighter controllers over
//! MIDI system-exclusive messages: the wire format, the device registry,
//! and the editor's state machine.
pub mod text;
pub mod protocol;
pub mod transport;
pub mod app;
pub mod order;
pub mod view;
