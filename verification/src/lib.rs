//! Event handling and capability declarations for audio plugins: which MIDI
//! messages and per-note expressions a plugin accepts, how raw host and MIDI
//! data become `Event`s, and how a buffer is split at parameter events.
#![allow(unused_imports)]

pub mod bitmask;
pub mod clap_events;
pub mod component;
pub mod event;
pub mod host_event;
pub mod midi;
pub mod midi_capabilities;
pub mod note_expressions;
pub mod parameter_changes;
pub mod parameters;
pub mod processor;
pub mod standalone;
pub mod vst3_events;

pub use event::{Event, ParameterId, SignalSplitter, Split};
pub use midi_capabilities::MidiCapabilities;
pub use note_expressions::{NoteExpression, NoteExpressions};
