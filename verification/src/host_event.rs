//! An event as a plugin format delivered it, decided but not yet scaled.
use vstd::prelude::*;

use crate::event::{F64Bits, ParameterId};
use crate::midi::MidiMessage;
use crate::note_expressions::NoteExpression;

verus! {

/// An event taken over from a host, with its values as the host sent them. Channel, key and
/// note hold the raw values, where `-1` is the wildcard. Turning it into an `Event` only
/// scales values: a note expression's value to the range of its dimension, a MIDI message's
/// wire values to their ranges, and a parameter's plain value to its normalized value.
#[derive(Clone, Copy, Debug, PartialEq, Eq, Structural)]
pub enum HostEvent {
    NoteOn { sample_offset: usize, channel: i16, key: i16, note: i32, velocity: F64Bits },
    NoteOff { sample_offset: usize, channel: i16, key: i16, note: i32, velocity: F64Bits },
    Expression { kind: NoteExpression, sample_offset: usize, channel: i16, key: i16, note: i32, value: F64Bits },
    Midi { message: MidiMessage },
    ParameterValue { sample_offset: usize, id: ParameterId, value: F64Bits },
    ParameterModulation { sample_offset: usize, id: ParameterId, amount: F64Bits },
}

} // verus!
