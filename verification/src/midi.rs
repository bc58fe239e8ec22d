//! Raw MIDI bytes and raw CLAP/VST3 note address fields.
use vstd::prelude::*;

use crate::midi_capabilities::{MidiCapabilities, MidiCapabilitiesView, MIDI_CHANNEL_COUNT};

verus! {

/// Convert and validate a raw CLAP/VST3 MIDI channel field.
///
/// `None` is the wildcard: a negative value is the `-1` sentinel both APIs define, and a
/// value outside `0..=15` is not an address that can be represented, so it degrades to the
/// wildcard as well.
pub fn note_channel(raw: i16) -> (r: Option<u8>)
    ensures
        r == (if 0 <= raw < MIDI_CHANNEL_COUNT {
            Some(raw as u8)
        } else {
            None
        }),
{
    if 0 <= raw && raw < 16 {
        Some(raw as u8)
    } else {
        None
    }
}

/// Convert and validate a raw CLAP/VST3 key field. See `note_channel` for the wildcard rule.
pub fn note_key(raw: i16) -> (r: Option<u8>)
    ensures
        r == (if 0 <= raw < 128 {
            Some(raw as u8)
        } else {
            None
        }),
{
    if 0 <= raw && raw < 128 {
        Some(raw as u8)
    } else {
        None
    }
}

/// Convert and validate a raw CLAP/VST3 note id. Negative means the host does not issue
/// note ids.
pub fn note_id(raw: i32) -> (r: Option<u32>)
    ensures
        r == (if 0 <= raw {
            Some(raw as u32)
        } else {
            None
        }),
{
    if 0 <= raw {
        Some(raw as u32)
    } else {
        None
    }
}

/// A channel message decoded from raw MIDI bytes. Data values are the 7-bit wire values
/// (a value `v` stands for `v / 127`); `bend` is the 14-bit wire value (`8192` is
/// the centre, and the bend in semitones is `(v - 8192) / 8192 * 2`).
#[derive(Clone, Copy, Debug, PartialEq, Eq, Structural)]
pub enum MidiMessage {
    NoteOn { sample_offset: usize, channel: u8, key: u8, velocity: u8 },
    NoteOff { sample_offset: usize, channel: u8, key: u8, velocity: u8 },
    PolyPressure { sample_offset: usize, channel: u8, key: u8, value: u8 },
    ProgramChange { sample_offset: usize, channel: u8, program: u8 },
    ControlChange { sample_offset: usize, channel: u8, controller: u8, value: u8 },
    ChannelPressure { sample_offset: usize, channel: u8, value: u8 },
    PitchBend { sample_offset: usize, channel: u8, bend: u16 },
}

/// The message that the bytes `data` stand for, as far as `caps` enables it.
///
/// The high nibble of the first byte is the message type and its low nibble the channel.
/// A note-on with velocity byte 0 is a note-off, as the MIDI specification says.
pub open spec fn midi_message_of(data: Seq<u8>, sample_offset: usize, caps: MidiCapabilitiesView) -> Option<MidiMessage> {
    if data.len() < 2 {
        None
    } else {
        let status = data[0] / 16;
        let channel = (data[0] % 16) as u8;
        if status == 9 && data.len() >= 3 && data[2] > 0 {
            Some(MidiMessage::NoteOn { sample_offset, channel, key: data[1] % 128, velocity: data[2] % 128 })
        } else if status == 8 || status == 9 {
            Some(MidiMessage::NoteOff {
                sample_offset,
                channel,
                key: data[1] % 128,
                velocity: if data.len() >= 3 { data[2] % 128 } else { 0 },
            })
        } else if status == 10 && data.len() >= 3 && caps.poly_pressure {
            Some(MidiMessage::PolyPressure { sample_offset, channel, key: data[1] % 128, value: data[2] % 128 })
        } else if status == 12 && caps.program_change {
            Some(MidiMessage::ProgramChange { sample_offset, channel, program: data[1] % 128 })
        } else if status == 11 && data.len() >= 3 {
            if caps.control_changes.contains(data[1]) {
                Some(MidiMessage::ControlChange {
                    sample_offset,
                    channel,
                    controller: data[1],
                    value: data[2] % 128,
                })
            } else {
                None
            }
        } else if status == 13 && caps.channel_pressure {
            Some(MidiMessage::ChannelPressure { sample_offset, channel, value: data[1] % 128 })
        } else if status == 14 && data.len() >= 3 && caps.pitch_bend {
            Some(MidiMessage::PitchBend {
                sample_offset,
                channel,
                bend: ((data[2] % 128) * 128 + data[1] % 128) as u16,
            })
        } else {
            None
        }
    }
}

proof fn lemma_byte_fields(b: u8)
    ensures
        b & 0xF0 == (b / 16) * 16,
        b & 0x0F == b % 16,
        b & 0x7f == b % 128,
{
    assert(b & 0xF0 == (b / 16) * 16) by (bit_vector);
    assert(b & 0x0F == b % 16) by (bit_vector);
    assert(b & 0x7f == b % 128) by (bit_vector);
}

proof fn lemma_fourteen_bits(lsb: u16, msb: u16)
    requires
        lsb < 128,
        msb < 128,
    ensures
        (msb << 7u16) | lsb == msb * 128 + lsb,
{
    assert((msb << 7u16) | lsb == msb * 128 + lsb) by (bit_vector)
        requires
            lsb < 128,
            msb < 128,
    ;
}

/// Parse a raw MIDI message, filtered by the given MIDI `capabilities`.
/// `sample_offset` is the sample offset within the audio buffer.
///
/// Returns `None` for:
/// - messages shorter than the minimum expected length,
/// - messages whose capability is not enabled in `capabilities`,
/// - unsupported message types such as MIDI SysEx.
pub fn parse_midi_event(data: &[u8], sample_offset: usize, capabilities: MidiCapabilities) -> (r: Option<MidiMessage>)
    ensures
        r == midi_message_of(data@, sample_offset, capabilities@),
{
    if data.len() < 2 {
        return None;
    }
    let status = data[0] & 0xF0;
    let channel = data[0] & 0x0F;
    proof {
        lemma_byte_fields(data@[0]);
        lemma_byte_fields(data@[1]);
        if data.len() >= 3 {
            lemma_byte_fields(data@[2]);
        }
    }
    match status {
        // Note-on: velocity 0 is treated as note-off per MIDI spec.
        0x90 if data.len() >= 3 && data[2] > 0 => Some(
            MidiMessage::NoteOn { sample_offset, channel, key: data[1] & 0x7f, velocity: data[2] & 0x7f },
        ),
        // Note-off (explicit 0x80 or 0x90 with velocity 0).
        0x80 | 0x90 => {
            let velocity = if data.len() >= 3 {
                data[2] & 0x7f
            } else {
                0
            };
            Some(MidiMessage::NoteOff { sample_offset, channel, key: data[1] & 0x7f, velocity })
        },
        // Polyphonic key pressure / poly aftertouch.
        0xA0 if data.len() >= 3 && capabilities.midi_poly_pressure() => Some(
            MidiMessage::PolyPressure { sample_offset, channel, key: data[1] & 0x7f, value: data[2] & 0x7f },
        ),
        // Program change.
        0xC0 if capabilities.midi_program_change() => Some(
            MidiMessage::ProgramChange { sample_offset, channel, program: data[1] & 0x7f },
        ),
        // Control change. No mask is needed: controllers above 127 are never enabled.
        0xB0 if data.len() >= 3 => {
            let controller = data[1];
            if capabilities.has_midi_control_change(controller) {
                Some(MidiMessage::ControlChange { sample_offset, channel, controller, value: data[2] & 0x7f })
            } else {
                None
            }
        },
        // Channel pressure / mono aftertouch.
        0xD0 if capabilities.midi_channel_pressure() => Some(
            MidiMessage::ChannelPressure { sample_offset, channel, value: data[1] & 0x7f },
        ),
        // Pitch bend.
        0xE0 if data.len() >= 3 && capabilities.midi_pitch_bend() => {
            let lsb = (data[1] & 0x7f) as u16;
            let msb = (data[2] & 0x7f) as u16;
            proof {
                lemma_fourteen_bits(lsb, msb);
            }
            let raw = (msb << 7) | lsb;
            Some(MidiMessage::PitchBend { sample_offset, channel, bend: raw })
        },
        _ => None,
    }
}

/// Parsing never yields a message whose kind `capabilities` leaves disabled: poly pressure,
/// program change, channel pressure, pitch bend and each CC number come through only when
/// enabled. Note-on and note-off always come through.
pub proof fn lemma_parse_respects_capabilities(data: Seq<u8>, sample_offset: usize, caps: MidiCapabilitiesView)
    ensures
        midi_message_of(data, sample_offset, caps) matches Some(m) ==> match m {
            MidiMessage::PolyPressure { .. } => caps.poly_pressure,
            MidiMessage::ProgramChange { .. } => caps.program_change,
            MidiMessage::ControlChange { controller, .. } => caps.control_changes.contains(controller),
            MidiMessage::ChannelPressure { .. } => caps.channel_pressure,
            MidiMessage::PitchBend { .. } => caps.pitch_bend,
            _ => true,
        },
{
}

/// Every message parsed from `data` is placed at `sample_offset`, on the channel in the low
/// nibble of the status byte, and its data values are the data bytes with their top bit
/// cleared: the first data byte is the key, program or low half of a bend, the second the
/// velocity, value or high half of a bend. A controller number is the first data byte as
/// it stands.
pub proof fn lemma_parsed_fields(data: Seq<u8>, sample_offset: usize, caps: MidiCapabilitiesView)
    ensures
        midi_message_of(data, sample_offset, caps) matches Some(m) ==> {
            let ch = data[0] % 16;
            let d1 = data[1] % 128;
            let d2 = data[2] % 128;
            &&& data.len() >= 2
            &&& match m {
                MidiMessage::NoteOn { sample_offset: o, channel, key, velocity } => o == sample_offset
                    && channel == ch && key == d1 && data.len() >= 3 && data[2] > 0 && velocity == d2,
                MidiMessage::NoteOff { sample_offset: o, channel, key, velocity } => o == sample_offset
                    && channel == ch && key == d1 && velocity == (if data.len() >= 3 { d2 } else { 0 }),
                MidiMessage::PolyPressure { sample_offset: o, channel, key, value } => o == sample_offset
                    && channel == ch && key == d1 && data.len() >= 3 && value == d2,
                MidiMessage::ProgramChange { sample_offset: o, channel, program } => o == sample_offset
                    && channel == ch && program == d1,
                MidiMessage::ControlChange { sample_offset: o, channel, controller, value } => o
                    == sample_offset && channel == ch && controller == data[1] && data.len() >= 3 && value
                    == d2,
                MidiMessage::ChannelPressure { sample_offset: o, channel, value } => o == sample_offset
                    && channel == ch && value == d1,
                MidiMessage::PitchBend { sample_offset: o, channel, bend } => o == sample_offset
                    && channel == ch && data.len() >= 3 && bend == d2 * 128 + d1,
            }
        },
{
    if data.len() >= 3 {
        let d1 = data[1] % 128;
        let d2 = data[2] % 128;
        assert(0 <= d2 * 128 + d1 < 65536) by (nonlinear_arith)
            requires
                d1 < 128,
                d2 < 128,
        ;
    }
}

/// Which message the bytes `data` parse to, by the message type in the high nibble of the
/// status byte (`0x8` note-off, `0x9` note-on, `0xA` poly pressure, `0xB` control change,
/// `0xC` program change, `0xD` channel pressure, `0xE` pitch bend): note-on and note-off
/// always come through, a note-on with velocity 0 being a note-off; every other message
/// comes through exactly when its capability is enabled and it has its data bytes.
pub proof fn lemma_parsed_kind(data: Seq<u8>, sample_offset: usize, caps: MidiCapabilitiesView)
    ensures
        ({
            let r = midi_message_of(data, sample_offset, caps);
            let t = data[0] / 16;
            if data.len() < 2 {
                r is None
            } else if t == 9 && data.len() >= 3 && data[2] > 0 {
                r matches Some(m) && m is NoteOn
            } else if t == 8 || t == 9 {
                r matches Some(m) && m is NoteOff
            } else if t == 10 {
                &&& (r matches Some(m) && m is PolyPressure) <==> (data.len() >= 3 && caps.poly_pressure)
                &&& r is None <==> !(data.len() >= 3 && caps.poly_pressure)
            } else if t == 11 {
                &&& (r matches Some(m) && m is ControlChange) <==> (data.len() >= 3
                    && caps.control_changes.contains(data[1]))
                &&& r is None <==> !(data.len() >= 3 && caps.control_changes.contains(data[1]))
            } else if t == 12 {
                &&& (r matches Some(m) && m is ProgramChange) <==> caps.program_change
                &&& r is None <==> !caps.program_change
            } else if t == 13 {
                &&& (r matches Some(m) && m is ChannelPressure) <==> caps.channel_pressure
                &&& r is None <==> !caps.channel_pressure
            } else if t == 14 {
                &&& (r matches Some(m) && m is PitchBend) <==> (data.len() >= 3 && caps.pitch_bend)
                &&& r is None <==> !(data.len() >= 3 && caps.pitch_bend)
            } else {
                r is None
            }
        }),
{
}

} // verus!
