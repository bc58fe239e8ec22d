//! Taking over the events of a CLAP host.
use vstd::prelude::*;

use crate::event::{F64Bits, ParameterId};
use crate::host_event::HostEvent;
use crate::midi::{midi_message_of, parse_midi_event};
use crate::midi_capabilities::MidiCapabilities;
use crate::note_expressions::{NoteExpression, NoteExpressions};

verus! {

/// One event of a CLAP input event list, as plain values. Events outside the core event
/// space, and core events of other types, are `Other`. A note expression whose id is not
/// one of CLAP's seven has `kind` `None`.
#[derive(Clone, Copy, Debug)]
pub enum ClapEvent {
    NoteOn { time: u32, channel: i16, key: i16, note_id: i32, velocity: F64Bits },
    NoteOff { time: u32, channel: i16, key: i16, note_id: i32, velocity: F64Bits },
    NoteExpression {
        time: u32,
        kind: Option<NoteExpression>,
        channel: i16,
        key: i16,
        note_id: i32,
        value: F64Bits,
    },
    Midi { time: u32, data: [u8; 3] },
    ParamValue { time: u32, param_id: ParameterId, value: F64Bits },
    ParamMod { time: u32, param_id: ParameterId, amount: F64Bits },
    Other,
}

/// What a CLAP event becomes: note events and parameter events pass through; a note
/// expression only when its dimension is enabled; raw MIDI as far as `caps` enables it.
pub open spec fn clap_event_of(e: ClapEvent, ne: NoteExpressions, caps: MidiCapabilities) -> Option<HostEvent> {
    match e {
        ClapEvent::NoteOn { time, channel, key, note_id, velocity } => Some(
            HostEvent::NoteOn { sample_offset: time as usize, channel, key, note: note_id, velocity },
        ),
        ClapEvent::NoteOff { time, channel, key, note_id, velocity } => Some(
            HostEvent::NoteOff { sample_offset: time as usize, channel, key, note: note_id, velocity },
        ),
        ClapEvent::NoteExpression { time, kind, channel, key, note_id, value } => match kind {
            Some(k) => if ne@.enables(k) {
                Some(
                    HostEvent::Expression {
                        kind: k,
                        sample_offset: time as usize,
                        channel,
                        key,
                        note: note_id,
                        value,
                    },
                )
            } else {
                None
            },
            None => None,
        },
        ClapEvent::Midi { time, data } => match midi_message_of(data@, time as usize, caps@) {
            Some(message) => Some(HostEvent::Midi { message }),
            None => None,
        },
        ClapEvent::ParamValue { time, param_id, value } => Some(
            HostEvent::ParameterValue { sample_offset: time as usize, id: param_id, value },
        ),
        ClapEvent::ParamMod { time, param_id, amount } => Some(
            HostEvent::ParameterModulation { sample_offset: time as usize, id: param_id, amount },
        ),
        ClapEvent::Other => None,
    }
}

/// What a CLAP event becomes, see `clap_event_of`.
pub fn translate_clap_event(e: &ClapEvent, note_expressions: NoteExpressions, midi_capabilities: MidiCapabilities) -> (r: Option<HostEvent>)
    ensures
        r == clap_event_of(*e, note_expressions, midi_capabilities),
{
    match e {
        ClapEvent::NoteOn { time, channel, key, note_id, velocity } => Some(
            HostEvent::NoteOn {
                sample_offset: *time as usize,
                channel: *channel,
                key: *key,
                note: *note_id,
                velocity: *velocity,
            },
        ),
        ClapEvent::NoteOff { time, channel, key, note_id, velocity } => Some(
            HostEvent::NoteOff {
                sample_offset: *time as usize,
                channel: *channel,
                key: *key,
                note: *note_id,
                velocity: *velocity,
            },
        ),
        ClapEvent::NoteExpression { time, kind, channel, key, note_id, value } => match kind {
            Some(k) => if note_expressions.enables(*k) {
                Some(
                    HostEvent::Expression {
                        kind: *k,
                        sample_offset: *time as usize,
                        channel: *channel,
                        key: *key,
                        note: *note_id,
                        value: *value,
                    },
                )
            } else {
                None
            },
            None => None,
        },
        ClapEvent::Midi { time, data } => match parse_midi_event(data.as_slice(), *time as usize, midi_capabilities) {
            Some(message) => Some(HostEvent::Midi { message }),
            None => None,
        },
        ClapEvent::ParamValue { time, param_id, value } => Some(
            HostEvent::ParameterValue { sample_offset: *time as usize, id: *param_id, value: *value },
        ),
        ClapEvent::ParamMod { time, param_id, amount } => Some(
            HostEvent::ParameterModulation { sample_offset: *time as usize, id: *param_id, amount: *amount },
        ),
        ClapEvent::Other => None,
    }
}

/// What the plugin takes of a CLAP event keeps the event's time as its sample offset and
/// carries the event's fields unchanged: a note-on or note-off and a parameter value or
/// modulation always pass through as they are; a note expression passes through as it is
/// when its dimension is enabled and is dropped otherwise; raw MIDI becomes the message its
/// bytes parse to, placed at the event's time; events of other types are dropped.
pub proof fn lemma_clap_passes_through(e: ClapEvent, ne: NoteExpressions, caps: MidiCapabilities)
    ensures
        e matches ClapEvent::NoteOn { time, channel, key, note_id, velocity } ==> clap_event_of(e, ne, caps)
            == Some(HostEvent::NoteOn { sample_offset: time as usize, channel, key, note: note_id, velocity }),
        e matches ClapEvent::NoteOff { time, channel, key, note_id, velocity } ==> clap_event_of(e, ne, caps)
            == Some(HostEvent::NoteOff { sample_offset: time as usize, channel, key, note: note_id, velocity }),
        e matches ClapEvent::ParamValue { time, param_id, value } ==> clap_event_of(e, ne, caps) == Some(
            HostEvent::ParameterValue { sample_offset: time as usize, id: param_id, value },
        ),
        e matches ClapEvent::ParamMod { time, param_id, amount } ==> clap_event_of(e, ne, caps) == Some(
            HostEvent::ParameterModulation { sample_offset: time as usize, id: param_id, amount },
        ),
        e matches ClapEvent::NoteExpression { time, kind, channel, key, note_id, value } ==> clap_event_of(
            e,
            ne,
            caps,
        ) == (if kind is Some && ne@.enables(kind->0) {
            Some(
                HostEvent::Expression {
                    kind: kind->0,
                    sample_offset: time as usize,
                    channel,
                    key,
                    note: note_id,
                    value,
                },
            )
        } else {
            None
        }),
        e matches ClapEvent::Midi { time, data } ==> {
            &&& (clap_event_of(e, ne, caps) is None <==> midi_message_of(data@, time as usize, caps@) is None)
            &&& (clap_event_of(e, ne, caps) matches Some(h) ==> h matches HostEvent::Midi { message }
                && Some(message) == midi_message_of(data@, time as usize, caps@))
        },
        e is Other ==> clap_event_of(e, ne, caps) is None,
{
}

/// The index of the first event at or after `from` that becomes a `HostEvent`, or
/// `events.len()` if there is none.
pub open spec fn next_translated(events: Seq<ClapEvent>, from: int, ne: NoteExpressions, caps: MidiCapabilities) -> int
    decreases events.len() - from,
{
    if from < 0 {
        next_translated(events, 0, ne, caps)
    } else if from >= events.len() {
        events.len() as int
    } else if clap_event_of(events[from], ne, caps) is Some {
        from
    } else {
        next_translated(events, from + 1, ne, caps)
    }
}

pub proof fn lemma_next_translated(events: Seq<ClapEvent>, from: int, ne: NoteExpressions, caps: MidiCapabilities)
    requires
        0 <= from <= events.len(),
    ensures
        from <= next_translated(events, from, ne, caps) <= events.len(),
        next_translated(events, from, ne, caps) < events.len() ==> clap_event_of(
            events[next_translated(events, from, ne, caps)],
            ne,
            caps,
        ) is Some,
        forall|k: int|
            from <= k < next_translated(events, from, ne, caps) ==> clap_event_of(#[trigger] events[k], ne, caps) is None,
    decreases events.len() - from,
{
    if from < events.len() && clap_event_of(events[from], ne, caps) is None {
        lemma_next_translated(events, from + 1, ne, caps);
    }
}

/// What the events from index `from` on become, in order: each event that the plugin
/// takes, translated by `clap_event_of`; the others left out.
pub open spec fn translated_from(events: Seq<ClapEvent>, from: int, ne: NoteExpressions, caps: MidiCapabilities) -> Seq<HostEvent>
    decreases events.len() - from,
{
    if 0 <= from < events.len() {
        let rest = translated_from(events, from + 1, ne, caps);
        match clap_event_of(events[from], ne, caps) {
            Some(e) => seq![e] + rest,
            None => rest,
        }
    } else {
        Seq::empty()
    }
}

/// Skipping the events that the plugin does not take changes nothing of what is left.
proof fn lemma_skip_untranslated(events: Seq<ClapEvent>, from: int, ne: NoteExpressions, caps: MidiCapabilities)
    requires
        0 <= from <= events.len(),
    ensures
        translated_from(events, from, ne, caps) == translated_from(
            events,
            next_translated(events, from, ne, caps),
            ne,
            caps,
        ),
    decreases events.len() - from,
{
    if from < events.len() && clap_event_of(events[from], ne, caps) is None {
        lemma_skip_untranslated(events, from + 1, ne, caps);
    }
}

/// A walk over `events` from index `from` on hands out at most one event per event of
/// the list.
pub proof fn lemma_translated_from_len(events: Seq<ClapEvent>, from: int, ne: NoteExpressions, caps: MidiCapabilities)
    requires
        0 <= from <= events.len(),
    ensures
        translated_from(events, from, ne, caps).len() <= events.len() - from,
    decreases events.len() - from,
{
    if from < events.len() {
        lemma_translated_from_len(events, from + 1, ne, caps);
    }
}

/// Hands out the events of a CLAP input event list that the plugin takes, in order.
pub struct EventIterator {
    note_expressions: NoteExpressions,
    midi_capabilities: MidiCapabilities,
    events: Vec<ClapEvent>,
    index: usize,
}

impl EventIterator {
    pub closed spec fn events(&self) -> Seq<ClapEvent> {
        self.events@
    }

    /// How many events have been looked at.
    pub closed spec fn index(&self) -> usize {
        self.index
    }

    pub closed spec fn note_expressions(&self) -> NoteExpressions {
        self.note_expressions
    }

    pub closed spec fn midi_capabilities(&self) -> MidiCapabilities {
        self.midi_capabilities
    }

    /// The events that the walk has still to hand out, in order.
    pub open spec fn remaining(&self) -> Seq<HostEvent> {
        translated_from(self.events(), self.index() as int, self.note_expressions(), self.midi_capabilities())
    }

    pub fn new(events: Vec<ClapEvent>, midi_capabilities: MidiCapabilities, note_expressions: NoteExpressions) -> (r: Self)
        ensures
            r.events() == events@,
            r.index() == 0,
            r.note_expressions() == note_expressions,
            r.midi_capabilities() == midi_capabilities,
            r.remaining() == translated_from(events@, 0, note_expressions, midi_capabilities),
    {
        EventIterator { midi_capabilities, note_expressions, events, index: 0 }
    }

    /// The next event that the plugin takes; events that it does not take are skipped.
    pub fn next(&mut self) -> (r: Option<HostEvent>)
        requires
            old(self).index() <= old(self).events().len(),
        ensures
            final(self).events() == old(self).events(),
            final(self).note_expressions() == old(self).note_expressions(),
            final(self).midi_capabilities() == old(self).midi_capabilities(),
            final(self).index() <= final(self).events().len(),
            ({
                let ne = old(self).note_expressions();
                let caps = old(self).midi_capabilities();
                let k = next_translated(old(self).events(), old(self).index() as int, ne, caps);
                if k < old(self).events().len() {
                    &&& r == clap_event_of(old(self).events()[k], ne, caps)
                    &&& final(self).index() == k + 1
                } else {
                    &&& r is None
                    &&& final(self).index() == old(self).events().len()
                }
            }),
            old(self).remaining() == match r {
                Some(e) => seq![e] + final(self).remaining(),
                None => Seq::<HostEvent>::empty(),
            },
            r is None ==> final(self).remaining() == Seq::<HostEvent>::empty(),
    {
        proof {
            lemma_next_translated(self.events@, self.index as int, self.note_expressions, self.midi_capabilities);
            lemma_skip_untranslated(self.events@, self.index as int, self.note_expressions, self.midi_capabilities);
        }
        while self.index < self.events.len()
            invariant
                self.events@ == old(self).events@,
                self.note_expressions == old(self).note_expressions,
                self.midi_capabilities == old(self).midi_capabilities,
                old(self).index <= self.index <= self.events@.len(),
                next_translated(self.events@, old(self).index as int, self.note_expressions, self.midi_capabilities)
                    == next_translated(self.events@, self.index as int, self.note_expressions, self.midi_capabilities),
                translated_from(self.events@, old(self).index as int, self.note_expressions, self.midi_capabilities)
                    == translated_from(
                    self.events@,
                    next_translated(self.events@, old(self).index as int, self.note_expressions, self.midi_capabilities),
                    self.note_expressions,
                    self.midi_capabilities,
                ),
            decreases self.events@.len() - self.index,
        {
            let event = translate_clap_event(&self.events[self.index], self.note_expressions, self.midi_capabilities);
            proof {
                let ghost at = self.index as int;
                if let Some(e) = event {
                    assert(translated_from(self.events@, at, self.note_expressions, self.midi_capabilities) == seq![e]
                        + translated_from(self.events@, at + 1, self.note_expressions, self.midi_capabilities));
                }
            }
            self.index = self.index + 1;
            if event.is_some() {
                return event;
            }
        }
        None
    }
}

} // verus!
