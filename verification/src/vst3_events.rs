//! Taking over the events of a VST3 host's event list.
use vstd::prelude::*;

use crate::event::F64Bits;
use crate::host_event::HostEvent;
use crate::midi::{note_channel, note_id, note_key};
use crate::note_expressions::{NoteExpression, NoteExpressions};

verus! {

/// One event of a VST3 event list, as plain values. Velocities and pressures are widened to
/// `f64`. A note expression whose type id is not one of VST3's six standard ones has `kind`
/// `None`; events of other types are `Other`.
#[derive(Clone, Copy, Debug, PartialEq, Eq, Structural)]
pub enum Vst3EventBody {
    NoteOn { channel: i16, pitch: i16, note_id: i32, velocity: F64Bits },
    NoteOff { channel: i16, pitch: i16, note_id: i32, velocity: F64Bits },
    PolyPressure { channel: i16, pitch: i16, note_id: i32, pressure: F64Bits },
    NoteExpressionValue { kind: Option<NoteExpression>, note_id: i32, value: F64Bits },
    Other,
}

#[derive(Clone, Copy, Debug, PartialEq, Eq, Structural)]
pub struct Vst3Event {
    pub sample_offset: i32,
    pub body: Vst3EventBody,
}

/// A validated address field as a raw value: the value itself when it is valid, else the
/// `-1` wildcard.
pub open spec fn raw_or_wildcard(valid: Option<u8>) -> i16 {
    match valid {
        Some(v) => v as i16,
        None => -1i16,
    }
}

/// A note id as a raw value: the id itself when the host issues one, else `-1`.
pub open spec fn raw_note(raw: i32) -> i32 {
    if raw >= 0 {
        raw
    } else {
        -1i32
    }
}

pub open spec fn spec_channel(raw: i16) -> Option<u8> {
    if 0 <= raw < 16 { Some(raw as u8) } else { None }
}

pub open spec fn spec_key(raw: i16) -> Option<u8> {
    if 0 <= raw < 128 { Some(raw as u8) } else { None }
}

/// What a VST3 event becomes.
/// - A note-on needs a valid channel and key, or it is skipped.
/// - A note-off keeps what it can: an invalid channel or key becomes the wildcard.
/// - Poly pressure is taken when pressure is enabled.
/// - A note expression addresses a note by id alone, so it needs an id, and is taken when
///   its dimension is enabled.
pub open spec fn vst3_event_of(e: Vst3Event, ne: NoteExpressions) -> Option<HostEvent> {
    let sample_offset = e.sample_offset as usize;
    match e.body {
        Vst3EventBody::NoteOn { channel, pitch, note_id, velocity } => if spec_channel(channel) is Some
            && spec_key(pitch) is Some {
            Some(
                HostEvent::NoteOn {
                    sample_offset,
                    channel,
                    key: pitch,
                    note: raw_note(note_id),
                    velocity,
                },
            )
        } else {
            None
        },
        Vst3EventBody::NoteOff { channel, pitch, note_id, velocity } => Some(
            HostEvent::NoteOff {
                sample_offset,
                channel: raw_or_wildcard(spec_channel(channel)),
                key: raw_or_wildcard(spec_key(pitch)),
                note: raw_note(note_id),
                velocity,
            },
        ),
        Vst3EventBody::PolyPressure { channel, pitch, note_id, pressure } => if ne@.pressure {
            Some(
                HostEvent::Expression {
                    kind: NoteExpression::Pressure,
                    sample_offset,
                    channel: raw_or_wildcard(spec_channel(channel)),
                    key: raw_or_wildcard(spec_key(pitch)),
                    note: raw_note(note_id),
                    value: pressure,
                },
            )
        } else {
            None
        },
        Vst3EventBody::NoteExpressionValue { kind, note_id, value } => if note_id < 0 {
            None
        } else {
            match kind {
                Some(k) => if ne@.enables(k) {
                    Some(
                        HostEvent::Expression {
                            kind: k,
                            sample_offset,
                            channel: -1i16,
                            key: -1i16,
                            note: note_id,
                            value,
                        },
                    )
                } else {
                    None
                },
                None => None,
            }
        },
        Vst3EventBody::Other => None,
    }
}

/// What the plugin takes of a VST3 event sits at the event's sample offset, whatever kind
/// of event it is.
/// - A note-on is taken exactly when its channel is in `0..16` and its key in `0..128`,
///   and keeps channel, key and velocity.
/// - A note-off is always taken and keeps its velocity; a channel or key out of range
///   becomes `-1`.
/// - Poly pressure is taken exactly when pressure is enabled, and becomes a pressure
///   expression with the pressure as its value.
/// - A note expression value is taken exactly when it has a note id, its dimension is
///   known and enabled; it keeps dimension, note id and value and addresses no channel or
///   key (`-1`).
/// - Note ids below 0 become `-1`; events of other types are dropped.
pub proof fn lemma_vst3_fields(e: Vst3Event, ne: NoteExpressions)
    ensures
        ({
            let r = vst3_event_of(e, ne);
            let at = e.sample_offset as usize;
            &&& r matches Some(h) ==> match h {
                HostEvent::NoteOn { sample_offset, .. } => sample_offset == at,
                HostEvent::NoteOff { sample_offset, .. } => sample_offset == at,
                HostEvent::Expression { sample_offset, .. } => sample_offset == at,
                HostEvent::Midi { .. } => false,
                HostEvent::ParameterValue { .. } => false,
                HostEvent::ParameterModulation { .. } => false,
            }
            &&& e.body matches Vst3EventBody::NoteOn { channel, pitch, note_id, velocity } ==> r == (if 0 <= channel
                < 16 && 0 <= pitch < 128 {
                Some(
                    HostEvent::NoteOn {
                        sample_offset: at,
                        channel,
                        key: pitch,
                        note: if note_id >= 0 { note_id } else { -1i32 },
                        velocity,
                    },
                )
            } else {
                None
            })
            &&& e.body matches Vst3EventBody::NoteOff { channel, pitch, note_id, velocity } ==> r == Some(
                HostEvent::NoteOff {
                    sample_offset: at,
                    channel: if 0 <= channel < 16 { channel } else { -1i16 },
                    key: if 0 <= pitch < 128 { pitch } else { -1i16 },
                    note: if note_id >= 0 { note_id } else { -1i32 },
                    velocity,
                },
            )
            &&& e.body matches Vst3EventBody::PolyPressure { channel, pitch, note_id, pressure } ==> r == (if ne@.pressure {
                Some(
                    HostEvent::Expression {
                        kind: NoteExpression::Pressure,
                        sample_offset: at,
                        channel: if 0 <= channel < 16 { channel } else { -1i16 },
                        key: if 0 <= pitch < 128 { pitch } else { -1i16 },
                        note: if note_id >= 0 { note_id } else { -1i32 },
                        value: pressure,
                    },
                )
            } else {
                None
            })
            &&& e.body matches Vst3EventBody::NoteExpressionValue { kind, note_id, value } ==> r == (if note_id >= 0
                && kind is Some && ne@.enables(kind->0) {
                Some(
                    HostEvent::Expression {
                        kind: kind->0,
                        sample_offset: at,
                        channel: -1i16,
                        key: -1i16,
                        note: note_id,
                        value,
                    },
                )
            } else {
                None
            })
            &&& e.body is Other ==> r is None
        }),
{
}

fn wildcard_or(valid: Option<u8>) -> (r: i16)
    ensures
        r == raw_or_wildcard(valid),
{
    match valid {
        Some(v) => v as i16,
        None => -1,
    }
}

fn note_or_wildcard(raw: i32) -> (r: i32)
    ensures
        r == raw_note(raw),
{
    match note_id(raw) {
        Some(id) => id as i32,
        None => -1,
    }
}

/// What a VST3 event becomes, see `vst3_event_of`.
pub fn translate_vst3_event(e: &Vst3Event, note_expressions: NoteExpressions) -> (r: Option<HostEvent>)
    ensures
        r == vst3_event_of(*e, note_expressions),
{
    let sample_offset = e.sample_offset as usize;
    match e.body {
        Vst3EventBody::NoteOn { channel, pitch, note_id, velocity } => {
            // A note-on always has a valid channel and key; anything else is skipped.
            match (note_channel(channel), note_key(pitch)) {
                (Some(_), Some(_)) => Some(
                    HostEvent::NoteOn {
                        sample_offset,
                        channel,
                        key: pitch,
                        note: note_or_wildcard(note_id),
                        velocity,
                    },
                ),
                _ => None,
            }
        },
        Vst3EventBody::NoteOff { channel, pitch, note_id, velocity } => Some(
            HostEvent::NoteOff {
                sample_offset,
                channel: wildcard_or(note_channel(channel)),
                key: wildcard_or(note_key(pitch)),
                note: note_or_wildcard(note_id),
                velocity,
            },
        ),
        Vst3EventBody::PolyPressure { channel, pitch, note_id, pressure } => if note_expressions.pressure() {
            Some(
                HostEvent::Expression {
                    kind: NoteExpression::Pressure,
                    sample_offset,
                    channel: wildcard_or(note_channel(channel)),
                    key: wildcard_or(note_key(pitch)),
                    note: note_or_wildcard(note_id),
                    value: pressure,
                },
            )
        } else {
            None
        },
        Vst3EventBody::NoteExpressionValue { kind, note_id: raw_id, value } => {
            // An expression without a note id addresses nothing at all.
            if note_id(raw_id).is_none() {
                return None;
            }
            match kind {
                Some(k) => if note_expressions.enables(k) {
                    Some(
                        HostEvent::Expression {
                            kind: k,
                            sample_offset,
                            channel: -1,
                            key: -1,
                            note: raw_id,
                            value,
                        },
                    )
                } else {
                    None
                },
                None => None,
            }
        },
        Vst3EventBody::Other => None,
    }
}

/// The index of the first event at or after `from` that becomes a `HostEvent`, or
/// `events.len()` if there is none.
pub open spec fn next_translated(events: Seq<Vst3Event>, from: int, ne: NoteExpressions) -> int
    decreases events.len() - from,
{
    if from < 0 {
        next_translated(events, 0, ne)
    } else if from >= events.len() {
        events.len() as int
    } else if vst3_event_of(events[from], ne) is Some {
        from
    } else {
        next_translated(events, from + 1, ne)
    }
}

pub proof fn lemma_next_translated(events: Seq<Vst3Event>, from: int, ne: NoteExpressions)
    requires
        0 <= from <= events.len(),
    ensures
        from <= next_translated(events, from, ne) <= events.len(),
        next_translated(events, from, ne) < events.len() ==> vst3_event_of(
            events[next_translated(events, from, ne)],
            ne,
        ) is Some,
        forall|k: int| from <= k < next_translated(events, from, ne) ==> vst3_event_of(#[trigger] events[k], ne) is None,
    decreases events.len() - from,
{
    if from < events.len() && vst3_event_of(events[from], ne) is None {
        lemma_next_translated(events, from + 1, ne);
    }
}

/// What the events from index `from` on become, in order: each event that the plugin
/// takes, translated by `vst3_event_of`; the others left out.
pub open spec fn translated_from(events: Seq<Vst3Event>, from: int, ne: NoteExpressions) -> Seq<HostEvent>
    decreases events.len() - from,
{
    if 0 <= from < events.len() {
        let rest = translated_from(events, from + 1, ne);
        match vst3_event_of(events[from], ne) {
            Some(e) => seq![e] + rest,
            None => rest,
        }
    } else {
        Seq::empty()
    }
}

/// Skipping the events that the plugin does not take changes nothing of what is left.
proof fn lemma_skip_untranslated(events: Seq<Vst3Event>, from: int, ne: NoteExpressions)
    requires
        0 <= from <= events.len(),
    ensures
        translated_from(events, from, ne) == translated_from(events, next_translated(events, from, ne), ne),
    decreases events.len() - from,
{
    if from < events.len() && vst3_event_of(events[from], ne) is None {
        lemma_skip_untranslated(events, from + 1, ne);
    }
}

/// A walk over `events` from index `from` on hands out at most one event per event of
/// the list.
pub proof fn lemma_translated_from_len(events: Seq<Vst3Event>, from: int, ne: NoteExpressions)
    requires
        0 <= from <= events.len(),
    ensures
        translated_from(events, from, ne).len() <= events.len() - from,
    decreases events.len() - from,
{
    if from < events.len() {
        lemma_translated_from_len(events, from + 1, ne);
    }
}

/// Hands out the events of a VST3 event list that the plugin takes, in order.
pub struct EventIterator {
    event_list: Option<Vec<Vst3Event>>,
    index: usize,
    note_expressions: NoteExpressions,
}

impl EventIterator {
    pub closed spec fn events(&self) -> Option<Seq<Vst3Event>> {
        match self.event_list {
            Some(v) => Some(v@),
            None => None,
        }
    }

    /// How many events have been looked at.
    pub closed spec fn index(&self) -> usize {
        self.index
    }

    pub closed spec fn note_expressions(&self) -> NoteExpressions {
        self.note_expressions
    }

    /// The events that the walk has still to hand out, in order; none where the host gave
    /// no event list.
    pub open spec fn remaining(&self) -> Seq<HostEvent> {
        match self.events() {
            Some(events) => translated_from(events, self.index() as int, self.note_expressions()),
            None => Seq::empty(),
        }
    }

    /// Start walking `event_list` (`None` when the host gave none).
    pub fn new(event_list: Option<Vec<Vst3Event>>, note_expressions: NoteExpressions) -> (r: Self)
        ensures
            r.events() == match event_list {
                Some(v) => Some(v@),
                None => None,
            },
            r.index() == 0,
            r.note_expressions() == note_expressions,
            r.remaining() == match event_list {
                Some(v) => translated_from(v@, 0, note_expressions),
                None => Seq::<HostEvent>::empty(),
            },
    {
        EventIterator { event_list, index: 0, note_expressions }
    }

    /// The next event that the plugin takes; events that it does not take are skipped.
    pub fn next(&mut self) -> (r: Option<HostEvent>)
        ensures
            final(self).events() == old(self).events(),
            final(self).note_expressions() == old(self).note_expressions(),
            ({
                let ne = old(self).note_expressions();
                match old(self).events() {
                    None => r is None && final(self).index() == old(self).index(),
                    Some(events) => {
                        let k = next_translated(events, old(self).index() as int, ne);
                        if old(self).index() >= events.len() {
                            r is None && final(self).index() == old(self).index()
                        } else if k < events.len() {
                            &&& r == vst3_event_of(events[k], ne)
                            &&& final(self).index() == k + 1
                        } else {
                            &&& r is None
                            &&& final(self).index() == events.len()
                        }
                    },
                }
            }),
            old(self).remaining() == match r {
                Some(e) => seq![e] + final(self).remaining(),
                None => Seq::<HostEvent>::empty(),
            },
            r is None ==> final(self).remaining() == Seq::<HostEvent>::empty(),
    {
        let events = match &self.event_list {
            Some(events) => events,
            None => {
                return None;
            },
        };
        let ghost start = self.index;
        let ghost seq = events@;
        let mut index = self.index;
        if index >= events.len() {
            return None;
        }
        proof {
            lemma_next_translated(seq, start as int, self.note_expressions);
            lemma_skip_untranslated(seq, start as int, self.note_expressions);
        }
        while index < events.len()
            invariant
                seq == events@,
                *self == *old(self),
                old(self).event_list matches Some(v) && v@ == seq,
                start <= index <= seq.len(),
                start < seq.len(),
                start == old(self).index,
                next_translated(seq, start as int, self.note_expressions) == next_translated(
                    seq,
                    index as int,
                    self.note_expressions,
                ),
                translated_from(seq, start as int, self.note_expressions) == translated_from(
                    seq,
                    next_translated(seq, start as int, self.note_expressions),
                    self.note_expressions,
                ),
            decreases seq.len() - index,
        {
            let event = translate_vst3_event(&events[index], self.note_expressions);
            proof {
                assert(events[index as int] == seq[index as int]);
                if let Some(e) = event {
                    assert(next_translated(seq, index as int, self.note_expressions) == index);
                    assert(translated_from(seq, index as int, self.note_expressions) == seq![e] + translated_from(
                        seq,
                        index + 1,
                        self.note_expressions,
                    ));
                } else {
                    assert(next_translated(seq, index as int, self.note_expressions) == next_translated(
                        seq,
                        index + 1,
                        self.note_expressions,
                    ));
                }
            }
            index = index + 1;
            if event.is_some() {
                self.index = index;
                return event;
            }
        }
        self.index = index;
        None
    }
}

} // verus!
