//! Events delivered to a plugin's processor, and splitting a buffer at parameter events.
use vstd::prelude::*;

verus! {

/// A parameter's id.
pub type ParameterId = u32;

/// A 64-bit floating point value, carried by its bit pattern (`f64::to_bits`). The library
/// passes such values through unchanged and never computes with them.
pub type F64Bits = u64;

/// An event for the processor. `sample_offset` is the sample position within the current
/// buffer. Channel, key and note fields hold the host's raw values, where `-1` is the
/// wildcard.
#[derive(Clone, Copy, Debug, PartialEq, Eq, Structural)]
#[non_exhaustive]
pub enum Event {
    NoteOn { sample_offset: usize, channel: i16, key: i16, note: i32, velocity: F64Bits },
    NoteOff { sample_offset: usize, channel: i16, key: i16, note: i32, velocity: F64Bits },
    /// Per-note volume. `gain` is linear in [0, 4], where 1 is 0dB and 0 -INFdB.
    PolyVolume { sample_offset: usize, channel: i16, key: i16, note: i32, gain: F64Bits },
    /// Polyphonic key pressure (poly aftertouch) delivered by a native per-note mechanism.
    /// `value` is in [0, 1].
    PolyPressure { sample_offset: usize, channel: i16, key: i16, note: i32, value: F64Bits },
    /// Per-note panning. `pan` is in [-1, 1] (left..right).
    PolyPan { sample_offset: usize, channel: i16, key: i16, note: i32, pan: F64Bits },
    /// Per-note tuning offset in semitones, in [-120, +120].
    PolyTuning { sample_offset: usize, channel: i16, key: i16, note: i32, semitones: F64Bits },
    /// Per-note vibrato. `amount` is in [0, 1].
    PolyVibrato { sample_offset: usize, channel: i16, key: i16, note: i32, amount: F64Bits },
    /// Per-note expression (MIDI MPE "slide"). `amount` is in [0, 1].
    PolyExpression { sample_offset: usize, channel: i16, key: i16, note: i32, amount: F64Bits },
    /// Per-note brightness a.k.a. timbre. `amount` is in [0, 1].
    PolyBrightness { sample_offset: usize, channel: i16, key: i16, note: i32, amount: F64Bits },
    /// Channel-wide MIDI pitch bend in semitones (standard +-2 semitone range).
    MidiPitchBend { sample_offset: usize, channel: i16, semitones: F64Bits },
    /// Channel-wide pressure (mono aftertouch). `value` is in [0, 1].
    MidiChannelPressure { sample_offset: usize, channel: i16, value: F64Bits },
    /// Polyphonic key pressure delivered as a raw MIDI byte message. `value` is in [0, 1].
    MidiPolyPressure { sample_offset: usize, channel: i16, key: i16, note: i32, value: F64Bits },
    /// MIDI program change. `program` is the program number (0..=127).
    MidiProgramChange { sample_offset: usize, channel: i16, program: u8 },
    /// MIDI control change. `controller` is the CC number (0..=127), `value` is in [0, 1].
    MidiControlChange { sample_offset: usize, channel: i16, controller: u8, value: F64Bits },
    StartParameterChange { id: ParameterId },
    EndParameterChange { id: ParameterId },
    ParameterValue { sample_offset: usize, id: ParameterId, value: F64Bits },
    ParameterModulation { sample_offset: usize, id: ParameterId, amount: F64Bits },
}

impl Event {
    /// The event's sample offset; 0 for the events that carry none.
    pub open spec fn offset(self) -> usize {
        match self {
            Event::NoteOn { sample_offset, .. } => sample_offset,
            Event::NoteOff { sample_offset, .. } => sample_offset,
            Event::PolyVolume { sample_offset, .. } => sample_offset,
            Event::PolyPressure { sample_offset, .. } => sample_offset,
            Event::PolyPan { sample_offset, .. } => sample_offset,
            Event::PolyTuning { sample_offset, .. } => sample_offset,
            Event::PolyVibrato { sample_offset, .. } => sample_offset,
            Event::PolyExpression { sample_offset, .. } => sample_offset,
            Event::PolyBrightness { sample_offset, .. } => sample_offset,
            Event::MidiPitchBend { sample_offset, .. } => sample_offset,
            Event::MidiChannelPressure { sample_offset, .. } => sample_offset,
            Event::MidiPolyPressure { sample_offset, .. } => sample_offset,
            Event::MidiProgramChange { sample_offset, .. } => sample_offset,
            Event::MidiControlChange { sample_offset, .. } => sample_offset,
            Event::ParameterValue { sample_offset, .. } => sample_offset,
            Event::ParameterModulation { sample_offset, .. } => sample_offset,
            Event::StartParameterChange { .. } => 0,
            Event::EndParameterChange { .. } => 0,
        }
    }

    /// Every event that carries a sample offset reports that offset, and the two events
    /// that carry none (start and end of a parameter gesture) report 0.
    pub proof fn lemma_offset_is_the_field(e: Event)
        ensures
            e matches Event::NoteOn { sample_offset, .. } ==> e.offset() == sample_offset,
            e matches Event::NoteOff { sample_offset, .. } ==> e.offset() == sample_offset,
            e matches Event::PolyVolume { sample_offset, .. } ==> e.offset() == sample_offset,
            e matches Event::PolyPressure { sample_offset, .. } ==> e.offset() == sample_offset,
            e matches Event::PolyPan { sample_offset, .. } ==> e.offset() == sample_offset,
            e matches Event::PolyTuning { sample_offset, .. } ==> e.offset() == sample_offset,
            e matches Event::PolyVibrato { sample_offset, .. } ==> e.offset() == sample_offset,
            e matches Event::PolyExpression { sample_offset, .. } ==> e.offset() == sample_offset,
            e matches Event::PolyBrightness { sample_offset, .. } ==> e.offset() == sample_offset,
            e matches Event::MidiPitchBend { sample_offset, .. } ==> e.offset() == sample_offset,
            e matches Event::MidiChannelPressure { sample_offset, .. } ==> e.offset() == sample_offset,
            e matches Event::MidiPolyPressure { sample_offset, .. } ==> e.offset() == sample_offset,
            e matches Event::MidiProgramChange { sample_offset, .. } ==> e.offset() == sample_offset,
            e matches Event::MidiControlChange { sample_offset, .. } ==> e.offset() == sample_offset,
            e matches Event::ParameterValue { sample_offset, .. } ==> e.offset() == sample_offset,
            e matches Event::ParameterModulation { sample_offset, .. } ==> e.offset() == sample_offset,
            e is StartParameterChange ==> e.offset() == 0,
            e is EndParameterChange ==> e.offset() == 0,
    {
    }

    /// The event sets or modulates a parameter at a sample position.
    pub open spec fn is_parameter_event(self) -> bool {
        self is ParameterValue || self is ParameterModulation
    }

    /// The event's sample offset; 0 for the events that carry none.
    pub fn sample_offset(&self) -> (r: usize)
        ensures
            r == self.offset(),
    {
        match self {
            Event::NoteOn { sample_offset, .. } => *sample_offset,
            Event::NoteOff { sample_offset, .. } => *sample_offset,
            Event::PolyVolume { sample_offset, .. } => *sample_offset,
            Event::PolyPan { sample_offset, .. } => *sample_offset,
            Event::PolyTuning { sample_offset, .. } => *sample_offset,
            Event::PolyVibrato { sample_offset, .. } => *sample_offset,
            Event::PolyExpression { sample_offset, .. } => *sample_offset,
            Event::PolyBrightness { sample_offset, .. } => *sample_offset,
            Event::PolyPressure { sample_offset, .. } => *sample_offset,
            Event::MidiPitchBend { sample_offset, .. } => *sample_offset,
            Event::MidiChannelPressure { sample_offset, .. } => *sample_offset,
            Event::MidiPolyPressure { sample_offset, .. } => *sample_offset,
            Event::MidiProgramChange { sample_offset, .. } => *sample_offset,
            Event::MidiControlChange { sample_offset, .. } => *sample_offset,
            Event::ParameterValue { sample_offset, .. } => *sample_offset,
            Event::ParameterModulation { sample_offset, .. } => *sample_offset,
            _ => 0,
        }
    }

    /// Split a buffer of `signal_len` samples at the parameter events among `events`.
    /// See `SignalSplitter`.
    pub fn split_signal_at_events(signal_len: usize, events: Vec<Event>) -> (r: SignalSplitter)
        requires
            parameter_offsets_sorted(events@, signal_len),
        ensures
            r.wf(),
            r.signal_len() == signal_len,
            r.events() == events@,
            r.position() == 0,
            r.offset() == 0,
    {
        SignalSplitter::new(signal_len, events)
    }
}

/// Where a parameter event at `e` cuts a buffer of `len` samples.
pub open spec fn cut(e: Event, len: usize) -> usize {
    if e.offset() < len {
        e.offset()
    } else {
        len
    }
}

/// The parameter events among `events` cut the buffer in nondecreasing positions.
pub open spec fn parameter_offsets_sorted(events: Seq<Event>, len: usize) -> bool {
    forall|i: int, j: int|
        0 <= i < j < events.len() && events[i].is_parameter_event() && events[j].is_parameter_event()
            ==> cut(events[i], len) <= cut(events[j], len)
}

/// The index of the first parameter event at or after `from`, or `events.len()` if none.
pub open spec fn next_parameter_event(events: Seq<Event>, from: int) -> int
    decreases events.len() - from,
{
    if from >= events.len() {
        events.len() as int
    } else if from < 0 {
        next_parameter_event(events, 0)
    } else if events[from].is_parameter_event() {
        from
    } else {
        next_parameter_event(events, from + 1)
    }
}

pub proof fn lemma_next_parameter_event(events: Seq<Event>, from: int)
    requires
        0 <= from <= events.len(),
    ensures
        from <= next_parameter_event(events, from) <= events.len(),
        next_parameter_event(events, from) < events.len() ==> events[next_parameter_event(
            events,
            from,
        )].is_parameter_event(),
        forall|k: int| from <= k < next_parameter_event(events, from) ==> !(#[trigger] events[k]).is_parameter_event(),
    decreases events.len() - from,
{
    if from < events.len() && !events[from].is_parameter_event() {
        lemma_next_parameter_event(events, from + 1);
    }
}

/// The pieces that splitting hands out from the event at `position` on, when the current
/// piece starts at `offset`.
pub open spec fn pieces(events: Seq<Event>, len: usize, position: int, offset: usize) -> Seq<Split>
    decreases events.len() - position,
{
    let k = next_parameter_event(events, position);
    if 0 <= position <= k < events.len() {
        let e = events[k];
        seq![Split { start: offset, end: cut(e, len), event: Some(e) }].add(
            pieces(events, len, k + 1, cut(e, len)),
        )
    } else if offset < len {
        seq![Split { start: offset, end: len, event: None }]
    } else {
        Seq::empty()
    }
}

/// The pieces tile the rest of the buffer: the first starts at `offset`, each starts where
/// the one before ended, none runs backwards, and the last ends at the end of the buffer.
/// There is no piece at all only when nothing is left and no parameter event remains.
pub proof fn lemma_pieces_tile(events: Seq<Event>, len: usize, position: int, offset: usize)
    requires
        0 <= position <= events.len(),
        offset <= len,
        parameter_offsets_sorted(events, len),
        forall|k: int|
            position <= k < events.len() && (#[trigger] events[k]).is_parameter_event() ==> offset
                <= cut(events[k], len),
    ensures
        ({
            let p = pieces(events, len, position, offset);
            &&& p.len() > 0 ==> p[0].start == offset && p.last().end == len
            &&& forall|i: int| 0 <= i < p.len() ==> (#[trigger] p[i]).start <= p[i].end
            &&& forall|i: int| 0 <= i < p.len() - 1 ==> (#[trigger] p[i]).end == p[i + 1].start
            &&& p.len() == 0 <==> (offset == len && next_parameter_event(events, position) == events.len())
        }),
    decreases events.len() - position,
{
    lemma_next_parameter_event(events, position);
    let k = next_parameter_event(events, position);
    if k < events.len() {
        let e = events[k];
        let c = cut(e, len);
        assert forall|j: int| k + 1 <= j < events.len() && (#[trigger] events[j]).is_parameter_event() implies c
            <= cut(events[j], len) by {
        }
        lemma_pieces_tile(events, len, k + 1, c);
        let rest = pieces(events, len, k + 1, c);
        let p = pieces(events, len, position, offset);
        assert(p == seq![Split { start: offset, end: c, event: Some(e) }].add(rest));
        assert forall|i: int| 0 <= i < p.len() - 1 implies (#[trigger] p[i]).end == p[i + 1].start by {
            if i > 0 {
                assert(p[i] == rest[i - 1]);
                assert(p[i + 1] == rest[i]);
            }
        }
        assert forall|i: int| 0 <= i < p.len() implies (#[trigger] p[i]).start <= p[i].end by {
            if i > 0 {
                assert(p[i] == rest[i - 1]);
            }
        }
        if rest.len() > 0 {
            assert(p.last() == rest.last());
        }
    }
}

/// Each piece that a parameter event ends stops at that event's sample offset, or at the
/// end of the buffer when the offset lies past it; the piece without an event is the last
/// one and runs to the end of the buffer. Only parameter events end pieces.
pub proof fn lemma_pieces_end_at_events(events: Seq<Event>, len: usize, position: int, offset: usize)
    requires
        0 <= position <= events.len(),
    ensures
        ({
            let p = pieces(events, len, position, offset);
            forall|i: int| #![trigger p[i]] 0 <= i < p.len() ==> match p[i].event {
                Some(e) => (e is ParameterValue || e is ParameterModulation) && p[i].end == (if e.offset() < len {
                    e.offset()
                } else {
                    len
                }),
                None => p[i].end == len && i == p.len() - 1,
            }
        }),
    decreases events.len() - position,
{
    lemma_next_parameter_event(events, position);
    let k = next_parameter_event(events, position);
    let p = pieces(events, len, position, offset);
    if k < events.len() {
        let e = events[k];
        lemma_pieces_end_at_events(events, len, k + 1, cut(e, len));
        let rest = pieces(events, len, k + 1, cut(e, len));
        assert forall|i: int| #![trigger p[i]] 0 < i < p.len() implies p[i] == rest[i - 1] by {
        }
    }
}

/// The events that `pieces` hand out, in order.
pub open spec fn delivered(pieces: Seq<Split>) -> Seq<Event>
    decreases pieces.len(),
{
    if pieces.len() == 0 {
        Seq::empty()
    } else {
        (match pieces[0].event {
            Some(e) => seq![e],
            None => Seq::empty(),
        }) + delivered(pieces.drop_first())
    }
}

/// The parameter events among `events` from `position` on, in order.
pub open spec fn parameter_events_from(events: Seq<Event>, position: int) -> Seq<Event>
    decreases events.len() - position,
{
    if position < 0 || position >= events.len() {
        Seq::empty()
    } else {
        (if events[position].is_parameter_event() {
            seq![events[position]]
        } else {
            Seq::empty()
        }) + parameter_events_from(events, position + 1)
    }
}

proof fn lemma_skip_to_parameter_event(events: Seq<Event>, position: int)
    requires
        0 <= position <= events.len(),
    ensures
        parameter_events_from(events, position) == parameter_events_from(
            events,
            next_parameter_event(events, position),
        ),
    decreases events.len() - position,
{
    if position < events.len() && !events[position].is_parameter_event() {
        lemma_skip_to_parameter_event(events, position + 1);
        assert(parameter_events_from(events, position) =~= parameter_events_from(events, position + 1));
    }
}

/// Splitting hands out every parameter event exactly once, in the order of the list, and
/// no other event.
pub proof fn lemma_pieces_deliver_parameter_events(events: Seq<Event>, len: usize, position: int, offset: usize)
    requires
        0 <= position <= events.len(),
    ensures
        delivered(pieces(events, len, position, offset)) == parameter_events_from(events, position),
    decreases events.len() - position,
{
    lemma_next_parameter_event(events, position);
    lemma_skip_to_parameter_event(events, position);
    let k = next_parameter_event(events, position);
    let p = pieces(events, len, position, offset);
    if k < events.len() {
        let e = events[k];
        lemma_pieces_deliver_parameter_events(events, len, k + 1, cut(e, len));
        let rest = pieces(events, len, k + 1, cut(e, len));
        assert(p.drop_first() =~= rest);
        assert(delivered(p) =~= seq![e] + delivered(rest));
        assert(parameter_events_from(events, k) =~= seq![e] + parameter_events_from(events, k + 1));
    } else {
        assert(parameter_events_from(events, k) =~= Seq::<Event>::empty());
        if offset < len {
            assert(p.drop_first() =~= Seq::<Split>::empty());
            assert(delivered(p.drop_first()) =~= Seq::<Event>::empty());
            assert(delivered(p) =~= Seq::<Event>::empty());
        } else {
            assert(delivered(p) =~= Seq::<Event>::empty());
        }
    }
}

/// One piece of a split buffer: the samples `start..end`, and the parameter event that
/// ends the piece (`None` for the final piece that runs to the end of the buffer).
#[derive(Clone, Copy, Debug, PartialEq, Eq, Structural)]
pub struct Split {
    pub start: usize,
    pub end: usize,
    pub event: Option<Event>,
}

/// Walks a buffer of `signal_len` samples and a list of events, and hands out the pieces of
/// the buffer between consecutive parameter events (`ParameterValue` and
/// `ParameterModulation`), each with the event that ends it, and finally the rest of the
/// buffer. Other events are skipped. An event's offset past the end of the buffer counts as
/// the end of the buffer.
pub struct SignalSplitter {
    signal_len: usize,
    events: Vec<Event>,
    position: usize,
    offset: usize,
}

impl SignalSplitter {
    pub closed spec fn signal_len(&self) -> usize {
        self.signal_len
    }

    pub closed spec fn events(&self) -> Seq<Event> {
        self.events@
    }

    /// How many events have been looked at.
    pub closed spec fn position(&self) -> usize {
        self.position
    }

    /// Where the next piece starts.
    pub closed spec fn offset(&self) -> usize {
        self.offset
    }

    /// The pieces still to be handed out.
    pub open spec fn remaining(&self) -> Seq<Split> {
        pieces(self.events(), self.signal_len(), self.position() as int, self.offset())
    }

    /// The state can be continued without a piece running backwards.
    pub open spec fn wf(&self) -> bool {
        &&& self.position() <= self.events().len()
        &&& self.offset() <= self.signal_len()
        &&& parameter_offsets_sorted(self.events(), self.signal_len())
        &&& forall|k: int|
            self.position() <= k < self.events().len() && (#[trigger] self.events()[k]).is_parameter_event()
                ==> self.offset() <= cut(self.events()[k], self.signal_len())
    }

    /// Start splitting a buffer of `signal_len` samples at `events`. The parameter events
    /// must lie in time order, or a piece would run backwards.
    pub fn new(signal_len: usize, events: Vec<Event>) -> (r: Self)
        requires
            parameter_offsets_sorted(events@, signal_len),
        ensures
            r.wf(),
            r.signal_len() == signal_len,
            r.events() == events@,
            r.position() == 0,
            r.offset() == 0,
    {
        SignalSplitter { signal_len, events, position: 0, offset: 0 }
    }

    /// The next piece of the buffer, or `None` when the whole buffer has been handed out.
    pub fn next(&mut self) -> (r: Option<Split>)
        requires
            old(self).wf(),
        ensures
            final(self).wf(),
            final(self).signal_len() == old(self).signal_len(),
            final(self).events() == old(self).events(),
            old(self).remaining() == match r {
                Some(split) => seq![split].add(final(self).remaining()),
                None => Seq::<Split>::empty(),
            },
            ({
                let k = next_parameter_event(old(self).events(), old(self).position() as int);
                let len = old(self).signal_len();
                if k < old(self).events().len() {
                    let e = old(self).events()[k];
                    &&& r == Some(Split { start: old(self).offset(), end: cut(e, len), event: Some(e) })
                    &&& final(self).position() == k + 1
                    &&& final(self).offset() == cut(e, len)
                } else if old(self).offset() < len {
                    &&& r == Some(Split { start: old(self).offset(), end: len, event: None })
                    &&& final(self).position() == old(self).events().len()
                    &&& final(self).offset() == len
                } else {
                    &&& r == None::<Split>
                    &&& final(self).position() == old(self).events().len()
                    &&& final(self).offset() == old(self).offset()
                }
            }),
    {
        proof {
            lemma_next_parameter_event(self.events@, self.position as int);
        }
        while self.position < self.events.len()
            invariant_except_break
                self.signal_len == old(self).signal_len,
                self.events@ == old(self).events@,
                self.offset == old(self).offset,
                old(self).position <= self.position <= self.events@.len(),
                old(self).wf(),
                next_parameter_event(self.events@, old(self).position as int) == next_parameter_event(
                    self.events@,
                    self.position as int,
                ),
            ensures
                self.signal_len == old(self).signal_len,
                self.events@ == old(self).events@,
                self.offset == old(self).offset,
                self.position == self.events@.len(),
                next_parameter_event(self.events@, old(self).position as int) == self.events@.len(),
            decreases self.events@.len() - self.position,
        {
            let event = self.events[self.position];
            self.position = self.position + 1;
            match event {
                Event::ParameterValue { sample_offset, .. }
                | Event::ParameterModulation { sample_offset, .. } => {
                    let end = if sample_offset < self.signal_len {
                        sample_offset
                    } else {
                        self.signal_len
                    };
                    let split = Split { start: self.offset, end, event: Some(event) };
                    self.offset = end;
                    proof {
                        lemma_next_parameter_event(self.events@, old(self).position as int);
                        let k = (self.position - 1) as int;
                        assert forall|j: int|
                            self.position <= j < self.events@.len()
                                && (#[trigger] self.events@[j]).is_parameter_event() implies self.offset
                            <= cut(self.events@[j], self.signal_len) by {
                            assert(self.events@[k] == event);
                        }
                    }
                    return Some(split);
                },
                _ => {},
            }
        }
        if self.offset < self.signal_len {
            let split = Split { start: self.offset, end: self.signal_len, event: None };
            self.offset = self.signal_len;
            Some(split)
        } else {
            None
        }
    }
}

} // verus!
