use plinth_plugin::event::{Event, SignalSplitter, Split};

fn bits(x: f64) -> u64 {
    x.to_bits()
}

#[test]
fn sample_offsets_of_events() {
    let on = Event::NoteOn { sample_offset: 12, channel: 0, key: 60, note: -1, velocity: bits(0.5) };
    assert_eq!(on.sample_offset(), 12);
    let bend = Event::MidiPitchBend { sample_offset: 3, channel: 1, semitones: bits(-2.0) };
    assert_eq!(bend.sample_offset(), 3);
    let pc = Event::MidiProgramChange { sample_offset: 44, channel: 1, program: 9 };
    assert_eq!(pc.sample_offset(), 44);
    let value = Event::ParameterValue { sample_offset: 99, id: 4, value: bits(1.0) };
    assert_eq!(value.sample_offset(), 99);
    assert_eq!(Event::StartParameterChange { id: 4 }.sample_offset(), 0);
    assert_eq!(Event::EndParameterChange { id: 4 }.sample_offset(), 0);
}

#[test]
fn splitting_at_parameter_events() {
    let value = Event::ParameterValue { sample_offset: 10, id: 1, value: bits(0.25) };
    let modulation = Event::ParameterModulation { sample_offset: 40, id: 2, amount: bits(0.1) };
    let events = vec![
        Event::NoteOn { sample_offset: 5, channel: 0, key: 60, note: -1, velocity: bits(1.0) },
        value,
        Event::NoteOff { sample_offset: 20, channel: 0, key: 60, note: -1, velocity: bits(0.0) },
        modulation,
    ];
    let mut splitter = Event::split_signal_at_events(64, events);
    assert_eq!(splitter.next(), Some(Split { start: 0, end: 10, event: Some(value) }));
    assert_eq!(splitter.next(), Some(Split { start: 10, end: 40, event: Some(modulation) }));
    assert_eq!(splitter.next(), Some(Split { start: 40, end: 64, event: None }));
    assert_eq!(splitter.next(), None);
    assert_eq!(splitter.next(), None);
}

#[test]
fn splitting_without_parameter_events() {
    let events = vec![Event::NoteOn { sample_offset: 5, channel: 0, key: 60, note: -1, velocity: bits(1.0) }];
    let mut splitter = SignalSplitter::new(32, events);
    assert_eq!(splitter.next(), Some(Split { start: 0, end: 32, event: None }));
    assert_eq!(splitter.next(), None);
}

#[test]
fn splitting_an_empty_buffer() {
    let mut splitter = SignalSplitter::new(0, vec![]);
    assert_eq!(splitter.next(), None);
}

#[test]
fn offsets_past_the_end_cut_at_the_end() {
    let late = Event::ParameterValue { sample_offset: 500, id: 1, value: bits(0.0) };
    let mut splitter = SignalSplitter::new(16, vec![late]);
    assert_eq!(splitter.next(), Some(Split { start: 0, end: 16, event: Some(late) }));
    assert_eq!(splitter.next(), None);
}

#[test]
fn events_at_the_same_offset_give_empty_pieces() {
    let a = Event::ParameterValue { sample_offset: 0, id: 1, value: bits(0.0) };
    let b = Event::ParameterValue { sample_offset: 0, id: 2, value: bits(1.0) };
    let mut splitter = SignalSplitter::new(8, vec![a, b]);
    assert_eq!(splitter.next(), Some(Split { start: 0, end: 0, event: Some(a) }));
    assert_eq!(splitter.next(), Some(Split { start: 0, end: 0, event: Some(b) }));
    assert_eq!(splitter.next(), Some(Split { start: 0, end: 8, event: None }));
    assert_eq!(splitter.next(), None);
}

#[test]
fn pieces_tile_the_buffer() {
    let events: Vec<Event> = [3usize, 3, 9, 30, 31]
        .iter()
        .map(|&o| Event::ParameterModulation { sample_offset: o, id: 7, amount: bits(0.5) })
        .collect();
    let mut splitter = SignalSplitter::new(31, events);
    let mut at = 0;
    let mut delivered = 0;
    while let Some(split) = splitter.next() {
        assert_eq!(split.start, at);
        assert!(split.start <= split.end);
        at = split.end;
        if split.event.is_some() {
            delivered += 1;
        }
    }
    assert_eq!(at, 31);
    assert_eq!(delivered, 5);
}
