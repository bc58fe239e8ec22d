use plinth_plugin::clap_events::{self, translate_clap_event, ClapEvent};
use plinth_plugin::host_event::HostEvent;
use plinth_plugin::midi::MidiMessage;
use plinth_plugin::midi_capabilities::MidiCapabilities;
use plinth_plugin::note_expressions::{NoteExpression, NoteExpressions};
use plinth_plugin::vst3_events::{self, translate_vst3_event, Vst3Event, Vst3EventBody};

fn bits(x: f64) -> u64 {
    x.to_bits()
}

#[test]
fn clap_notes_pass_through() {
    let on = ClapEvent::NoteOn { time: 3, channel: -1, key: 60, note_id: 42, velocity: bits(0.8) };
    assert_eq!(
        translate_clap_event(&on, NoteExpressions::none(), MidiCapabilities::none()),
        Some(HostEvent::NoteOn { sample_offset: 3, channel: -1, key: 60, note: 42, velocity: bits(0.8) })
    );
    let off = ClapEvent::NoteOff { time: 4, channel: 2, key: 61, note_id: -1, velocity: bits(0.0) };
    assert_eq!(
        translate_clap_event(&off, NoteExpressions::none(), MidiCapabilities::none()),
        Some(HostEvent::NoteOff { sample_offset: 4, channel: 2, key: 61, note: -1, velocity: bits(0.0) })
    );
}

#[test]
fn clap_expressions_need_their_dimension() {
    let tuning = ClapEvent::NoteExpression {
        time: 1,
        kind: Some(NoteExpression::Tuning),
        channel: 0,
        key: 64,
        note_id: 7,
        value: bits(1.5),
    };
    assert_eq!(translate_clap_event(&tuning, NoteExpressions::none().with_pan(), MidiCapabilities::none()), None);
    assert_eq!(
        translate_clap_event(&tuning, NoteExpressions::none().with_tuning(), MidiCapabilities::none()),
        Some(HostEvent::Expression {
            kind: NoteExpression::Tuning,
            sample_offset: 1,
            channel: 0,
            key: 64,
            note: 7,
            value: bits(1.5)
        })
    );
    let unknown = ClapEvent::NoteExpression { time: 1, kind: None, channel: 0, key: 64, note_id: 7, value: bits(1.5) };
    assert_eq!(translate_clap_event(&unknown, NoteExpressions::all(), MidiCapabilities::none()), None);
}

#[test]
fn clap_midi_and_parameters() {
    let cc = ClapEvent::Midi { time: 9, data: [0xB1, 1, 64] };
    assert_eq!(translate_clap_event(&cc, NoteExpressions::none(), MidiCapabilities::none()), None);
    assert_eq!(
        translate_clap_event(&cc, NoteExpressions::none(), MidiCapabilities::none().with_control_change(1)),
        Some(HostEvent::Midi {
            message: MidiMessage::ControlChange { sample_offset: 9, channel: 1, controller: 1, value: 64 }
        })
    );
    let value = ClapEvent::ParamValue { time: 2, param_id: 5, value: bits(3.0) };
    assert_eq!(
        translate_clap_event(&value, NoteExpressions::none(), MidiCapabilities::none()),
        Some(HostEvent::ParameterValue { sample_offset: 2, id: 5, value: bits(3.0) })
    );
    let modulation = ClapEvent::ParamMod { time: 2, param_id: 5, amount: bits(-1.0) };
    assert_eq!(
        translate_clap_event(&modulation, NoteExpressions::none(), MidiCapabilities::none()),
        Some(HostEvent::ParameterModulation { sample_offset: 2, id: 5, amount: bits(-1.0) })
    );
    assert_eq!(translate_clap_event(&ClapEvent::Other, NoteExpressions::all(), MidiCapabilities::none()), None);
}

#[test]
fn clap_iterator_skips_what_the_plugin_does_not_take() {
    let events = vec![
        ClapEvent::Other,
        ClapEvent::NoteOn { time: 0, channel: 0, key: 60, note_id: 1, velocity: bits(1.0) },
        ClapEvent::Midi { time: 1, data: [0xD0, 5, 0] },
        ClapEvent::NoteExpression { time: 2, kind: Some(NoteExpression::Volume), channel: 0, key: 60, note_id: 1, value: bits(2.0) },
        ClapEvent::Other,
    ];
    let mut it = clap_events::EventIterator::new(events, MidiCapabilities::none(), NoteExpressions::none().with_volume());
    assert_eq!(it.next(), Some(HostEvent::NoteOn { sample_offset: 0, channel: 0, key: 60, note: 1, velocity: bits(1.0) }));
    assert_eq!(
        it.next(),
        Some(HostEvent::Expression { kind: NoteExpression::Volume, sample_offset: 2, channel: 0, key: 60, note: 1, value: bits(2.0) })
    );
    assert_eq!(it.next(), None);
    assert_eq!(it.next(), None);
}

fn vst3(sample_offset: i32, body: Vst3EventBody) -> Vst3Event {
    Vst3Event { sample_offset, body }
}

#[test]
fn vst3_note_on_needs_channel_and_key() {
    let ne = NoteExpressions::none();
    let ok = vst3(5, Vst3EventBody::NoteOn { channel: 3, pitch: 60, note_id: -1, velocity: bits(0.5) });
    assert_eq!(
        translate_vst3_event(&ok, ne),
        Some(HostEvent::NoteOn { sample_offset: 5, channel: 3, key: 60, note: -1, velocity: bits(0.5) })
    );
    let wild_channel = vst3(5, Vst3EventBody::NoteOn { channel: -1, pitch: 60, note_id: 4, velocity: bits(0.5) });
    assert_eq!(translate_vst3_event(&wild_channel, ne), None);
    let bad_key = vst3(5, Vst3EventBody::NoteOn { channel: 0, pitch: 128, note_id: 4, velocity: bits(0.5) });
    assert_eq!(translate_vst3_event(&bad_key, ne), None);
}

#[test]
fn vst3_note_off_keeps_what_it_can() {
    let off = vst3(1, Vst3EventBody::NoteOff { channel: 20, pitch: -3, note_id: -7, velocity: bits(0.0) });
    assert_eq!(
        translate_vst3_event(&off, NoteExpressions::none()),
        Some(HostEvent::NoteOff { sample_offset: 1, channel: -1, key: -1, note: -1, velocity: bits(0.0) })
    );
    let exact = vst3(1, Vst3EventBody::NoteOff { channel: 15, pitch: 0, note_id: 9, velocity: bits(0.25) });
    assert_eq!(
        translate_vst3_event(&exact, NoteExpressions::none()),
        Some(HostEvent::NoteOff { sample_offset: 1, channel: 15, key: 0, note: 9, velocity: bits(0.25) })
    );
}

#[test]
fn vst3_poly_pressure_needs_pressure() {
    let p = vst3(2, Vst3EventBody::PolyPressure { channel: 1, pitch: 62, note_id: 3, pressure: bits(0.7) });
    assert_eq!(translate_vst3_event(&p, NoteExpressions::none()), None);
    assert_eq!(
        translate_vst3_event(&p, NoteExpressions::none().with_pressure()),
        Some(HostEvent::Expression { kind: NoteExpression::Pressure, sample_offset: 2, channel: 1, key: 62, note: 3, value: bits(0.7) })
    );
}

#[test]
fn vst3_expressions_need_a_note_id() {
    let ne = NoteExpressions::all();
    let without = vst3(0, Vst3EventBody::NoteExpressionValue { kind: Some(NoteExpression::Pan), note_id: -1, value: bits(0.5) });
    assert_eq!(translate_vst3_event(&without, ne), None);
    let with = vst3(0, Vst3EventBody::NoteExpressionValue { kind: Some(NoteExpression::Pan), note_id: 12, value: bits(0.5) });
    assert_eq!(
        translate_vst3_event(&with, ne),
        Some(HostEvent::Expression { kind: NoteExpression::Pan, sample_offset: 0, channel: -1, key: -1, note: 12, value: bits(0.5) })
    );
    assert_eq!(translate_vst3_event(&with, NoteExpressions::none().with_tuning()), None);
    let unknown = vst3(0, Vst3EventBody::NoteExpressionValue { kind: None, note_id: 12, value: bits(0.5) });
    assert_eq!(translate_vst3_event(&unknown, ne), None);
    assert_eq!(translate_vst3_event(&vst3(0, Vst3EventBody::Other), ne), None);
}

#[test]
fn vst3_iterator() {
    let mut none = vst3_events::EventIterator::new(None, NoteExpressions::all());
    assert_eq!(none.next(), None);
    let events = vec![
        vst3(0, Vst3EventBody::NoteOn { channel: -1, pitch: 60, note_id: 1, velocity: bits(1.0) }),
        vst3(1, Vst3EventBody::Other),
        vst3(2, Vst3EventBody::NoteOff { channel: 0, pitch: 60, note_id: 1, velocity: bits(0.0) }),
    ];
    let mut it = vst3_events::EventIterator::new(Some(events), NoteExpressions::all());
    assert_eq!(it.next(), Some(HostEvent::NoteOff { sample_offset: 2, channel: 0, key: 60, note: 1, velocity: bits(0.0) }));
    assert_eq!(it.next(), None);
    assert_eq!(it.next(), None);
}

#[test]
fn clap_walk_hands_out_each_taken_event_once_in_order() {
    let events = vec![
        ClapEvent::ParamValue { time: 0, param_id: 3, value: bits(0.5) },
        ClapEvent::NoteExpression { time: 1, kind: Some(NoteExpression::Pan), channel: 0, key: 60, note_id: 1, value: bits(0.0) },
        ClapEvent::NoteExpression { time: 2, kind: None, channel: 0, key: 60, note_id: 1, value: bits(0.0) },
        ClapEvent::Midi { time: 3, data: [0xE1, 0, 64] },
        ClapEvent::ParamMod { time: 4, param_id: 3, amount: bits(0.25) },
    ];
    let n = events.len();
    let mut it = clap_events::EventIterator::new(events, MidiCapabilities::none().with_pitch_bend(), NoteExpressions::none());
    let mut out = Vec::new();
    while let Some(e) = it.next() {
        out.push(e);
    }
    assert_eq!(
        out,
        vec![
            HostEvent::ParameterValue { sample_offset: 0, id: 3, value: bits(0.5) },
            HostEvent::Midi { message: MidiMessage::PitchBend { sample_offset: 3, channel: 1, bend: 8192 } },
            HostEvent::ParameterModulation { sample_offset: 4, id: 3, amount: bits(0.25) },
        ]
    );
    assert!(out.len() <= n);
    assert_eq!(it.next(), None);
}

#[test]
fn vst3_walk_from_the_middle_and_without_a_list() {
    let events = vec![
        vst3(0, Vst3EventBody::Other),
        vst3(5, Vst3EventBody::NoteOn { channel: 2, pitch: 61, note_id: 7, velocity: bits(0.5) }),
        vst3(6, Vst3EventBody::Other),
        vst3(9, Vst3EventBody::NoteOff { channel: 2, pitch: 61, note_id: 7, velocity: bits(0.0) }),
    ];
    let mut it = vst3_events::EventIterator::new(Some(events), NoteExpressions::none());
    let mut out = Vec::new();
    while let Some(e) = it.next() {
        out.push(e);
    }
    assert_eq!(
        out,
        vec![
            HostEvent::NoteOn { sample_offset: 5, channel: 2, key: 61, note: 7, velocity: bits(0.5) },
            HostEvent::NoteOff { sample_offset: 9, channel: 2, key: 61, note: 7, velocity: bits(0.0) },
        ]
    );
    assert_eq!(it.next(), None);
    let mut none = vst3_events::EventIterator::new(None, NoteExpressions::all());
    assert_eq!(none.next(), None);
    assert_eq!(none.next(), None);
}
