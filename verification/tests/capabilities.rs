use plinth_plugin::midi_capabilities::{MidiCapabilities, MIDI_CHANNEL_COUNT, MIDI_CONTROLLER_COUNT};
use plinth_plugin::note_expressions::{NoteExpression, NoteExpressions};

#[test]
fn none_enables_nothing() {
    let caps = MidiCapabilities::none();
    assert!(caps.is_empty());
    assert!(!caps.midi_pitch_bend());
    assert!(!caps.midi_channel_pressure());
    assert!(!caps.midi_poly_pressure());
    assert!(!caps.midi_program_change());
    assert_eq!(caps.midi_control_change_count(), 0);
    assert!(caps.midi_control_changes().is_empty());
    for cc in 0..=255u8 {
        assert!(!caps.has_midi_control_change(cc));
    }
}

#[test]
fn default_capabilities_are_none() {
    assert_eq!(MidiCapabilities::default(), MidiCapabilities::none());
}

#[test]
fn counts_are_the_documented_ones() {
    assert_eq!(MIDI_CHANNEL_COUNT, 16);
    assert_eq!(MIDI_CONTROLLER_COUNT, 128);
}

#[test]
fn each_flag_builder_sets_one_flag() {
    let pb = MidiCapabilities::none().with_pitch_bend();
    assert!(pb.midi_pitch_bend() && !pb.midi_channel_pressure() && !pb.midi_poly_pressure() && !pb.midi_program_change());
    assert!(!pb.is_empty());
    let cp = MidiCapabilities::none().with_channel_pressure();
    assert!(cp.midi_channel_pressure() && !cp.midi_pitch_bend() && !cp.midi_poly_pressure() && !cp.midi_program_change());
    let pp = MidiCapabilities::none().with_poly_pressure();
    assert!(pp.midi_poly_pressure() && !pp.midi_pitch_bend() && !pp.midi_channel_pressure() && !pp.midi_program_change());
    assert!(!pp.is_empty());
    let pc = MidiCapabilities::none().with_program_change();
    assert!(pc.midi_program_change() && !pc.midi_pitch_bend() && !pc.midi_channel_pressure() && !pc.midi_poly_pressure());
    assert_eq!(pc.midi_control_change_count(), 0);
}

#[test]
fn control_change_is_enabled_alone() {
    let caps = MidiCapabilities::none().with_control_change(1);
    assert!(caps.has_midi_control_change(1));
    assert!(!caps.has_midi_control_change(0));
    assert!(!caps.has_midi_control_change(2));
    assert_eq!(caps.midi_control_change_count(), 1);
    assert_eq!(caps.midi_control_changes(), vec![1]);
    assert!(!caps.is_empty());
}

#[test]
fn highest_and_lowest_control_change() {
    let caps = MidiCapabilities::none().with_control_change(0).with_control_change(127);
    assert!(caps.has_midi_control_change(0));
    assert!(caps.has_midi_control_change(127));
    assert!(!caps.has_midi_control_change(128));
    assert!(!caps.has_midi_control_change(255));
    assert_eq!(caps.midi_control_change_count(), 2);
    assert_eq!(caps.midi_control_changes(), vec![0, 127]);
}

#[test]
fn documented_example_declaration() {
    let caps = MidiCapabilities::none()
        .with_pitch_bend()
        .with_channel_pressure()
        .with_control_change(1)
        .with_control_change_range(20, 31);
    assert!(caps.midi_pitch_bend());
    assert!(caps.midi_channel_pressure());
    assert!(!caps.midi_program_change());
    let mut expected = vec![1u8];
    expected.extend(20u8..=31);
    assert_eq!(caps.midi_control_changes(), expected);
    assert_eq!(caps.midi_control_change_count(), 13);
}

#[test]
fn range_of_one_and_full_range() {
    let one = MidiCapabilities::none().with_control_change_range(64, 64);
    assert_eq!(one.midi_control_changes(), vec![64]);
    let all = MidiCapabilities::none().with_control_change_range(0, 127);
    assert_eq!(all.midi_control_change_count(), 128);
    assert_eq!(all.midi_control_changes(), (0u8..=127).collect::<Vec<_>>());
}

#[test]
fn range_equals_single_enables() {
    let by_range = MidiCapabilities::none().with_control_change_range(5, 9);
    let mut one_by_one = MidiCapabilities::none();
    for cc in 5..=9 {
        one_by_one = one_by_one.with_control_change(cc);
    }
    assert_eq!(by_range, one_by_one);
}

#[test]
fn builders_commute_and_repeat_harmlessly() {
    let a = MidiCapabilities::none().with_pitch_bend().with_control_change(7).with_program_change();
    let b = MidiCapabilities::none().with_program_change().with_control_change(7).with_pitch_bend();
    assert_eq!(a, b);
    assert_eq!(a, a.with_control_change(7).with_pitch_bend());
}

#[test]
fn count_matches_listed_numbers() {
    let caps = MidiCapabilities::none().with_control_change(3).with_control_change_range(100, 120).with_control_change(64);
    assert_eq!(caps.midi_control_change_count() as usize, caps.midi_control_changes().len());
    let listed = caps.midi_control_changes();
    assert!(listed.windows(2).all(|w| w[0] < w[1]));
    for cc in 0..=255u8 {
        assert_eq!(listed.contains(&cc), caps.has_midi_control_change(cc));
    }
}

#[test]
fn note_expressions_default_subset() {
    let ne = NoteExpressions::default();
    assert!(ne.volume() && ne.pan() && ne.tuning() && ne.brightness() && ne.pressure());
    assert!(!ne.vibrato() && !ne.expression());
    assert_eq!(
        ne,
        NoteExpressions::none().with_volume().with_pan().with_tuning().with_brightness().with_pressure()
    );
}

#[test]
fn note_expressions_none_and_all() {
    let none = NoteExpressions::none();
    assert!(none.is_empty());
    let all = NoteExpressions::all();
    assert!(!all.is_empty());
    assert_eq!(
        all,
        NoteExpressions::none()
            .with_volume()
            .with_pan()
            .with_tuning()
            .with_vibrato()
            .with_expression()
            .with_brightness()
            .with_pressure()
    );
    for kind in [
        NoteExpression::Volume,
        NoteExpression::Pan,
        NoteExpression::Tuning,
        NoteExpression::Vibrato,
        NoteExpression::Expression,
        NoteExpression::Brightness,
        NoteExpression::Pressure,
    ] {
        assert!(all.enables(kind));
        assert!(!none.enables(kind));
    }
}

#[test]
fn note_expression_builders_set_one_dimension() {
    let v = NoteExpressions::none().with_vibrato();
    assert!(v.vibrato() && !v.volume() && !v.pan() && !v.tuning() && !v.expression() && !v.brightness() && !v.pressure());
    assert!(!v.is_empty());
    assert!(v.enables(NoteExpression::Vibrato));
    assert!(!v.enables(NoteExpression::Pressure));
    let e = NoteExpressions::none().with_expression();
    assert!(e.expression() && !e.vibrato());
    assert!(e.enables(NoteExpression::Expression));
}
