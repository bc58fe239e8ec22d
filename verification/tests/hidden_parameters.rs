use plinth_plugin::midi_capabilities::MidiCapabilities;
use plinth_plugin::parameters::{HiddenParameter, MidiParameter, MidiParameters, ParameterChange};

fn bits(x: f64) -> u64 {
    x.to_bits()
}

#[test]
fn ids_skip_user_ids_and_blocks_follow_the_documented_order() {
    let caps = MidiCapabilities::none().with_control_change(7).with_pitch_bend();
    let mut infos = vec![HiddenParameter { id: 1000, parameter: MidiParameter::PitchBend { channel: 9 } }];
    let midi = MidiParameters::new(&caps, &[1, 2, 5], &mut infos);
    assert_eq!(infos.len(), 1 + 32);
    assert_eq!(infos[0].id, 1000);
    assert_eq!(infos[1], HiddenParameter { id: 3, parameter: MidiParameter::PitchBend { channel: 0 } });
    assert_eq!(infos[2], HiddenParameter { id: 4, parameter: MidiParameter::PitchBend { channel: 1 } });
    assert_eq!(infos[3], HiddenParameter { id: 6, parameter: MidiParameter::PitchBend { channel: 2 } });
    assert_eq!(infos[16], HiddenParameter { id: 19, parameter: MidiParameter::PitchBend { channel: 15 } });
    assert_eq!(infos[17], HiddenParameter { id: 20, parameter: MidiParameter::ControlChange { channel: 0, controller: 7 } });
    assert_eq!(infos[32], HiddenParameter { id: 35, parameter: MidiParameter::ControlChange { channel: 15, controller: 7 } });
    assert_eq!(midi.parameter_id(&MidiParameter::PitchBend { channel: 2 }), Some(6));
    assert_eq!(midi.parameter_id(&MidiParameter::ControlChange { channel: 15, controller: 7 }), Some(35));
    assert_eq!(midi.parameter_id(&MidiParameter::ControlChange { channel: 0, controller: 8 }), None);
    assert_eq!(midi.parameter_id(&MidiParameter::ChannelPressure { channel: 0 }), None);
    assert_eq!(midi.parameter_id(&MidiParameter::PitchBend { channel: 16 }), None);
}

#[test]
fn every_message_type_gets_sixteen_parameters() {
    let caps = MidiCapabilities::none()
        .with_pitch_bend()
        .with_channel_pressure()
        .with_program_change()
        .with_poly_pressure()
        .with_control_change_range(1, 2);
    let mut infos = Vec::new();
    let midi = MidiParameters::new(&caps, &[], &mut infos);
    assert_eq!(infos.len(), 16 * 5);
    let ids: Vec<u32> = infos.iter().map(|p| p.id).collect();
    assert_eq!(ids, (1..=80).collect::<Vec<u32>>());
    assert_eq!(infos[16].parameter, MidiParameter::ChannelPressure { channel: 0 });
    assert_eq!(infos[32].parameter, MidiParameter::ProgramChange { channel: 0 });
    assert_eq!(infos[48].parameter, MidiParameter::ControlChange { channel: 0, controller: 1 });
    assert_eq!(infos[64].parameter, MidiParameter::ControlChange { channel: 0, controller: 2 });
    for info in &infos {
        assert_eq!(midi.parameter_id(&info.parameter), Some(info.id));
    }
}

#[test]
fn nothing_enabled_registers_nothing() {
    let mut infos = Vec::new();
    let midi = MidiParameters::new(&MidiCapabilities::none(), &[1, 2, 3], &mut infos);
    assert!(infos.is_empty());
    assert_eq!(midi.parameter_id(&MidiParameter::PitchBend { channel: 0 }), None);
    assert_eq!(
        midi.parameter_change_to_event(1, bits(0.5), 0),
        ParameterChange::ParameterValue { sample_offset: 0, id: 1, value: bits(0.5) }
    );
}

#[test]
fn changes_of_hidden_parameters_become_midi() {
    let caps = MidiCapabilities::none()
        .with_pitch_bend()
        .with_channel_pressure()
        .with_program_change()
        .with_control_change(74);
    let mut infos = Vec::new();
    let midi = MidiParameters::new(&caps, &[2], &mut infos);
    // ids: pitch bend 1, 3..=17; channel pressure 18..=33; program change 34..=49; CC 74 50..=65
    assert_eq!(
        midi.parameter_change_to_event(1, bits(0.75), 5),
        ParameterChange::MidiPitchBend { sample_offset: 5, channel: 0, normalized: bits(0.75) }
    );
    assert_eq!(
        midi.parameter_change_to_event(3, bits(0.25), 5),
        ParameterChange::MidiPitchBend { sample_offset: 5, channel: 1, normalized: bits(0.25) }
    );
    assert_eq!(
        midi.parameter_change_to_event(18, bits(0.5), 6),
        ParameterChange::MidiChannelPressure { sample_offset: 6, channel: 0, value: bits(0.5) }
    );
    assert_eq!(
        midi.parameter_change_to_event(49, bits(1.0), 7),
        ParameterChange::MidiProgramChange { sample_offset: 7, channel: 15, normalized: bits(1.0) }
    );
    assert_eq!(
        midi.parameter_change_to_event(51, bits(0.1), 8),
        ParameterChange::MidiControlChange { sample_offset: 8, channel: 1, controller: 74, value: bits(0.1) }
    );
    assert_eq!(
        midi.parameter_change_to_event(2, bits(0.3), 9),
        ParameterChange::ParameterValue { sample_offset: 9, id: 2, value: bits(0.3) }
    );
    assert_eq!(
        midi.parameter_change_to_event(66, bits(0.3), 9),
        ParameterChange::ParameterValue { sample_offset: 9, id: 66, value: bits(0.3) }
    );
}

#[test]
fn clear_forgets_everything() {
    let mut infos = Vec::new();
    let mut midi = MidiParameters::new(&MidiCapabilities::none().with_pitch_bend(), &[], &mut infos);
    assert_eq!(midi.parameter_id(&MidiParameter::PitchBend { channel: 0 }), Some(1));
    midi.clear();
    assert_eq!(midi.parameter_id(&MidiParameter::PitchBend { channel: 0 }), None);
    assert_eq!(
        midi.parameter_change_to_event(1, bits(0.0), 0),
        ParameterChange::ParameterValue { sample_offset: 0, id: 1, value: bits(0.0) }
    );
}

#[test]
fn parameter_keys_are_distinct() {
    let mut keys = Vec::new();
    for channel in 0..=255u8 {
        keys.push(MidiParameter::PitchBend { channel }.key());
        keys.push(MidiParameter::ChannelPressure { channel }.key());
        keys.push(MidiParameter::ProgramChange { channel }.key());
        for controller in [0u8, 1, 127, 255] {
            keys.push(MidiParameter::ControlChange { channel, controller }.key());
        }
    }
    let mut sorted = keys.clone();
    sorted.sort();
    sorted.dedup();
    assert_eq!(sorted.len(), keys.len());
}

#[test]
fn exactly_the_wanted_parameters_resolve_and_to_distinct_ids() {
    let caps = MidiCapabilities::none().with_channel_pressure().with_control_change(64);
    let mut infos = Vec::new();
    let midi = MidiParameters::new(&caps, &[2, 3], &mut infos);
    let mut seen = Vec::new();
    for channel in 0..20u8 {
        for p in [
            MidiParameter::PitchBend { channel },
            MidiParameter::ChannelPressure { channel },
            MidiParameter::ProgramChange { channel },
            MidiParameter::ControlChange { channel, controller: 63 },
            MidiParameter::ControlChange { channel, controller: 64 },
        ] {
            let wanted = channel < 16
                && matches!(p, MidiParameter::ChannelPressure { .. } | MidiParameter::ControlChange { controller: 64, .. });
            let id = midi.parameter_id(&p);
            assert_eq!(id.is_some(), wanted);
            if let Some(id) = id {
                assert!(id >= 1 && id != 2 && id != 3);
                assert!(!seen.contains(&id));
                seen.push(id);
            }
        }
    }
    assert_eq!(seen.len(), 32);
}
