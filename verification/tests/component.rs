use plinth_plugin::component::{
    bus_arrangements_supported, bus_count, bus_info, midi_controller_assignment, note_expression_count,
    number_characters, offered_note_expression, parameter_flags, physical_ui_mapping, process_mode_for_io_mode,
    tail_samples, BusDescription, ControllerAssignment, CTRL_AFTER_TOUCH, CTRL_PITCH_BEND, CTRL_PROGRAM_CHANGE,
    DIRECTION_INPUT, INFINITE_TAIL, IO_MODE_ADVANCED, IO_MODE_OFFLINE_PROCESSING, IO_MODE_SIMPLE, MEDIA_AUDIO,
    MEDIA_EVENT, NO_TAIL, PARAMETER_CAN_AUTOMATE, PARAMETER_IS_BYPASS, PARAMETER_IS_HIDDEN, PUI_PRESSURE,
    PUI_X_MOVEMENT, PUI_Y_MOVEMENT, SPEAKER_STEREO, check_parameters, process_action, ParameterSetError,
    ProcessAction, SAMPLE_32,
};
use plinth_plugin::midi_capabilities::MidiCapabilities;
use plinth_plugin::note_expressions::{NoteExpression, NoteExpressions};
use plinth_plugin::parameters::{MidiParameters, ParameterChange};
use plinth_plugin::processor::{ProcessMode, ProcessState};
use plinth_plugin::standalone::port_selected;

use vst3::Steinberg::Vst;

#[test]
fn constants_agree_with_the_vst3_bindings() {
    assert_eq!(CTRL_AFTER_TOUCH as i64, Vst::ControllerNumbers_::kAfterTouch as i64);
    assert_eq!(CTRL_PITCH_BEND as i64, Vst::ControllerNumbers_::kPitchBend as i64);
    assert_eq!(CTRL_PROGRAM_CHANGE as i64, Vst::ControllerNumbers_::kCtrlProgramChange as i64);
    assert_eq!(PUI_X_MOVEMENT as i64, Vst::PhysicalUITypeIDs_::kPUIXMovement as i64);
    assert_eq!(PUI_Y_MOVEMENT as i64, Vst::PhysicalUITypeIDs_::kPUIYMovement as i64);
    assert_eq!(PUI_PRESSURE as i64, Vst::PhysicalUITypeIDs_::kPUIPressure as i64);
    assert_eq!(MEDIA_AUDIO as i64, Vst::MediaTypes_::kAudio as i64);
    assert_eq!(MEDIA_EVENT as i64, Vst::MediaTypes_::kEvent as i64);
    assert_eq!(DIRECTION_INPUT as i64, Vst::BusDirections_::kInput as i64);
    assert_eq!(IO_MODE_SIMPLE as i64, Vst::IoModes_::kSimple as i64);
    assert_eq!(IO_MODE_ADVANCED as i64, Vst::IoModes_::kAdvanced as i64);
    assert_eq!(IO_MODE_OFFLINE_PROCESSING as i64, Vst::IoModes_::kOfflineProcessing as i64);
    assert_eq!(SPEAKER_STEREO, Vst::SpeakerArr::kStereo);
    assert_eq!(PARAMETER_CAN_AUTOMATE as i64, Vst::ParameterInfo_::ParameterFlags_::kCanAutomate as i64);
    assert_eq!(PARAMETER_IS_HIDDEN as i64, Vst::ParameterInfo_::ParameterFlags_::kIsHidden as i64);
    assert_eq!(PARAMETER_IS_BYPASS as i64, Vst::ParameterInfo_::ParameterFlags_::kIsBypass as i64);
    assert_eq!(NO_TAIL, Vst::kNoTail);
    assert_eq!(INFINITE_TAIL, Vst::kInfiniteTail);
}

fn midi_parameters() -> MidiParameters {
    let caps = MidiCapabilities::none().with_pitch_bend().with_channel_pressure().with_program_change().with_control_change(11);
    let mut infos = Vec::new();
    MidiParameters::new(&caps, &[], &mut infos)
}

#[test]
fn controller_assignments() {
    let midi = midi_parameters();
    // pitch bend 1..=16, channel pressure 17..=32, program change 33..=48, CC 11 49..=64
    assert_eq!(midi_controller_assignment(&midi, 0, 0, CTRL_PITCH_BEND), ControllerAssignment::Assigned(1));
    assert_eq!(midi_controller_assignment(&midi, 0, 15, CTRL_PITCH_BEND), ControllerAssignment::Assigned(16));
    assert_eq!(midi_controller_assignment(&midi, 0, 1, CTRL_AFTER_TOUCH), ControllerAssignment::Assigned(18));
    assert_eq!(midi_controller_assignment(&midi, 0, 2, CTRL_PROGRAM_CHANGE), ControllerAssignment::Assigned(35));
    assert_eq!(midi_controller_assignment(&midi, 0, 3, 11), ControllerAssignment::Assigned(52));
    assert_eq!(midi_controller_assignment(&midi, 0, 3, 12), ControllerAssignment::NotAssigned);
    assert_eq!(midi_controller_assignment(&midi, 0, 3, 200), ControllerAssignment::NotAssigned);
    assert_eq!(midi_controller_assignment(&midi, 0, 3, -5), ControllerAssignment::NotAssigned);
    assert_eq!(midi_controller_assignment(&midi, 0, 16, 11), ControllerAssignment::InvalidArgument);
    assert_eq!(midi_controller_assignment(&midi, 0, -1, 11), ControllerAssignment::InvalidArgument);
    assert_eq!(midi_controller_assignment(&midi, 1, 16, 11), ControllerAssignment::NotAssigned);
}

#[test]
fn assigned_controllers_turn_back_into_their_messages() {
    let midi = midi_parameters();
    for channel in 0..16i16 {
        let ControllerAssignment::Assigned(id) = midi_controller_assignment(&midi, 0, channel, 11) else {
            panic!("CC 11 is enabled");
        };
        assert_eq!(
            midi.parameter_change_to_event(id, 7, 1),
            ParameterChange::MidiControlChange { sample_offset: 1, channel: channel as u8, controller: 11, value: 7 }
        );
        let ControllerAssignment::Assigned(id) = midi_controller_assignment(&midi, 0, channel, CTRL_PITCH_BEND) else {
            panic!("pitch bend is enabled");
        };
        assert_eq!(
            midi.parameter_change_to_event(id, 7, 1),
            ParameterChange::MidiPitchBend { sample_offset: 1, channel: channel as u8, normalized: 7 }
        );
    }
}

#[test]
fn note_expression_listing() {
    let ne = NoteExpressions::none().with_pan().with_brightness().with_pressure();
    assert_eq!(note_expression_count(ne, 0, 0), 2);
    assert_eq!(note_expression_count(NoteExpressions::all(), 0, 15), 6);
    assert_eq!(note_expression_count(NoteExpressions::all(), 1, 0), 0);
    assert_eq!(note_expression_count(NoteExpressions::all(), 0, 16), 0);
    assert_eq!(offered_note_expression(ne, 0), Some(NoteExpression::Pan));
    assert_eq!(offered_note_expression(ne, 1), Some(NoteExpression::Brightness));
    assert_eq!(offered_note_expression(ne, 2), None);
    assert_eq!(offered_note_expression(ne, -1), None);
    assert_eq!(offered_note_expression(NoteExpressions::all(), 5), Some(NoteExpression::Brightness));
    assert_eq!(offered_note_expression(NoteExpressions::none().with_pressure(), 0), None);
}

#[test]
fn physical_gestures() {
    let ne = NoteExpressions::none().with_tuning();
    assert_eq!(physical_ui_mapping(ne, 0, 0, PUI_X_MOVEMENT), Ok(Some(NoteExpression::Tuning)));
    assert_eq!(physical_ui_mapping(ne, 0, 0, PUI_Y_MOVEMENT), Ok(None));
    assert_eq!(physical_ui_mapping(NoteExpressions::all(), 0, 0, PUI_Y_MOVEMENT), Ok(Some(NoteExpression::Brightness)));
    assert_eq!(physical_ui_mapping(NoteExpressions::all(), 0, 0, PUI_PRESSURE), Ok(None));
    assert_eq!(physical_ui_mapping(NoteExpressions::all(), 0, 0, 77), Ok(None));
    assert_eq!(physical_ui_mapping(NoteExpressions::all(), 2, 0, PUI_X_MOVEMENT), Err(()));
    assert_eq!(physical_ui_mapping(NoteExpressions::all(), 0, 16, PUI_X_MOVEMENT), Err(()));
}

#[test]
fn tails() {
    assert_eq!(tail_samples(ProcessState::Error), None);
    assert_eq!(tail_samples(ProcessState::Normal), Some(0));
    assert_eq!(tail_samples(ProcessState::Tail(0)), Some(0));
    assert_eq!(tail_samples(ProcessState::Tail(4410)), Some(4410));
    assert_eq!(tail_samples(ProcessState::KeepAlive), Some(u32::MAX));
}

#[test]
fn io_modes() {
    assert_eq!(process_mode_for_io_mode(IO_MODE_SIMPLE), Some(ProcessMode::Realtime));
    assert_eq!(process_mode_for_io_mode(IO_MODE_ADVANCED), Some(ProcessMode::Realtime));
    assert_eq!(process_mode_for_io_mode(IO_MODE_OFFLINE_PROCESSING), Some(ProcessMode::Offline));
    assert_eq!(process_mode_for_io_mode(3), None);
    assert_eq!(ProcessMode::default(), ProcessMode::Realtime);
}

#[test]
fn buses() {
    assert_eq!(bus_count(true, MEDIA_AUDIO, DIRECTION_INPUT), 2);
    assert_eq!(bus_count(true, MEDIA_AUDIO, 1), 1);
    assert_eq!(bus_count(true, MEDIA_EVENT, DIRECTION_INPUT), 1);
    assert_eq!(bus_count(false, MEDIA_AUDIO, DIRECTION_INPUT), 1);
    assert_eq!(bus_info(true, MEDIA_AUDIO, DIRECTION_INPUT, 1), Some(BusDescription { is_main: false, channel_count: 2 }));
    assert_eq!(bus_info(false, MEDIA_AUDIO, DIRECTION_INPUT, 1), None);
    assert_eq!(bus_info(false, MEDIA_AUDIO, 1, 0), Some(BusDescription { is_main: true, channel_count: 2 }));
    assert_eq!(bus_info(false, MEDIA_EVENT, DIRECTION_INPUT, 0), Some(BusDescription { is_main: true, channel_count: 16 }));
    assert_eq!(bus_info(false, 5, DIRECTION_INPUT, 0), None);
}

#[test]
fn bus_arrangements() {
    let stereo = SPEAKER_STEREO;
    assert!(bus_arrangements_supported(false, 1, 1, &[stereo], &[stereo]));
    assert!(!bus_arrangements_supported(false, 1, 1, &[1], &[stereo]));
    assert!(!bus_arrangements_supported(false, 1, 1, &[stereo], &[1]));
    assert!(!bus_arrangements_supported(false, 2, 1, &[], &[]));
    assert!(!bus_arrangements_supported(false, 1, 2, &[], &[]));
    assert!(bus_arrangements_supported(true, 2, 1, &[stereo, stereo], &[stereo]));
    assert!(!bus_arrangements_supported(true, 2, 1, &[stereo, 1], &[stereo]));
    assert!(!bus_arrangements_supported(true, 1, 1, &[], &[]));
}

#[test]
fn flags() {
    assert_eq!(parameter_flags(true, false), 65536 | 1);
    assert_eq!(parameter_flags(true, true), 65537);
    assert_eq!(parameter_flags(false, false), 16);
    assert_eq!(parameter_flags(false, true), 1);
}

#[test]
fn typed_numbers_keep_only_number_characters() {
    let text: Vec<char> = "+12.5 st".chars().collect();
    assert_eq!(number_characters(&text).iter().collect::<String>(), "+12.5");
    let text: Vec<char> = "-45.0 %".chars().collect();
    assert_eq!(number_characters(&text).iter().collect::<String>(), "-45.0");
    let text: Vec<char> = "abc".chars().collect();
    assert!(number_characters(&text).is_empty());
}

#[test]
fn midi_ports() {
    let name = String::from("Keys");
    assert!(port_selected(&None, &name));
    assert!(port_selected(&Some(vec![String::from("Pads"), String::from("Keys")]), &name));
    assert!(!port_selected(&Some(vec![String::from("Pads")]), &name));
    assert!(!port_selected(&Some(vec![]), &name));
}

#[test]
fn sample_size_constant_matches_vst3() {
    assert_eq!(SAMPLE_32 as i64, Vst::SymbolicSampleSizes_::kSample32 as i64);
    assert_ne!(SAMPLE_32 as i64, Vst::SymbolicSampleSizes_::kSample64 as i64);
}

#[test]
fn process_decisions() {
    let s64 = Vst::SymbolicSampleSizes_::kSample64 as i32;
    // An audio block of 32-bit samples with a processor ready is processed.
    assert_eq!(process_action(true, true, 1, 64, SAMPLE_32, true, true), ProcessAction::Audio);
    // 64-bit samples are refused, before anything else is looked at.
    assert_eq!(process_action(true, true, 1, 64, s64, false, false), ProcessAction::Refuse);
    // A call without samples, inputs or buffers only carries events, whatever the sample size.
    assert_eq!(process_action(true, true, 1, 0, s64, true, true), ProcessAction::EventsOnly);
    assert_eq!(process_action(true, true, 0, 64, s64, true, true), ProcessAction::EventsOnly);
    assert_eq!(process_action(false, true, 1, 64, s64, true, true), ProcessAction::EventsOnly);
    assert_eq!(process_action(true, false, 1, 64, SAMPLE_32, true, true), ProcessAction::EventsOnly);
    // A busy processor lock gives silence, for audio blocks and event-only calls alike.
    assert_eq!(process_action(true, true, 1, 64, SAMPLE_32, false, true), ProcessAction::Silence);
    assert_eq!(process_action(true, true, 1, 0, SAMPLE_32, false, false), ProcessAction::Silence);
    // No processor set up: refused.
    assert_eq!(process_action(true, true, 1, 64, SAMPLE_32, true, false), ProcessAction::Refuse);
    assert_eq!(process_action(true, true, 1, 0, SAMPLE_32, true, false), ProcessAction::Refuse);
}

#[test]
fn parameter_checks() {
    assert_eq!(check_parameters(&[], &[]), Ok(()));
    assert_eq!(check_parameters(&[1, 2, 3], &[false, true, false]), Ok(()));
    assert_eq!(check_parameters(&[1, 2, 1], &[false, false, false]), Err(ParameterSetError::DuplicateIds));
    assert_eq!(check_parameters(&[4, 4], &[true, true]), Err(ParameterSetError::DuplicateIds));
    assert_eq!(check_parameters(&[1, 2, 3], &[true, false, true]), Err(ParameterSetError::MoreThanOneBypass));
}
