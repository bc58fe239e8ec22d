//! The decisions a VST3 component makes when the host asks about buses, MIDI controller
//! assignments, note expressions and the tail of the processed audio.
use vstd::prelude::*;

use crate::event::ParameterId;
use crate::note_expressions::{NoteExpression, NoteExpressions, NoteExpressionsView};
use crate::parameters::{MidiParameter, MidiParameters};
use crate::processor::{ProcessMode, ProcessState};

verus! {

/// VST3 `ControllerNumbers::kAfterTouch`: channel pressure.
pub const CTRL_AFTER_TOUCH: i16 = 128;

/// VST3 `ControllerNumbers::kPitchBend`.
pub const CTRL_PITCH_BEND: i16 = 129;

/// VST3 `ControllerNumbers::kCtrlProgramChange`.
pub const CTRL_PROGRAM_CHANGE: i16 = 130;

/// VST3 `PhysicalUITypeIDs::kPUIXMovement`: sliding left and right.
pub const PUI_X_MOVEMENT: u32 = 0;

/// VST3 `PhysicalUITypeIDs::kPUIYMovement`: sliding up and down.
pub const PUI_Y_MOVEMENT: u32 = 1;

/// VST3 `PhysicalUITypeIDs::kPUIPressure`.
pub const PUI_PRESSURE: u32 = 2;

/// VST3 `MediaTypes::kAudio`.
pub const MEDIA_AUDIO: i32 = 0;

/// VST3 `MediaTypes::kEvent`.
pub const MEDIA_EVENT: i32 = 1;

/// VST3 `BusDirections::kInput`.
pub const DIRECTION_INPUT: i32 = 0;

/// VST3 `IoModes::kSimple`.
pub const IO_MODE_SIMPLE: i32 = 0;

/// VST3 `IoModes::kAdvanced`.
pub const IO_MODE_ADVANCED: i32 = 1;

/// VST3 `IoModes::kOfflineProcessing`.
pub const IO_MODE_OFFLINE_PROCESSING: i32 = 2;

/// VST3 `SpeakerArr::kStereo`.
pub const SPEAKER_STEREO: u64 = 3;

/// VST3 `ParameterFlags::kCanAutomate`.
pub const PARAMETER_CAN_AUTOMATE: i32 = 1;

/// VST3 `ParameterFlags::kIsHidden`.
pub const PARAMETER_IS_HIDDEN: i32 = 16;

/// VST3 `ParameterFlags::kIsBypass`.
pub const PARAMETER_IS_BYPASS: i32 = 65536;

/// VST3 `kNoTail`.
pub const NO_TAIL: u32 = 0;

/// VST3 `kInfiniteTail`.
pub const INFINITE_TAIL: u32 = 4294967295;

/// The answer to a request about a MIDI controller.
#[derive(Clone, Copy, Debug, PartialEq, Eq, Structural)]
pub enum ControllerAssignment {
    /// The controller is assigned to this hidden parameter (`kResultTrue`).
    Assigned(ParameterId),
    /// The controller is not assigned (`kResultFalse`).
    NotAssigned,
    /// The channel is out of range (`kInvalidArgument`).
    InvalidArgument,
}

/// The hidden parameter that stands for MIDI controller `controller` on `channel`, if any:
/// pitch bend, aftertouch and program change have their own controller numbers, and
/// 0..=127 are the CC numbers.
pub open spec fn controller_parameter(channel: u8, controller: i16) -> Option<MidiParameter> {
    if controller == CTRL_PITCH_BEND {
        Some(MidiParameter::PitchBend { channel })
    } else if controller == CTRL_AFTER_TOUCH {
        Some(MidiParameter::ChannelPressure { channel })
    } else if controller == CTRL_PROGRAM_CHANGE {
        Some(MidiParameter::ProgramChange { channel })
    } else if 0 <= controller < 128 {
        Some(MidiParameter::ControlChange { channel, controller: controller as u8 })
    } else {
        None
    }
}

/// The controller numbers of VST3: every CC number `0..=127` stands for that control
/// change, 128 for channel pressure (aftertouch), 129 for pitch bend and 130 for program
/// change; no other number stands for anything.
pub proof fn lemma_controller_numbers(channel: u8, controller: i16)
    ensures
        0 <= controller <= 127 ==> controller_parameter(channel, controller) == Some(
            MidiParameter::ControlChange { channel, controller: controller as u8 },
        ),
        controller == 128 ==> controller_parameter(channel, controller) == Some(
            MidiParameter::ChannelPressure { channel },
        ),
        controller == 129 ==> controller_parameter(channel, controller) == Some(MidiParameter::PitchBend { channel }),
        controller == 130 ==> controller_parameter(channel, controller) == Some(
            MidiParameter::ProgramChange { channel },
        ),
        (controller < 0 || controller > 130) ==> controller_parameter(channel, controller) is None,
{
}

/// Which hidden parameter MIDI controller `controller` of `channel` on event bus
/// `bus_index` is assigned to. Only bus 0 and channels 0..16 exist.
pub fn midi_controller_assignment(midi_parameters: &MidiParameters, bus_index: i32, channel: i16, controller: i16) -> (r: ControllerAssignment)
    ensures
        r == (if bus_index != 0 {
            ControllerAssignment::NotAssigned
        } else if !(0 <= channel < 16) {
            ControllerAssignment::InvalidArgument
        } else {
            match controller_parameter(channel as u8, controller) {
                Some(p) => if midi_parameters.by_key().contains_key(p.spec_key()) {
                    ControllerAssignment::Assigned(midi_parameters.by_key()[p.spec_key()])
                } else {
                    ControllerAssignment::NotAssigned
                },
                None => ControllerAssignment::NotAssigned,
            }
        }),
        bus_index == 0 && 0 <= channel < 16 && 0 <= controller < 128 ==> {
            let key = (MidiParameter::ControlChange { channel: channel as u8, controller: controller as u8 }).spec_key();
            r == (if midi_parameters.by_key().contains_key(key) {
                ControllerAssignment::Assigned(midi_parameters.by_key()[key])
            } else {
                ControllerAssignment::NotAssigned
            })
        },
{
    proof {
        lemma_controller_numbers(channel as u8, controller);
    }
    if bus_index != 0 {
        return ControllerAssignment::NotAssigned;
    }
    if !(0 <= channel && channel < 16) {
        return ControllerAssignment::InvalidArgument;
    }
    let channel = channel as u8;
    let parameter = if controller == CTRL_PITCH_BEND {
        MidiParameter::PitchBend { channel }
    } else if controller == CTRL_AFTER_TOUCH {
        MidiParameter::ChannelPressure { channel }
    } else if controller == CTRL_PROGRAM_CHANGE {
        MidiParameter::ProgramChange { channel }
    } else if 0 <= controller && controller < 128 {
        MidiParameter::ControlChange { channel, controller: controller as u8 }
    } else {
        return ControllerAssignment::NotAssigned;
    };
    match midi_parameters.parameter_id(&parameter) {
        Some(id) => ControllerAssignment::Assigned(id),
        None => ControllerAssignment::NotAssigned,
    }
}

/// The note expressions offered through VST3's note expression interface, in the order
/// they are listed: pressure is left out, as VST3 delivers it as poly pressure events.
pub open spec fn offered_note_expressions(ne: NoteExpressionsView) -> Seq<NoteExpression> {
    seq![
        NoteExpression::Volume,
        NoteExpression::Pan,
        NoteExpression::Tuning,
        NoteExpression::Vibrato,
        NoteExpression::Expression,
        NoteExpression::Brightness,
    ].filter(|k: NoteExpression| ne.enables(k))
}

/// `k` alone when `b` holds, else nothing.
pub open spec fn listed_if(b: bool, k: NoteExpression) -> Seq<NoteExpression> {
    if b {
        seq![k]
    } else {
        Seq::empty()
    }
}

/// Filtering a sequence with one more item at the end adds that item when it passes.
proof fn lemma_filter_step(s: Seq<NoteExpression>, k: NoteExpression, pred: spec_fn(NoteExpression) -> bool)
    ensures
        s.push(k).filter(pred) == s.filter(pred) + listed_if(pred(k), k),
{
    s.lemma_filter_push(k, pred);
    assert(s.filter(pred).push(k) =~= s.filter(pred) + seq![k]);
    assert(s.filter(pred) =~= s.filter(pred) + Seq::<NoteExpression>::empty());
}

/// The note expressions VST3 lists are the enabled ones among volume, pan, tuning,
/// vibrato, expression and brightness, in that order; pressure is never listed, as VST3
/// delivers it as poly pressure events.
pub proof fn lemma_offered_note_expressions(ne: NoteExpressionsView)
    ensures
        offered_note_expressions(ne) == listed_if(ne.volume, NoteExpression::Volume) + listed_if(
            ne.pan,
            NoteExpression::Pan,
        ) + listed_if(ne.tuning, NoteExpression::Tuning) + listed_if(ne.vibrato, NoteExpression::Vibrato)
            + listed_if(ne.expression, NoteExpression::Expression) + listed_if(
            ne.brightness,
            NoteExpression::Brightness,
        ),
{
    let pred = |k: NoteExpression| ne.enables(k);
    let s0 = Seq::<NoteExpression>::empty();
    let s1 = s0.push(NoteExpression::Volume);
    let s2 = s1.push(NoteExpression::Pan);
    let s3 = s2.push(NoteExpression::Tuning);
    let s4 = s3.push(NoteExpression::Vibrato);
    let s5 = s4.push(NoteExpression::Expression);
    let s6 = s5.push(NoteExpression::Brightness);
    assert(s6 =~= seq![
        NoteExpression::Volume,
        NoteExpression::Pan,
        NoteExpression::Tuning,
        NoteExpression::Vibrato,
        NoteExpression::Expression,
        NoteExpression::Brightness,
    ]);
    assert(s0.filter(pred) =~= Seq::<NoteExpression>::empty()) by {
        reveal_with_fuel(Seq::filter, 1);
    }
    lemma_filter_step(s0, NoteExpression::Volume, pred);
    lemma_filter_step(s1, NoteExpression::Pan, pred);
    lemma_filter_step(s2, NoteExpression::Tuning, pred);
    lemma_filter_step(s3, NoteExpression::Vibrato, pred);
    lemma_filter_step(s4, NoteExpression::Expression, pred);
    lemma_filter_step(s5, NoteExpression::Brightness, pred);
    let l1 = listed_if(ne.volume, NoteExpression::Volume);
    let l2 = listed_if(ne.pan, NoteExpression::Pan);
    let l3 = listed_if(ne.tuning, NoteExpression::Tuning);
    let l4 = listed_if(ne.vibrato, NoteExpression::Vibrato);
    let l5 = listed_if(ne.expression, NoteExpression::Expression);
    let l6 = listed_if(ne.brightness, NoteExpression::Brightness);
    assert(s0.filter(pred) + l1 =~= l1);
    assert(s1.filter(pred) == l1);
    assert(s2.filter(pred) == l1 + l2);
    assert(s3.filter(pred) == l1 + l2 + l3);
    assert(s4.filter(pred) == l1 + l2 + l3 + l4);
    assert(s5.filter(pred) == l1 + l2 + l3 + l4 + l5);
    assert(s6.filter(pred) == l1 + l2 + l3 + l4 + l5 + l6);
    let r = offered_note_expressions(ne);
    assert(pred =~= (|k: NoteExpression| ne.enables(k)));
    assert(r == s6.filter(pred));
}

/// How many note expressions channel `channel` of event bus `bus_index` offers: the
/// enabled ones but pressure on bus 0, channels 0..16; none elsewhere.
pub fn note_expression_count(note_expressions: NoteExpressions, bus_index: i32, channel: i16) -> (r: i32)
    ensures
        r == (if bus_index == 0 && 0 <= channel < 16 {
            offered_note_expressions(note_expressions@).len() as i32
        } else {
            0
        }),
{
    if bus_index == 0 && 0 <= channel && channel < 16 {
        let r = note_expressions.volume() as i32 + note_expressions.pan() as i32
            + note_expressions.tuning() as i32 + note_expressions.vibrato() as i32
            + note_expressions.expression() as i32 + note_expressions.brightness() as i32;
        proof {
            reveal_with_fuel(Seq::filter, 7);
        }
        r
    } else {
        0
    }
}

/// The note expression listed at `index`, if there is one.
pub fn offered_note_expression(note_expressions: NoteExpressions, index: i32) -> (r: Option<NoteExpression>)
    ensures
        r == (if 0 <= index < offered_note_expressions(note_expressions@).len() {
            Some(offered_note_expressions(note_expressions@)[index as int])
        } else {
            None
        }),
{
    if index < 0 {
        return None;
    }
    let all = [
        NoteExpression::Volume,
        NoteExpression::Pan,
        NoteExpression::Tuning,
        NoteExpression::Vibrato,
        NoteExpression::Expression,
        NoteExpression::Brightness,
    ];
    let ghost pred = |k: NoteExpression| note_expressions@.enables(k);
    let mut seen: i32 = 0;
    let mut i: usize = 0;
    while i < 6
        invariant
            i <= 6,
            all@ == seq![
                NoteExpression::Volume,
                NoteExpression::Pan,
                NoteExpression::Tuning,
                NoteExpression::Vibrato,
                NoteExpression::Expression,
                NoteExpression::Brightness,
            ],
            0 <= index,
            pred == (|k: NoteExpression| note_expressions@.enables(k)),
            seen == all@.take(i as int).filter(pred).len(),
            seen <= index,
            seen <= i,
        decreases 6 - i,
    {
        let kind = all[i];
        proof {
            reveal_with_fuel(Seq::filter, 1);
            assert(all@.take(i + 1).drop_last() =~= all@.take(i as int));
            assert(all@.take(i + 1).last() == kind);
            assert(pred(kind) == note_expressions@.enables(kind));
            assert(all@.take(i + 1).filter(pred) == if pred(kind) {
                all@.take(i as int).filter(pred).push(kind)
            } else {
                all@.take(i as int).filter(pred)
            });
        }
        if note_expressions.enables(kind) {
            if seen == index {
                proof {
                    let f = all@.take(i + 1).filter(pred);
                    assert(f == all@.take(i as int).filter(pred).push(kind));
                    assert(all@.take(6) =~= all@);
                    lemma_filter_prefix(all@, pred, i + 1, 6);
                }
                return Some(kind);
            }
            seen = seen + 1;
        }
        i = i + 1;
    }
    proof {
        assert(all@.take(6) =~= all@);
    }
    None
}

/// Filtering a longer prefix only adds to the end.
proof fn lemma_filter_prefix(s: Seq<NoteExpression>, pred: spec_fn(NoteExpression) -> bool, i: int, j: int)
    requires
        0 <= i <= j <= s.len(),
    ensures
        s.take(i).filter(pred).len() <= s.take(j).filter(pred).len(),
        forall|k: int| 0 <= k < s.take(i).filter(pred).len() ==> s.take(j).filter(pred)[k] == s.take(i).filter(pred)[k],
    decreases j - i,
{
    if i < j {
        lemma_filter_prefix(s, pred, i, j - 1);
        reveal_with_fuel(Seq::filter, 1);
        assert(s.take(j).drop_last() =~= s.take(j - 1));
    }
}

/// Which note expression a physical gesture controls on channel `channel` of event bus
/// `bus_index`: sliding left and right the tuning, sliding up and down the brightness,
/// each only when enabled. Pressure arrives as poly pressure events instead. `None` for
/// a gesture that controls nothing; `Err` for a bus or channel that does not exist.
pub fn physical_ui_mapping(note_expressions: NoteExpressions, bus_index: i32, channel: i16, physical_ui_type: u32) -> (r: Result<Option<NoteExpression>, ()>)
    ensures
        r == (if bus_index != 0 || !(0 <= channel < 16) {
            Err::<Option<NoteExpression>, ()>(())
        } else if physical_ui_type == PUI_X_MOVEMENT && note_expressions@.tuning {
            Ok(Some(NoteExpression::Tuning))
        } else if physical_ui_type == PUI_Y_MOVEMENT && note_expressions@.brightness {
            Ok(Some(NoteExpression::Brightness))
        } else {
            Ok(None)
        }),
{
    if bus_index != 0 || !(0 <= channel && channel < 16) {
        return Err(());
    }
    if physical_ui_type == PUI_X_MOVEMENT {
        if note_expressions.tuning() {
            Ok(Some(NoteExpression::Tuning))
        } else {
            Ok(None)
        }
    } else if physical_ui_type == PUI_Y_MOVEMENT {
        if note_expressions.brightness() {
            Ok(Some(NoteExpression::Brightness))
        } else {
            Ok(None)
        }
    } else {
        Ok(None)
    }
}

/// The tail length reported to the host after a block, or `None` when processing failed.
pub fn tail_samples(state: ProcessState) -> (r: Option<u32>)
    ensures
        r == match state {
            ProcessState::Error => None,
            ProcessState::Normal => Some(NO_TAIL),
            ProcessState::Tail(tail) => Some(tail as u32),
            ProcessState::KeepAlive => Some(INFINITE_TAIL),
        },
{
    match state {
        ProcessState::Error => None,
        ProcessState::Normal => Some(NO_TAIL),
        ProcessState::Tail(0) => Some(NO_TAIL),
        ProcessState::Tail(tail) => Some(tail as u32),
        ProcessState::KeepAlive => Some(INFINITE_TAIL),
    }
}

/// The process mode for a VST3 I/O mode, or `None` for an unknown mode.
pub fn process_mode_for_io_mode(mode: i32) -> (r: Option<ProcessMode>)
    ensures
        r == (if mode == IO_MODE_SIMPLE || mode == IO_MODE_ADVANCED {
            Some(ProcessMode::Realtime)
        } else if mode == IO_MODE_OFFLINE_PROCESSING {
            Some(ProcessMode::Offline)
        } else {
            None
        }),
{
    if mode == IO_MODE_SIMPLE || mode == IO_MODE_ADVANCED {
        Some(ProcessMode::Realtime)
    } else if mode == IO_MODE_OFFLINE_PROCESSING {
        Some(ProcessMode::Offline)
    } else {
        None
    }
}

/// How many buses of a media type and direction there are: two audio inputs (main and
/// aux) when the plugin has an aux input, one bus otherwise.
pub fn bus_count(has_aux_input: bool, media_type: i32, direction: i32) -> (r: i32)
    ensures
        r == (if has_aux_input && media_type == MEDIA_AUDIO && direction == DIRECTION_INPUT {
            2i32
        } else {
            1i32
        }),
{
    if has_aux_input && media_type == MEDIA_AUDIO && direction == DIRECTION_INPUT {
        2
    } else {
        1
    }
}

/// What is reported about one bus.
#[derive(Clone, Copy, Debug, PartialEq, Eq, Structural)]
pub struct BusDescription {
    /// The main bus (index 0), else the aux bus.
    pub is_main: bool,
    /// Two channels for audio (stereo), sixteen for events (MIDI channels).
    pub channel_count: i32,
}

/// The description of bus `index`, or `None` (`kInvalidArgument`) for a bus that does not
/// exist or a media type that is neither audio nor events.
pub fn bus_info(has_aux_input: bool, media_type: i32, direction: i32, index: i32) -> (r: Option<BusDescription>)
    ensures
        r == (if index >= (if has_aux_input && media_type == MEDIA_AUDIO && direction == DIRECTION_INPUT {
            2i32
        } else {
            1i32
        }) {
            None
        } else if media_type == MEDIA_AUDIO {
            Some(BusDescription { is_main: index == 0, channel_count: 2 })
        } else if media_type == MEDIA_EVENT {
            Some(BusDescription { is_main: index == 0, channel_count: 16 })
        } else {
            None
        }),
{
    if index >= bus_count(has_aux_input, media_type, direction) {
        return None;
    }
    let is_main = index == 0;
    if media_type == MEDIA_AUDIO {
        Some(BusDescription { is_main, channel_count: 2 })
    } else if media_type == MEDIA_EVENT {
        Some(BusDescription { is_main, channel_count: 16 })
    } else {
        None
    }
}

/// The bus arrangements the host proposes are supported: stereo main in and out, and a
/// stereo aux input exactly when the plugin has one. The arrangements are only looked at
/// when their numbers are right.
pub fn bus_arrangements_supported(has_aux_input: bool, num_ins: i32, num_outs: i32, inputs: &[u64], outputs: &[u64]) -> (r: bool)
    requires
        num_ins == (if has_aux_input { 2i32 } else { 1i32 }) && num_outs == 1 ==> inputs@.len() == num_ins
            && outputs@.len() == num_outs,
    ensures
        r == {
            &&& num_ins == (if has_aux_input { 2i32 } else { 1i32 })
            &&& num_outs == 1
            &&& inputs@[0] == SPEAKER_STEREO
            &&& has_aux_input ==> inputs@[1] == SPEAKER_STEREO
            &&& outputs@[0] == SPEAKER_STEREO
        },
{
    let expected_inputs: i32 = if has_aux_input {
        2
    } else {
        1
    };
    if num_ins != expected_inputs {
        return false;
    }
    if num_outs != 1 {
        return false;
    }
    if inputs[0] != SPEAKER_STEREO {
        return false;
    }
    if has_aux_input && inputs[1] != SPEAKER_STEREO {
        return false;
    }
    if outputs[0] != SPEAKER_STEREO {
        return false;
    }
    true
}

/// The flags of a parameter: a bypass parameter is marked as such and can be automated, a
/// hidden one is hidden, any other can be automated.
pub fn parameter_flags(is_bypass: bool, visible: bool) -> (r: i32)
    ensures
        r == (if is_bypass {
            PARAMETER_IS_BYPASS | PARAMETER_CAN_AUTOMATE
        } else if !visible {
            PARAMETER_IS_HIDDEN
        } else {
            PARAMETER_CAN_AUTOMATE
        }),
{
    if is_bypass {
        let mut flags = PARAMETER_IS_BYPASS;
        flags = flags | PARAMETER_CAN_AUTOMATE;
        flags
    } else if !visible {
        PARAMETER_IS_HIDDEN
    } else {
        PARAMETER_CAN_AUTOMATE
    }
}

/// A character kept when a typed-in value is read as a number.
pub open spec fn is_number_char(c: char) -> bool {
    ('0' <= c && c <= '9') || c == '.' || c == '-' || c == '+'
}

/// The characters of `text` that can be part of a number (ASCII digits, `.`, `-`, `+`), in
/// order; everything else, such as a unit, is dropped.
pub fn number_characters(text: &Vec<char>) -> (r: Vec<char>)
    ensures
        r@ == text@.filter(|c: char| is_number_char(c)),
{
    let ghost pred = |c: char| is_number_char(c);
    let mut r: Vec<char> = Vec::new();
    let mut i: usize = 0;
    while i < text.len()
        invariant
            i <= text@.len(),
            pred == (|c: char| is_number_char(c)),
            r@ == text@.take(i as int).filter(pred),
        decreases text@.len() - i,
    {
        let c = text[i];
        proof {
            reveal_with_fuel(Seq::filter, 1);
            assert(text@.take(i + 1).drop_last() =~= text@.take(i as int));
            assert(text@.take(i + 1).last() == c);
            assert(text@.take(i + 1).filter(pred) == if pred(c) {
                text@.take(i as int).filter(pred).push(c)
            } else {
                text@.take(i as int).filter(pred)
            });
        }
        if ('0' <= c && c <= '9') || c == '.' || c == '-' || c == '+' {
            r.push(c);
        }
        i = i + 1;
    }
    proof {
        assert(text@.take(text@.len() as int) =~= text@);
    }
    r
}

/// VST3 `SymbolicSampleSizes::kSample32`.
pub const SAMPLE_32: i32 = 0;

/// What a call of `process` does.
#[derive(Clone, Copy, Debug, PartialEq, Eq, Structural)]
pub enum ProcessAction {
    /// Answer `kResultFalse`: the block holds samples other than 32-bit floats, or no
    /// processor has been set up.
    Refuse,
    /// The processor is being set up or torn down: output silence, where there is an
    /// output, and answer `kResultOk`.
    Silence,
    /// A call without audio: the processor gets the events only.
    EventsOnly,
    /// The processor processes the block of audio.
    Audio,
}

/// A call of `process` without audio, which only carries events: it has no inputs or no
/// outputs, or no samples.
pub open spec fn is_data_dump(has_inputs: bool, has_outputs: bool, num_inputs: i32, num_samples: i32) -> bool {
    !has_inputs || !has_outputs || num_inputs == 0 || num_samples == 0
}

/// What a call of `process` does, from the block the host hands over (whether it has
/// input and output buffers, how many inputs and samples, the sample size), whether the
/// processor lock was free, and whether a processor is set up.
pub fn process_action(
    has_inputs: bool,
    has_outputs: bool,
    num_inputs: i32,
    num_samples: i32,
    symbolic_sample_size: i32,
    processor_free: bool,
    processor_ready: bool,
) -> (r: ProcessAction)
    ensures
        r == ({
            let dump = is_data_dump(has_inputs, has_outputs, num_inputs, num_samples);
            if !dump && symbolic_sample_size != SAMPLE_32 {
                ProcessAction::Refuse
            } else if !processor_free {
                ProcessAction::Silence
            } else if !processor_ready {
                ProcessAction::Refuse
            } else if dump {
                ProcessAction::EventsOnly
            } else {
                ProcessAction::Audio
            }
        }),
{
    let dump = !has_inputs || !has_outputs || num_inputs == 0 || num_samples == 0;
    if !dump && symbolic_sample_size != SAMPLE_32 {
        return ProcessAction::Refuse;
    }
    if !processor_free {
        return ProcessAction::Silence;
    }
    if !processor_ready {
        return ProcessAction::Refuse;
    }
    if dump {
        ProcessAction::EventsOnly
    } else {
        ProcessAction::Audio
    }
}

/// Why a plugin's parameters cannot be registered.
#[derive(Clone, Copy, Debug, PartialEq, Eq, Structural)]
pub enum ParameterSetError {
    /// Two parameters share an id.
    DuplicateIds,
    /// More than one parameter is a bypass parameter.
    MoreThanOneBypass,
}

/// Two entries of `ids` are equal.
pub open spec fn has_duplicate_ids(ids: Seq<ParameterId>) -> bool {
    exists|i: int, j: int| 0 <= i < j < ids.len() && ids[i] == ids[j]
}

/// The number of `true` entries of `flags`.
pub open spec fn count_true(flags: Seq<bool>) -> nat
    decreases flags.len(),
{
    if flags.len() == 0 {
        0
    } else {
        count_true(flags.drop_last()) + if flags.last() { 1nat } else { 0nat }
    }
}

/// The checks a plugin's parameters have to pass before they are registered: the ids
/// `ids` are distinct, and at most one parameter is a bypass parameter (`is_bypass[i]`
/// tells whether the parameter with id `ids[i]` is).
pub fn check_parameters(ids: &[ParameterId], is_bypass: &[bool]) -> (r: Result<(), ParameterSetError>)
    requires
        ids@.len() == is_bypass@.len(),
    ensures
        r == (if has_duplicate_ids(ids@) {
            Err(ParameterSetError::DuplicateIds)
        } else if count_true(is_bypass@) > 1 {
            Err(ParameterSetError::MoreThanOneBypass)
        } else {
            Ok(())
        }),
{
    let mut j: usize = 0;
    while j < ids.len()
        invariant
            j <= ids@.len(),
            forall|a: int, b: int| 0 <= a < b < j ==> ids@[a] != ids@[b],
        decreases ids@.len() - j,
    {
        let mut i: usize = 0;
        while i < j
            invariant
                i <= j < ids@.len(),
                forall|a: int| 0 <= a < i ==> ids@[a] != ids@[j as int],
            decreases j - i,
        {
            if ids[i] == ids[j] {
                return Err(ParameterSetError::DuplicateIds);
            }
            i = i + 1;
        }
        j = j + 1;
    }
    let mut bypass_count: usize = 0;
    let mut k: usize = 0;
    while k < is_bypass.len()
        invariant
            k <= is_bypass@.len(),
            bypass_count == count_true(is_bypass@.subrange(0, k as int)),
            bypass_count <= k,
        decreases is_bypass@.len() - k,
    {
        proof {
            assert(is_bypass@.subrange(0, k + 1).drop_last() =~= is_bypass@.subrange(0, k as int));
        }
        if is_bypass[k] {
            bypass_count = bypass_count + 1;
        }
        k = k + 1;
    }
    proof {
        assert(is_bypass@.subrange(0, is_bypass@.len() as int) =~= is_bypass@);
    }
    if bypass_count > 1 {
        Err(ParameterSetError::MoreThanOneBypass)
    } else {
        Ok(())
    }
}

} // verus!
