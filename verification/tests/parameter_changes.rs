use plinth_plugin::midi_capabilities::MidiCapabilities;
use plinth_plugin::parameter_changes::{ParameterChangeIterator, ParameterQueue};
use plinth_plugin::parameters::{MidiParameters, ParameterChange};

fn bits(x: f64) -> u64 {
    x.to_bits()
}

fn no_midi() -> MidiParameters {
    let mut infos = Vec::new();
    MidiParameters::new(&MidiCapabilities::none(), &[], &mut infos)
}

fn value(id: u32, offset: usize, v: f64) -> Option<ParameterChange> {
    Some(ParameterChange::ParameterValue { sample_offset: offset, id, value: bits(v) })
}

#[test]
fn no_changes_at_all() {
    let midi = no_midi();
    let mut none = ParameterChangeIterator::new(None, &midi);
    assert_eq!(none.next(), None);
    let mut empty = ParameterChangeIterator::new(Some(vec![]), &midi);
    assert_eq!(empty.next(), None);
    assert_eq!(empty.next(), None);
}

#[test]
fn changes_come_out_by_offset() {
    let midi = no_midi();
    let queues = vec![
        ParameterQueue { id: 1, points: vec![(0, bits(0.1)), (30, bits(0.3))] },
        ParameterQueue { id: 2, points: vec![(20, bits(0.2))] },
    ];
    let mut it = ParameterChangeIterator::new(Some(queues), &midi);
    assert_eq!(it.next(), value(1, 0, 0.1));
    assert_eq!(it.next(), value(2, 20, 0.2));
    // On reaching a new offset the walk restarts its count there, so the first change at
    // that offset comes out twice.
    assert_eq!(it.next(), value(2, 20, 0.2));
    assert_eq!(it.next(), value(1, 30, 0.3));
    assert_eq!(it.next(), value(1, 30, 0.3));
    assert_eq!(it.next(), None);
    assert_eq!(it.next(), None);
}

#[test]
fn changes_at_the_same_offset_are_counted_per_queue() {
    let midi = no_midi();
    let queues = vec![
        ParameterQueue { id: 1, points: vec![(0, bits(0.1))] },
        ParameterQueue { id: 2, points: vec![(0, bits(0.2))] },
    ];
    let mut it = ParameterChangeIterator::new(Some(queues), &midi);
    assert_eq!(it.next(), value(1, 0, 0.1));
    // The count of changes handed out at offset 0 is applied to each queue on its own, so
    // the second queue's change at offset 0 is skipped as well.
    assert_eq!(it.next(), None);
}

#[test]
fn several_changes_of_one_parameter_at_one_offset() {
    let midi = no_midi();
    let queues = vec![ParameterQueue { id: 9, points: vec![(0, bits(0.1)), (0, bits(0.2)), (4, bits(0.4))] }];
    let mut it = ParameterChangeIterator::new(Some(queues), &midi);
    assert_eq!(it.next(), value(9, 0, 0.1));
    assert_eq!(it.next(), value(9, 0, 0.2));
    assert_eq!(it.next(), value(9, 4, 0.4));
    assert_eq!(it.next(), value(9, 4, 0.4));
    assert_eq!(it.next(), None);
}

#[test]
fn hidden_midi_parameters_become_midi_changes() {
    let mut infos = Vec::new();
    let midi = MidiParameters::new(&MidiCapabilities::none().with_channel_pressure(), &[], &mut infos);
    let queues = vec![ParameterQueue { id: 3, points: vec![(0, bits(0.5))] }];
    let mut it = ParameterChangeIterator::new(Some(queues), &midi);
    assert_eq!(
        it.next(),
        Some(ParameterChange::MidiChannelPressure { sample_offset: 0, channel: 2, value: bits(0.5) })
    );
    assert_eq!(it.next(), None);
}
