//! Which raw MIDI messages a plugin wants to receive as events.
use vstd::prelude::*;

use crate::bitmask::{
    bit, bits_below, lemma_bit_of_or_single, lemma_bit_of_zero, lemma_mask_set_injective,
    lemma_mask_set_len, lemma_mask_zero, mask_set,
};

verus! {

/// Number of MIDI channels on the plugin's event bus.
pub const MIDI_CHANNEL_COUNT: usize = 16;

/// Number of MIDI CC controller values that can be enabled.
pub const MIDI_CONTROLLER_COUNT: usize = 128;

/// Declaration of which raw MIDI messages a plugin wants to receive as events.
///
/// Only covers plain MIDI wire messages; per-note expressions are declared with
/// `NoteExpressions`. In VST3 plugins every enabled message type (and every
/// enabled CC) registers hidden per-channel parameters, so only what is needed
/// should be enabled.
#[derive(Clone, Copy, Debug, PartialEq, Eq, Structural)]
pub struct MidiCapabilities {
    pitch_bend: bool,
    channel_pressure: bool,
    poly_pressure: bool,
    program_change: bool,
    cc_mask: u128,
}

/// What a `MidiCapabilities` enables.
#[verifier::ext_equal]
pub struct MidiCapabilitiesView {
    pub pitch_bend: bool,
    pub channel_pressure: bool,
    pub poly_pressure: bool,
    pub program_change: bool,
    /// The enabled CC numbers; all of them are below 128.
    pub control_changes: Set<u8>,
}

impl View for MidiCapabilities {
    type V = MidiCapabilitiesView;

    closed spec fn view(&self) -> MidiCapabilitiesView {
        MidiCapabilitiesView {
            pitch_bend: self.pitch_bend,
            channel_pressure: self.channel_pressure,
            poly_pressure: self.poly_pressure,
            program_change: self.program_change,
            control_changes: mask_set(self.cc_mask),
        }
    }
}

/// Nothing enabled.
pub open spec fn empty_capabilities() -> MidiCapabilitiesView {
    MidiCapabilitiesView {
        pitch_bend: false,
        channel_pressure: false,
        poly_pressure: false,
        program_change: false,
        control_changes: Set::empty(),
    }
}

/// The CC numbers `start..=end`.
pub open spec fn cc_range(start: u8, end: u8) -> Set<u8> {
    Set::new(|c: u8| start <= c <= end)
}

/// `u128::count_ones`: the number of ones in the binary representation of `x`.
#[verifier::external_body]
fn count_ones_u128(x: u128) -> (r: u32)
    ensures
        r == bits_below(x, 128),
{
    x.count_ones()
}

impl MidiCapabilities {
    /// The set of CC numbers holds only numbers below 128.
    pub proof fn lemma_control_changes_below_128(self)
        ensures
            forall|c: u8| #[trigger] self@.control_changes.contains(c) ==> c < 128,
            self@.control_changes.finite(),
    {
        lemma_mask_set_len(self.cc_mask);
    }

    /// Two declarations that enable the same things are equal.
    pub proof fn lemma_view_determines(a: Self, b: Self)
        requires
            a@ == b@,
        ensures
            a == b,
    {
        lemma_mask_set_injective(a.cc_mask, b.cc_mask);
    }

    /// No MIDI capabilities.
    pub fn none() -> (r: Self)
        ensures
            r@ == empty_capabilities(),
    {
        let r = MidiCapabilities {
            pitch_bend: false,
            channel_pressure: false,
            program_change: false,
            poly_pressure: false,
            cc_mask: 0,
        };
        proof {
            assert forall|c: u8| !#[trigger] mask_set(0u128).contains(c) by {
                if c < 128 {
                    lemma_bit_of_zero(c as u128);
                }
            }
            assert(mask_set(0u128) =~= Set::<u8>::empty());
        }
        r
    }

    /// Enable delivery of channel-wide pitch bend as `Event::MidiPitchBend`.
    pub fn with_pitch_bend(self) -> (r: Self)
        ensures
            r@ == (MidiCapabilitiesView { pitch_bend: true, ..self@ }),
    {
        let mut s = self;
        s.pitch_bend = true;
        s
    }

    /// Enable delivery of channel pressure (mono aftertouch) as `Event::MidiChannelPressure`.
    pub fn with_channel_pressure(self) -> (r: Self)
        ensures
            r@ == (MidiCapabilitiesView { channel_pressure: true, ..self@ }),
    {
        let mut s = self;
        s.channel_pressure = true;
        s
    }

    /// Enable delivery of polyphonic key pressure (poly aftertouch) delivered as a raw MIDI
    /// byte message, as `Event::MidiPolyPressure`.
    pub fn with_poly_pressure(self) -> (r: Self)
        ensures
            r@ == (MidiCapabilitiesView { poly_pressure: true, ..self@ }),
    {
        let mut s = self;
        s.poly_pressure = true;
        s
    }

    /// Enable delivery of program change messages as `Event::MidiProgramChange`.
    pub fn with_program_change(self) -> (r: Self)
        ensures
            r@ == (MidiCapabilitiesView { program_change: true, ..self@ }),
    {
        let mut s = self;
        s.program_change = true;
        s
    }

    /// Enable delivery of the given CC number as `Event::MidiControlChange`.
    /// The number must be below 128.
    pub fn with_control_change(self, cc: u8) -> (r: Self)
        requires
            cc < MIDI_CONTROLLER_COUNT,
        ensures
            r@ == (MidiCapabilitiesView {
                control_changes: self@.control_changes.insert(cc),
                ..self@
            }),
    {
        let mut s = self;
        s.cc_mask = s.cc_mask | (1u128 << cc);
        proof {
            assert forall|c: u8|
                #[trigger] mask_set(s.cc_mask).contains(c) == mask_set(self.cc_mask).insert(
                    cc,
                ).contains(c) by {
                if c < 128 {
                    lemma_bit_of_or_single(self.cc_mask, cc as u128, c as u128);
                }
            }
            assert(mask_set(s.cc_mask) =~= mask_set(self.cc_mask).insert(cc));
        }
        s
    }

    /// Enable delivery of all CC numbers in the inclusive range `[start, end]` as
    /// `Event::MidiControlChange`. Requires `start <= end <= 127`.
    pub fn with_control_change_range(self, start: u8, end: u8) -> (r: Self)
        requires
            start <= end,
            end < MIDI_CONTROLLER_COUNT,
        ensures
            r@ == (MidiCapabilitiesView {
                control_changes: self@.control_changes.union(cc_range(start, end)),
                ..self@
            }),
    {
        let mut s = self;
        let mut cc: u8 = start;
        while cc <= end
            invariant
                start <= cc <= end + 1,
                end < 128,
                s@ == (MidiCapabilitiesView {
                    control_changes: self@.control_changes.union(
                        Set::new(|c: u8| start <= c < cc),
                    ),
                    ..self@
                }),
            decreases end + 1 - cc,
        {
            s = s.with_control_change(cc);
            proof {
                assert(self@.control_changes.union(Set::new(|c: u8| start <= c < cc)).insert(cc)
                    =~= self@.control_changes.union(Set::new(|c: u8| start <= c < cc + 1)));
            }
            cc = cc + 1;
        }
        proof {
            assert(Set::new(|c: u8| start <= c < cc) =~= cc_range(start, end));
        }
        s
    }

    /// Returns `true` when no capabilities are enabled.
    pub fn is_empty(&self) -> (r: bool)
        ensures
            r == (self@ == empty_capabilities()),
    {
        let r = self.cc_mask == 0 && !self.pitch_bend && !self.channel_pressure
            && !self.program_change && !self.poly_pressure;
        proof {
            if self.cc_mask == 0 {
                assert forall|c: u8| !#[trigger] mask_set(0u128).contains(c) by {
                    if c < 128 {
                        lemma_bit_of_zero(c as u128);
                    }
                }
                assert(mask_set(self.cc_mask) =~= Set::<u8>::empty());
            } else if mask_set(self.cc_mask) =~= Set::<u8>::empty() {
                assert forall|c: u128| c < 128 implies !bit(self.cc_mask, c) by {
                    let k = c as u8;
                    assert(k as u128 == c);
                    assert(!mask_set(self.cc_mask).contains(k));
                }
                lemma_mask_zero(self.cc_mask);
            }
        }
        r
    }

    /// Returns `true` if pitch bend is enabled.
    pub fn midi_pitch_bend(&self) -> (r: bool)
        ensures
            r == self@.pitch_bend,
    {
        self.pitch_bend
    }

    /// Returns `true` if channel pressure (mono aftertouch) is enabled.
    pub fn midi_channel_pressure(&self) -> (r: bool)
        ensures
            r == self@.channel_pressure,
    {
        self.channel_pressure
    }

    /// Returns `true` if raw-MIDI-delivered polyphonic key pressure is enabled.
    pub fn midi_poly_pressure(&self) -> (r: bool)
        ensures
            r == self@.poly_pressure,
    {
        self.poly_pressure
    }

    /// Returns `true` if program change is enabled.
    pub fn midi_program_change(&self) -> (r: bool)
        ensures
            r == self@.program_change,
    {
        self.program_change
    }

    /// Returns `true` if the given CC number is enabled (never for numbers above 127).
    pub fn has_midi_control_change(&self, cc: u8) -> (r: bool)
        ensures
            r == self@.control_changes.contains(cc),
    {
        if cc >= 128 {
            return false;
        }
        let r = (self.cc_mask >> cc) & 1 != 0;
        proof {
            let m = self.cc_mask;
            assert(((m >> cc) & 1u128 != 0u128) == ((m >> cc) & 1u128 == 1u128)) by (bit_vector);
        }
        r
    }

    /// Returns the number of enabled CC numbers.
    pub fn midi_control_change_count(&self) -> (r: u32)
        ensures
            r == self@.control_changes.len(),
    {
        proof {
            lemma_mask_set_len(self.cc_mask);
        }
        count_ones_u128(self.cc_mask)
    }

    /// The enabled CC numbers in ascending order.
    pub fn midi_control_changes(&self) -> (r: Vec<u8>)
        ensures
            r@ == ascending_control_changes(self@.control_changes),
    {
        let mut r: Vec<u8> = Vec::new();
        let mut cc: u8 = 0;
        while cc < 128
            invariant
                cc <= 128,
                r@ == cc_numbers(cc as nat).filter(|c: u8| self@.control_changes.contains(c)),
            decreases 128 - cc,
        {
            let enabled = self.has_midi_control_change(cc);
            if enabled {
                r.push(cc);
            }
            proof {
                let pred = |c: u8| self@.control_changes.contains(c);
                let next = cc_numbers((cc + 1) as nat);
                assert(next.drop_last() =~= cc_numbers(cc as nat));
                assert(next.last() == cc);
                reveal_with_fuel(Seq::filter, 1);
                assert(next.filter(pred) == if pred(cc) {
                    cc_numbers(cc as nat).filter(pred).push(cc)
                } else {
                    cc_numbers(cc as nat).filter(pred)
                });
            }
            cc = cc + 1;
        }
        r
    }
}

/// The numbers `0..n` in ascending order.
pub open spec fn cc_numbers(n: nat) -> Seq<u8> {
    Seq::new(n, |i: int| i as u8)
}

/// The members of `ccs` below 128, in ascending order.
pub open spec fn ascending_control_changes(ccs: Set<u8>) -> Seq<u8> {
    cc_numbers(128).filter(|c: u8| ccs.contains(c))
}

proof fn lemma_filtered_numbers(ccs: Set<u8>, n: nat)
    requires
        n <= 128,
    ensures
        ({
            let s = cc_numbers(n).filter(|c: u8| ccs.contains(c));
            &&& forall|i: int, j: int| 0 <= i < j < s.len() ==> s[i] < s[j]
            &&& forall|i: int| 0 <= i < s.len() ==> s[i] < n
            &&& forall|c: u8| s.contains(c) <==> (c < n && ccs.contains(c))
        }),
    decreases n,
{
    let pred = |c: u8| ccs.contains(c);
    if n > 0 {
        let m = (n - 1) as nat;
        lemma_filtered_numbers(ccs, m);
        let prev = cc_numbers(m).filter(pred);
        assert(cc_numbers(n).drop_last() =~= cc_numbers(m));
        assert(cc_numbers(n).last() == m as u8);
        reveal_with_fuel(Seq::filter, 1);
        let s = cc_numbers(n).filter(pred);
        if pred(m as u8) {
            assert(s == prev.push(m as u8));
            assert forall|c: u8| s.contains(c) implies (c < n && ccs.contains(c)) by {
                let i = choose|i: int| 0 <= i < s.len() && s[i] == c;
                if i < prev.len() {
                    assert(prev[i] == c);
                }
            }
            assert forall|c: u8| (c < n && ccs.contains(c)) implies s.contains(c) by {
                if c < m {
                    let i = choose|i: int| 0 <= i < prev.len() && prev[i] == c;
                    assert(s[i] == c);
                } else {
                    assert(s[s.len() - 1] == c);
                }
            }
        } else {
            assert(s == prev);
        }
    } else {
        assert(cc_numbers(0).filter(pred) =~= Seq::<u8>::empty()) by {
            reveal_with_fuel(Seq::filter, 1);
        }
    }
}

/// The ascending list of enabled CC numbers is strictly increasing and holds exactly the
/// enabled numbers.
pub proof fn lemma_ascending_control_changes(caps: MidiCapabilities)
    ensures
        ({
            let s = ascending_control_changes(caps@.control_changes);
            &&& forall|i: int, j: int| 0 <= i < j < s.len() ==> s[i] < s[j]
            &&& forall|c: u8| s.contains(c) <==> caps@.control_changes.contains(c)
            &&& s.len() == caps@.control_changes.len()
        }),
{
    caps.lemma_control_changes_below_128();
    lemma_filtered_numbers(caps@.control_changes, 128);
    let s = ascending_control_changes(caps@.control_changes);
    assert forall|i: int, j: int| 0 <= i < s.len() && 0 <= j < s.len() && i != j implies s[i] != s[j] by {
        if i < j {
            assert(s[i] < s[j]);
        } else {
            assert(s[j] < s[i]);
        }
    }
    assert(s.no_duplicates());
    s.unique_seq_to_set();
    assert(s.to_set() =~= caps@.control_changes);
}

impl Default for MidiCapabilities {
    /// No MIDI capabilities.
    fn default() -> (r: Self)
        ensures
            r@ == empty_capabilities(),
    {
        Self::none()
    }
}

} // verus!
