//! Hidden VST3 parameters that stand for MIDI messages.
//!
//! VST3 delivers MIDI controllers to a plugin as changes of parameters that the plugin
//! names. For every enabled MIDI message type (and every enabled CC number) a block of
//! sixteen hidden parameters is registered, one per MIDI channel, and a change of one of
//! them is turned back into the MIDI event it stands for.
use vstd::prelude::*;
use std::collections::HashMap;

use crate::event::{F64Bits, ParameterId};
use crate::midi_capabilities::{ascending_control_changes, cc_numbers, MidiCapabilities, MidiCapabilitiesView};
use vstd::set_lib::{lemma_int_range, lemma_len_subset, lemma_map_size_bound, lemma_set_disjoint_lens, set_int_range};

verus! {

broadcast use vstd::std_specs::hash::group_hash_axioms;

/// A hidden VST3 parameter which maps to a MIDI event.
#[derive(Clone, Copy, Debug, PartialEq, Eq, Structural)]
pub enum MidiParameter {
    PitchBend { channel: u8 },
    ChannelPressure { channel: u8 },
    ProgramChange { channel: u8 },
    ControlChange { channel: u8, controller: u8 },
}

impl MidiParameter {
    /// A number that identifies the parameter: distinct parameters have distinct keys.
    pub open spec fn spec_key(self) -> u32 {
        match self {
            MidiParameter::PitchBend { channel } => channel as u32,
            MidiParameter::ChannelPressure { channel } => (256 + channel) as u32,
            MidiParameter::ProgramChange { channel } => (512 + channel) as u32,
            MidiParameter::ControlChange { channel, controller } => (768 + controller * 256 + channel) as u32,
        }
    }

    /// A number that identifies the parameter: distinct parameters have distinct keys.
    pub fn key(&self) -> (r: u32)
        ensures
            r == self.spec_key(),
    {
        match self {
            MidiParameter::PitchBend { channel } => *channel as u32,
            MidiParameter::ChannelPressure { channel } => 256 + *channel as u32,
            MidiParameter::ProgramChange { channel } => 512 + *channel as u32,
            MidiParameter::ControlChange { channel, controller } => 768 + *controller as u32 * 256
                + *channel as u32,
        }
    }

    pub proof fn lemma_key_injective(a: MidiParameter, b: MidiParameter)
        requires
            a.spec_key() == b.spec_key(),
        ensures
            a == b,
    {
        match (a, b) {
            (
                MidiParameter::ControlChange { channel: c1, controller: k1 },
                MidiParameter::ControlChange { channel: c2, controller: k2 },
            ) => {
                assert(k1 * 256 + c1 == k2 * 256 + c2);
                assert(c1 == c2 && k1 == k2) by (nonlinear_arith)
                    requires
                        k1 * 256 + c1 == k2 * 256 + c2,
                        c1 < 256,
                        c2 < 256,
                ;
            },
            (MidiParameter::ControlChange { controller, .. }, _) => {
                assert(controller * 256 >= 0) by (nonlinear_arith);
            },
            (_, MidiParameter::ControlChange { controller, .. }) => {
                assert(controller * 256 >= 0) by (nonlinear_arith);
            },
            _ => {},
        }
    }
}

/// A kind of MIDI message that gets a block of sixteen hidden parameters, one per channel.
#[derive(Clone, Copy, Debug, PartialEq, Eq, Structural)]
pub enum MidiBlock {
    PitchBend,
    ChannelPressure,
    ProgramChange,
    ControlChange { controller: u8 },
}

impl MidiBlock {
    /// The block's parameter for `channel`.
    pub open spec fn spec_on_channel(self, channel: u8) -> MidiParameter {
        match self {
            MidiBlock::PitchBend => MidiParameter::PitchBend { channel },
            MidiBlock::ChannelPressure => MidiParameter::ChannelPressure { channel },
            MidiBlock::ProgramChange => MidiParameter::ProgramChange { channel },
            MidiBlock::ControlChange { controller } => MidiParameter::ControlChange { channel, controller },
        }
    }

    /// The block's parameter for `channel`.
    pub fn on_channel(&self, channel: u8) -> (r: MidiParameter)
        ensures
            r == self.spec_on_channel(channel),
    {
        match self {
            MidiBlock::PitchBend => MidiParameter::PitchBend { channel },
            MidiBlock::ChannelPressure => MidiParameter::ChannelPressure { channel },
            MidiBlock::ProgramChange => MidiParameter::ProgramChange { channel },
            MidiBlock::ControlChange { controller } => MidiParameter::ControlChange {
                channel,
                controller: *controller,
            },
        }
    }
}

/// The blocks that `caps` asks for, in the order their parameters are registered: pitch
/// bend, channel pressure, program change, then each enabled CC number in ascending order.
pub open spec fn midi_blocks(caps: MidiCapabilitiesView) -> Seq<MidiBlock> {
    (if caps.pitch_bend {
        seq![MidiBlock::PitchBend]
    } else {
        Seq::empty()
    }) + (if caps.channel_pressure {
        seq![MidiBlock::ChannelPressure]
    } else {
        Seq::empty()
    }) + (if caps.program_change {
        seq![MidiBlock::ProgramChange]
    } else {
        Seq::empty()
    }) + ascending_control_changes(caps.control_changes).map_values(
        |controller: u8| MidiBlock::ControlChange { controller },
    )
}

/// The first id at or above `from` that is not among `user`.
pub open spec fn next_free(user: Seq<u32>, from: int) -> int
    decreases u32::MAX + 1 - from,
{
    if 0 <= from <= u32::MAX && user.contains(from as u32) {
        next_free(user, from + 1)
    } else {
        from
    }
}

/// The id given to the `i`-th hidden parameter: ids are handed out in ascending order from
/// 1 on, skipping the ids among `user`.
pub open spec fn nth_free(user: Seq<u32>, i: int) -> int
    decreases i,
{
    next_free(
        user,
        if i <= 0 {
            1
        } else {
            nth_free(user, i - 1) + 1
        },
    )
}

/// Where the search for the `i`-th id starts.
pub open spec fn search_start(user: Seq<u32>, i: int) -> int {
    if i <= 0 {
        1
    } else {
        nth_free(user, i - 1) + 1
    }
}

/// A hidden parameter registered for a MIDI message on one channel.
#[derive(Clone, Copy, Debug, PartialEq, Eq, Structural)]
pub struct HiddenParameter {
    pub id: ParameterId,
    pub parameter: MidiParameter,
}

/// The first `n` hidden parameters registered for `blocks`: sixteen per block, channel by
/// channel.
pub open spec fn hidden_parameters(user: Seq<u32>, blocks: Seq<MidiBlock>, n: int) -> Seq<HiddenParameter> {
    Seq::new(
        n as nat,
        |i: int|
            HiddenParameter {
                id: nth_free(user, i) as u32,
                parameter: blocks[i / 16].spec_on_channel((i % 16) as u8),
            },
    )
}

/// Hidden parameter id -> MIDI parameter, as registering `list` in order leaves it.
pub open spec fn by_id(list: Seq<HiddenParameter>) -> Map<ParameterId, MidiParameter>
    decreases list.len(),
{
    if list.len() == 0 {
        Map::empty()
    } else {
        by_id(list.drop_last()).insert(list.last().id, list.last().parameter)
    }
}

/// MIDI parameter key -> hidden parameter id, as registering `list` in order leaves it.
pub open spec fn by_key(list: Seq<HiddenParameter>) -> Map<u32, ParameterId>
    decreases list.len(),
{
    if list.len() == 0 {
        Map::empty()
    } else {
        by_key(list.drop_last()).insert(list.last().parameter.spec_key(), list.last().id)
    }
}

/// The ids for all blocks of `caps` fit below `u32::MAX`.
pub open spec fn ids_fit(user: Seq<u32>, caps: MidiCapabilitiesView) -> bool {
    midi_blocks(caps).len() == 0 || nth_free(user, 16 * midi_blocks(caps).len() - 1)
        < u32::MAX
}

pub proof fn lemma_next_free(user: Seq<u32>, from: int)
    ensures
        from <= next_free(user, from),
        forall|x: u32| from <= x < next_free(user, from) ==> #[trigger] user.contains(x),
        from < next_free(user, from) ==> 0 <= from && next_free(user, from) <= u32::MAX + 1,
        0 <= next_free(user, from) <= u32::MAX ==> !user.contains(next_free(user, from) as u32),
        from <= u32::MAX + 1 ==> next_free(user, from) <= u32::MAX + 1,
    decreases u32::MAX + 1 - from,
{
    if 0 <= from <= u32::MAX && user.contains(from as u32) {
        lemma_next_free(user, from + 1);
    }
}

/// Later hidden parameters get larger ids.
pub proof fn lemma_nth_free_increasing(user: Seq<u32>, i: int, j: int)
    requires
        0 <= i < j,
    ensures
        1 <= nth_free(user, i) < nth_free(user, j),
    decreases j,
{
    lemma_next_free(user, search_start(user, j));
    lemma_next_free(user, search_start(user, i));
    if i + 1 < j {
        lemma_nth_free_increasing(user, i, j - 1);
    }
    if i > 0 {
        lemma_nth_free_increasing(user, i - 1, i);
    }
}

/// Hidden ids are the smallest free ones: the `i`-th id is not a user id, and every id
/// from 1 up to it that is not a user id went to an earlier hidden parameter.
pub proof fn lemma_ids_smallest_free(user: Seq<u32>, i: int)
    requires
        0 <= i,
        nth_free(user, i) <= u32::MAX,
    ensures
        !user.contains(nth_free(user, i) as u32),
        forall|x: u32|
            1 <= x < nth_free(user, i) && !user.contains(x) ==> exists|j: int| 0 <= j < i && #[trigger] nth_free(user, j) == x,
    decreases i,
{
    let s = search_start(user, i);
    lemma_next_free(user, s);
    if i > 0 {
        lemma_nth_free_increasing(user, i - 1, i);
        lemma_ids_smallest_free(user, i - 1);
        assert forall|x: u32| 1 <= x < nth_free(user, i) && !user.contains(x) implies exists|j: int|
            0 <= j < i && #[trigger] nth_free(user, j) == x by {
            if x < nth_free(user, i - 1) {
                let j = choose|j: int| 0 <= j < i - 1 && #[trigger] nth_free(user, j) == x;
                assert(nth_free(user, j) == x);
            } else if x == nth_free(user, i - 1) {
                assert(nth_free(user, i - 1) == x);
            } else {
                assert(s <= x);
            }
        }
    }
}

/// The ids in `1..=hi` that are among `user`.
pub open spec fn user_ids_up_to(user: Seq<u32>, hi: int) -> Set<int> {
    Set::new(|x: int| 1 <= x <= hi && 0 <= x <= u32::MAX && user.contains(x as u32))
}

proof fn lemma_user_ids_up_to(user: Seq<u32>, lo: int, hi: int)
    requires
        lo <= hi,
    ensures
        user_ids_up_to(user, lo).finite(),
        user_ids_up_to(user, hi).finite(),
        user_ids_up_to(user, lo).subset_of(user_ids_up_to(user, hi)),
        user_ids_up_to(user, lo).len() <= user_ids_up_to(user, hi).len(),
        user_ids_up_to(user, hi).len() <= user.len(),
{
    let r = set_int_range(1, u32::MAX + 1);
    lemma_int_range(1, u32::MAX + 1);
    assert(user_ids_up_to(user, lo).subset_of(r));
    assert(user_ids_up_to(user, hi).subset_of(r));
    lemma_len_subset(user_ids_up_to(user, lo), user_ids_up_to(user, hi));
    let f = |x: u32| x as int;
    let v = user.to_set().map(f);
    user.lemma_cardinality_of_set();
    lemma_map_size_bound(user.to_set(), v, f);
    assert forall|x: int| #[trigger] user_ids_up_to(user, hi).contains(x) implies v.contains(x) by {
        let y = x as u32;
        assert(user.to_set().contains(y));
        assert(f(y) == x);
    }
    lemma_len_subset(user_ids_up_to(user, hi), v);
}

proof fn lemma_nth_free_count(user: Seq<u32>, i: int)
    requires
        0 <= i,
    ensures
        1 <= nth_free(user, i),
        nth_free(user, i) <= i + 1 + user_ids_up_to(user, nth_free(user, i)).len(),
    decreases i,
{
    let s = search_start(user, i);
    let nf = nth_free(user, i);
    let prev: int = s - 1;
    if i > 0 {
        lemma_nth_free_count(user, i - 1);
    } else {
        assert(user_ids_up_to(user, 0) =~= Set::<int>::empty());
    }
    lemma_next_free(user, s);
    lemma_user_ids_up_to(user, prev, nf);
    if s <= u32::MAX + 1 {
        let range = set_int_range(s, nf);
        lemma_int_range(s, nf);
        let below = user_ids_up_to(user, prev);
        assert forall|x: int| #[trigger] range.contains(x) implies user_ids_up_to(user, nf).contains(x) by {
            let y = x as u32;
            assert(s <= y < nf);
        }
        assert(below.disjoint(range));
        lemma_set_disjoint_lens(below, range);
        lemma_len_subset(below + range, user_ids_up_to(user, nf));
    }
}

/// No hidden parameter id goes beyond one more than the number of hidden parameters plus
/// the number of user ids.
pub proof fn lemma_nth_free_bound(user: Seq<u32>, i: int)
    requires
        0 <= i,
    ensures
        1 <= nth_free(user, i) <= i + 1 + user.len(),
{
    lemma_nth_free_count(user, i);
    lemma_user_ids_up_to(user, 0, nth_free(user, i));
}

/// A plugin asks for at most 131 blocks: three message types and 128 CC numbers.
pub proof fn lemma_midi_blocks_len(caps: MidiCapabilities)
    ensures
        midi_blocks(caps@).len() <= 131,
{
    let pred = |c: u8| caps@.control_changes.contains(c);
    cc_numbers(128).lemma_filter_len(pred);
}

/// The ids fit whenever there are not too many user ids: with fewer than
/// `u32::MAX - 2097` of them, `MidiParameters::new` can always be called.
pub proof fn lemma_ids_fit(user: Seq<u32>, caps: MidiCapabilities)
    requires
        user.len() < u32::MAX - 2097,
    ensures
        ids_fit(user, caps@),
{
    lemma_midi_blocks_len(caps);
    if midi_blocks(caps@).len() > 0 {
        lemma_nth_free_bound(user, 16 * midi_blocks(caps@).len() - 1);
    }
}

/// Slice membership, searched from the front.
fn contains_id(ids: &[u32], id: u32) -> (r: bool)
    ensures
        r == ids@.contains(id),
{
    let mut i: usize = 0;
    while i < ids.len()
        invariant
            i <= ids@.len(),
            forall|j: int| 0 <= j < i ==> ids@[j] != id,
        decreases ids@.len() - i,
    {
        if ids[i] == id {
            return true;
        }
        i = i + 1;
    }
    false
}

/// The event that a change of a parameter turns into. The values are the host's
/// normalized values in [0, 1]; a pitch bend stands for `(normalized - 0.5) * 4`
/// semitones and a program change for program `round(normalized * 127)`.
#[derive(Clone, Copy, Debug, PartialEq, Eq, Structural)]
pub enum ParameterChange {
    MidiPitchBend { sample_offset: usize, channel: u8, normalized: F64Bits },
    MidiChannelPressure { sample_offset: usize, channel: u8, value: F64Bits },
    MidiProgramChange { sample_offset: usize, channel: u8, normalized: F64Bits },
    MidiControlChange { sample_offset: usize, channel: u8, controller: u8, value: F64Bits },
    ParameterValue { sample_offset: usize, id: ParameterId, value: F64Bits },
}

/// What a change of parameter `id` to `value` at `sample_offset` turns into, given the
/// hidden parameters `params`.
pub open spec fn change_of(params: Map<ParameterId, MidiParameter>, id: ParameterId, value: F64Bits, sample_offset: usize) -> ParameterChange {
    if params.contains_key(id) {
        match params[id] {
            MidiParameter::PitchBend { channel } => ParameterChange::MidiPitchBend {
                sample_offset,
                channel,
                normalized: value,
            },
            MidiParameter::ChannelPressure { channel } => ParameterChange::MidiChannelPressure {
                sample_offset,
                channel,
                value,
            },
            MidiParameter::ProgramChange { channel } => ParameterChange::MidiProgramChange {
                sample_offset,
                channel,
                normalized: value,
            },
            MidiParameter::ControlChange { channel, controller } => ParameterChange::MidiControlChange {
                sample_offset,
                channel,
                controller,
                value,
            },
        }
    } else {
        ParameterChange::ParameterValue { sample_offset, id, value }
    }
}

/// A change keeps its sample offset and its value whatever it turns into: a change of an
/// id that is no hidden parameter stays a change of that id; a change of a hidden
/// parameter becomes the message of that parameter, on its channel (and for a control
/// change, its controller), with the normalized value as it came.
pub proof fn lemma_change_fields(params: Map<ParameterId, MidiParameter>, id: ParameterId, value: F64Bits, sample_offset: usize)
    ensures
        !params.contains_key(id) ==> change_of(params, id, value, sample_offset) == (ParameterChange::ParameterValue {
            sample_offset,
            id,
            value,
        }),
        params.contains_key(id) ==> match (params[id], change_of(params, id, value, sample_offset)) {
            (
                MidiParameter::PitchBend { channel: c },
                ParameterChange::MidiPitchBend { sample_offset: o, channel, normalized },
            ) => o == sample_offset && channel == c && normalized == value,
            (
                MidiParameter::ChannelPressure { channel: c },
                ParameterChange::MidiChannelPressure { sample_offset: o, channel, value: v },
            ) => o == sample_offset && channel == c && v == value,
            (
                MidiParameter::ProgramChange { channel: c },
                ParameterChange::MidiProgramChange { sample_offset: o, channel, normalized },
            ) => o == sample_offset && channel == c && normalized == value,
            (
                MidiParameter::ControlChange { channel: c, controller: cc },
                ParameterChange::MidiControlChange { sample_offset: o, channel, controller, value: v },
            ) => o == sample_offset && channel == c && controller == cc && v == value,
            _ => false,
        },
{
}

/// The hidden VST3 parameters which map to MIDI events, and their lookup tables.
pub struct MidiParameters {
    /// Hidden parameter ID -> MIDI event.
    parameters: HashMap<ParameterId, MidiParameter>,
    /// Key of the MIDI event -> hidden parameter ID.
    parameter_ids: HashMap<u32, ParameterId>,
}

impl MidiParameters {
    /// Hidden parameter id -> MIDI parameter.
    pub closed spec fn by_id(&self) -> Map<ParameterId, MidiParameter> {
        self.parameters@
    }

    /// Key of a MIDI parameter -> hidden parameter id.
    pub closed spec fn by_key(&self) -> Map<u32, ParameterId> {
        self.parameter_ids@
    }

    /// The two lookup tables are inverse to each other: every hidden parameter id leads to
    /// a MIDI parameter whose key leads back to the id, and every key leads to an id that
    /// leads back to a MIDI parameter with that key.
    pub open spec fn consistent(&self) -> bool {
        &&& forall|id: ParameterId| #[trigger] self.by_id().contains_key(id) ==> self.by_key().contains_key(self.by_id()[id].spec_key())
            && self.by_key()[self.by_id()[id].spec_key()] == id
        &&& forall|k: u32| #[trigger] self.by_key().contains_key(k) ==> self.by_id().contains_key(self.by_key()[k])
            && self.by_id()[self.by_key()[k]].spec_key() == k
    }

    /// A MIDI parameter that resolves to a hidden parameter id turns back into itself: a
    /// change of that id becomes the MIDI message of the parameter.
    pub proof fn lemma_round_trip(&self, p: MidiParameter, value: F64Bits, sample_offset: usize)
        requires
            self.consistent(),
            self.by_key().contains_key(p.spec_key()),
        ensures
            ({
                let id = self.by_key()[p.spec_key()];
                &&& self.by_id().contains_key(id)
                &&& self.by_id()[id] == p
                &&& change_of(self.by_id(), id, value, sample_offset) == match p {
                    MidiParameter::PitchBend { channel } => ParameterChange::MidiPitchBend {
                        sample_offset,
                        channel,
                        normalized: value,
                    },
                    MidiParameter::ChannelPressure { channel } => ParameterChange::MidiChannelPressure {
                        sample_offset,
                        channel,
                        value,
                    },
                    MidiParameter::ProgramChange { channel } => ParameterChange::MidiProgramChange {
                        sample_offset,
                        channel,
                        normalized: value,
                    },
                    MidiParameter::ControlChange { channel, controller } => ParameterChange::MidiControlChange {
                        sample_offset,
                        channel,
                        controller,
                        value,
                    },
                }
            }),
    {
        let id = self.by_key()[p.spec_key()];
        MidiParameter::lemma_key_injective(self.by_id()[id], p);
    }

    /// Distinct MIDI parameters never resolve to the same hidden parameter id.
    pub proof fn lemma_distinct_ids(&self, p: MidiParameter, q: MidiParameter)
        requires
            self.consistent(),
            self.by_key().contains_key(p.spec_key()),
            self.by_key().contains_key(q.spec_key()),
            p != q,
        ensures
            self.by_key()[p.spec_key()] != self.by_key()[q.spec_key()],
    {
        if self.by_key()[p.spec_key()] == self.by_key()[q.spec_key()] {
            MidiParameter::lemma_key_injective(p, q);
        }
    }

    /// Register the sixteen parameters of `blocks[b]`.
    fn alloc_block(
        &mut self,
        infos: &mut Vec<HiddenParameter>,
        user_ids: &[ParameterId],
        next_id: &mut u32,
        block: MidiBlock,
        Ghost(blocks): Ghost<Seq<MidiBlock>>,
        Ghost(b): Ghost<int>,
        Ghost(base): Ghost<Seq<HiddenParameter>>,
    )
        requires
            0 <= b < blocks.len(),
            blocks[b] == block,
            nth_free(user_ids@, 16 * blocks.len() - 1) < u32::MAX,
            old(infos)@ == base + hidden_parameters(user_ids@, blocks, 16 * b),
            *old(next_id) == search_start(user_ids@, 16 * b),
            old(self).by_id() == by_id(hidden_parameters(user_ids@, blocks, 16 * b)),
            old(self).by_key() == by_key(hidden_parameters(user_ids@, blocks, 16 * b)),
        ensures
            final(infos)@ == base + hidden_parameters(user_ids@, blocks, 16 * (b + 1)),
            *final(next_id) == search_start(user_ids@, 16 * (b + 1)),
            final(self).by_id() == by_id(hidden_parameters(user_ids@, blocks, 16 * (b + 1))),
            final(self).by_key() == by_key(hidden_parameters(user_ids@, blocks, 16 * (b + 1))),
    {
        let ghost user = user_ids@;
        let ghost total: int = 16 * (blocks.len() as int);
        let mut channel: u8 = 0;
        while channel < 16
            invariant
                channel <= 16,
                0 <= b < blocks.len(),
                blocks[b] == block,
                total == 16 * blocks.len(),
                user == user_ids@,
                nth_free(user, total - 1) < u32::MAX,
                infos@ == base + hidden_parameters(user, blocks, 16 * b + channel),
                *next_id == search_start(user, 16 * b + channel),
                self.by_id() == by_id(hidden_parameters(user, blocks, 16 * b + channel)),
                self.by_key() == by_key(hidden_parameters(user, blocks, 16 * b + channel)),
            decreases 16 - channel,
        {
            let ghost k: int = 16 * b + channel;
            proof {
                if k < total - 1 {
                    lemma_nth_free_increasing(user, k, total - 1);
                }
                lemma_next_free(user, search_start(user, k));
                if k > 0 {
                    lemma_nth_free_increasing(user, 0, k);
                }
            }
            while contains_id(user_ids, *next_id)
                invariant
                    user == user_ids@,
                    search_start(user, k) <= *next_id <= nth_free(user, k),
                    nth_free(user, k) == next_free(user, search_start(user, k)),
                    nth_free(user, k) < u32::MAX,
                    forall|x: u32| search_start(user, k) <= x < nth_free(user, k) ==> #[trigger] user.contains(x),
                    !user.contains(nth_free(user, k) as u32),
                decreases nth_free(user, k) - *next_id,
            {
                *next_id = *next_id + 1;
            }
            let parameter = block.on_channel(channel);
            let entry = HiddenParameter { id: *next_id, parameter };
            infos.push(entry);
            self.parameters.insert(*next_id, parameter);
            self.parameter_ids.insert(parameter.key(), *next_id);
            *next_id = *next_id + 1;
            proof {
                let before = hidden_parameters(user, blocks, k);
                let after = hidden_parameters(user, blocks, k + 1);
                assert(k / 16 == b && k % 16 == channel) by (nonlinear_arith)
                    requires
                        k == 16 * b + channel,
                        channel < 16,
                ;
                assert(after[k as int] == entry);
                assert(after.drop_last() =~= before);
                assert(after =~= before.push(entry));
            }
            channel = channel + 1;
        }
    }

    /// Creates hidden VST3 MIDI parameters for each MIDI message type enabled in
    /// `capabilities`.
    ///
    /// This also appends one hidden parameter per MIDI channel to `parameter_infos`, so 16
    /// parameters are added in total per enabled MIDI message type. The ids do not collide
    /// with `user_ids`: they are the smallest free ids from 1 on, in registration order.
    pub fn new(capabilities: &MidiCapabilities, user_ids: &[ParameterId], parameter_infos: &mut Vec<HiddenParameter>) -> (r: Self)
        requires
            ids_fit(user_ids@, capabilities@),
        ensures
            ({
                let blocks = midi_blocks(capabilities@);
                let added = hidden_parameters(user_ids@, blocks, 16 * (blocks.len() as int));
                &&& final(parameter_infos)@ == old(parameter_infos)@ + added
                &&& r.by_id() == by_id(added)
                &&& r.by_key() == by_key(added)
                &&& forall|i: int| #![trigger added[i]] 0 <= i < added.len() ==> {
                    &&& 1 <= added[i].id
                    &&& !user_ids@.contains(added[i].id)
                    &&& r.by_id().contains_key(added[i].id)
                    &&& r.by_id()[added[i].id] == added[i].parameter
                    &&& r.by_key().contains_key(added[i].parameter.spec_key())
                    &&& r.by_key()[added[i].parameter.spec_key()] == added[i].id
                }
                &&& forall|i: int, j: int| 0 <= i < j < added.len() ==> added[i].id < added[j].id
            }),
            forall|p: MidiParameter| #[trigger] r.by_key().contains_key(p.spec_key()) <==> wanted(capabilities@, p),
            r.consistent(),
    {
        let ghost blocks = midi_blocks(capabilities@);
        let ghost base = parameter_infos@;
        let ghost user = user_ids@;
        let mut next_id: u32 = 1;
        let mut midi_parameters = MidiParameters { parameters: HashMap::new(), parameter_ids: HashMap::new() };
        let mut b: usize = 0;
        proof {
            assert(hidden_parameters(user, blocks, 0) =~= Seq::<HiddenParameter>::empty());
            assert(parameter_infos@ =~= base + hidden_parameters(user, blocks, 0));
        }
        let ghost prefix = (if capabilities@.pitch_bend {
            seq![MidiBlock::PitchBend]
        } else {
            Seq::empty()
        }) + (if capabilities@.channel_pressure {
            seq![MidiBlock::ChannelPressure]
        } else {
            Seq::empty()
        }) + (if capabilities@.program_change {
            seq![MidiBlock::ProgramChange]
        } else {
            Seq::empty()
        });
        let ccs = capabilities.midi_control_changes();
        let ghost cc_blocks = ccs@.map_values(|controller: u8| MidiBlock::ControlChange { controller });
        assert(blocks =~= prefix + cc_blocks);
        if capabilities.midi_pitch_bend() {
            midi_parameters.alloc_block(
                parameter_infos,
                user_ids,
                &mut next_id,
                MidiBlock::PitchBend,
                Ghost(blocks),
                Ghost(b as int),
                Ghost(base),
            );
            b = b + 1;
        }
        if capabilities.midi_channel_pressure() {
            midi_parameters.alloc_block(
                parameter_infos,
                user_ids,
                &mut next_id,
                MidiBlock::ChannelPressure,
                Ghost(blocks),
                Ghost(b as int),
                Ghost(base),
            );
            b = b + 1;
        }
        if capabilities.midi_program_change() {
            midi_parameters.alloc_block(
                parameter_infos,
                user_ids,
                &mut next_id,
                MidiBlock::ProgramChange,
                Ghost(blocks),
                Ghost(b as int),
                Ghost(base),
            );
            b = b + 1;
        }
        assert(b == prefix.len());
        let mut i: usize = 0;
        while i < ccs.len()
            invariant
                i <= ccs@.len(),
                b == prefix.len() + i,
                blocks == prefix + cc_blocks,
                cc_blocks == ccs@.map_values(|controller: u8| MidiBlock::ControlChange { controller }),
                user == user_ids@,
                ids_fit(user, capabilities@),
                blocks == midi_blocks(capabilities@),
                parameter_infos@ == base + hidden_parameters(user, blocks, 16 * b),
                next_id == search_start(user, 16 * b),
                midi_parameters.by_id() == by_id(hidden_parameters(user, blocks, 16 * b)),
                midi_parameters.by_key() == by_key(hidden_parameters(user, blocks, 16 * b)),
            decreases ccs@.len() - i,
        {
            let controller = ccs[i];
            midi_parameters.alloc_block(
                parameter_infos,
                user_ids,
                &mut next_id,
                MidiBlock::ControlChange { controller },
                Ghost(blocks),
                Ghost(b as int),
                Ghost(base),
            );
            b = b + 1;
            i = i + 1;
        }
        proof {
            lemma_hidden_parameters(user, *capabilities);
            let list = hidden_parameters(user, blocks, 16 * (blocks.len() as int));
            assert(16 * b == 16 * (blocks.len() as int));
            assert forall|id: ParameterId| #[trigger] midi_parameters.by_id().contains_key(id) implies midi_parameters.by_key().contains_key(midi_parameters.by_id()[id].spec_key())
                && midi_parameters.by_key()[midi_parameters.by_id()[id].spec_key()] == id by {
                let i = choose|i: int| 0 <= i < list.len() && list[i].id == id;
                let _ = list[i];
            }
            assert forall|k: u32| #[trigger] midi_parameters.by_key().contains_key(k) implies midi_parameters.by_id().contains_key(midi_parameters.by_key()[k])
                && midi_parameters.by_id()[midi_parameters.by_key()[k]].spec_key() == k by {
                let i = choose|i: int| 0 <= i < list.len() && list[i].parameter.spec_key() == k;
                let _ = list[i];
            }
            assert forall|p: MidiParameter| wanted(capabilities@, p) implies #[trigger] midi_parameters.by_key().contains_key(p.spec_key()) by {
                let i = choose|i: int| 0 <= i < list.len() && (#[trigger] list[i]).parameter == p;
                let _ = list[i];
            }
        }
        midi_parameters
    }

    /// Clear all memorized parameters and ids.
    pub fn clear(&mut self)
        ensures
            final(self).by_id() == Map::<ParameterId, MidiParameter>::empty(),
            final(self).by_key() == Map::<u32, ParameterId>::empty(),
            final(self).consistent(),
    {
        self.parameters.clear();
        self.parameter_ids.clear();
    }

    /// Try to resolve the hidden parameter id which represents the given MIDI parameter.
    pub fn parameter_id(&self, midi_parameter: &MidiParameter) -> (r: Option<ParameterId>)
        ensures
            r == (if self.by_key().contains_key(midi_parameter.spec_key()) {
                Some(self.by_key()[midi_parameter.spec_key()])
            } else {
                None
            }),
    {
        let key = midi_parameter.key();
        match self.parameter_ids.get(&key) {
            Some(id) => Some(*id),
            None => None,
        }
    }

    /// Map a VST3 parameter change to what it stands for: a change of a hidden MIDI
    /// parameter becomes the MIDI event, any other id a change of a user parameter.
    pub fn parameter_change_to_event(&self, id: ParameterId, value: F64Bits, sample_offset: usize) -> (r: ParameterChange)
        ensures
            r == change_of(self.by_id(), id, value, sample_offset),
    {
        match self.parameters.get(&id) {
            Some(MidiParameter::PitchBend { channel }) => ParameterChange::MidiPitchBend {
                sample_offset,
                channel: *channel,
                normalized: value,
            },
            Some(MidiParameter::ChannelPressure { channel }) => ParameterChange::MidiChannelPressure {
                sample_offset,
                channel: *channel,
                value,
            },
            Some(MidiParameter::ProgramChange { channel }) => ParameterChange::MidiProgramChange {
                sample_offset,
                channel: *channel,
                normalized: value,
            },
            Some(MidiParameter::ControlChange { channel, controller }) => ParameterChange::MidiControlChange {
                sample_offset,
                channel: *channel,
                controller: *controller,
                value,
            },
            None => ParameterChange::ParameterValue { sample_offset, id, value },
        }
    }
}

} // verus!

verus! {

proof fn lemma_by_id_lookup(list: Seq<HiddenParameter>)
    requires
        forall|i: int, j: int| 0 <= i < list.len() && 0 <= j < list.len() && i != j ==> list[i].id != list[j].id,
    ensures
        forall|i: int| #![trigger list[i]] 0 <= i < list.len() ==> by_id(list).contains_key(list[i].id) && by_id(list)[list[i].id] == list[i].parameter,
        forall|id: ParameterId| #[trigger] by_id(list).contains_key(id) ==> exists|i: int| 0 <= i < list.len() && list[i].id == id,
    decreases list.len(),
{
    if list.len() > 0 {
        let init = list.drop_last();
        lemma_by_id_lookup(init);
        assert forall|i: int| #![trigger list[i]] 0 <= i < list.len() implies by_id(list).contains_key(list[i].id) && by_id(list)[list[i].id] == list[i].parameter by {
            if i < list.len() - 1 {
                assert(init[i] == list[i]);
            }
        }
        assert forall|id: ParameterId| #[trigger] by_id(list).contains_key(id) implies exists|i: int| 0 <= i < list.len() && list[i].id == id by {
            if id != list.last().id {
                assert(by_id(init).contains_key(id));
                let i = choose|i: int| 0 <= i < init.len() && init[i].id == id;
                assert(list[i] == init[i]);
            } else {
                assert(list[list.len() - 1].id == id);
            }
        }
    }
}

proof fn lemma_by_key_lookup(list: Seq<HiddenParameter>)
    requires
        forall|i: int, j: int| 0 <= i < list.len() && 0 <= j < list.len() && i != j ==> list[i].parameter != list[j].parameter,
    ensures
        forall|i: int| #![trigger list[i]] 0 <= i < list.len() ==> by_key(list).contains_key(list[i].parameter.spec_key()) && by_key(list)[list[i].parameter.spec_key()] == list[i].id,
        forall|k: u32| #[trigger] by_key(list).contains_key(k) ==> exists|i: int| 0 <= i < list.len() && list[i].parameter.spec_key() == k,
    decreases list.len(),
{
    if list.len() > 0 {
        let init = list.drop_last();
        lemma_by_key_lookup(init);
        assert forall|i: int| #![trigger list[i]] 0 <= i < list.len() implies by_key(list).contains_key(list[i].parameter.spec_key()) && by_key(list)[list[i].parameter.spec_key()] == list[i].id by {
            if i < list.len() - 1 {
                assert(init[i] == list[i]);
                if list[i].parameter.spec_key() == list.last().parameter.spec_key() {
                    MidiParameter::lemma_key_injective(list[i].parameter, list.last().parameter);
                }
            }
        }
        assert forall|k: u32| #[trigger] by_key(list).contains_key(k) implies exists|i: int| 0 <= i < list.len() && list[i].parameter.spec_key() == k by {
            if k != list.last().parameter.spec_key() {
                assert(by_key(init).contains_key(k));
                let i = choose|i: int| 0 <= i < init.len() && init[i].parameter.spec_key() == k;
                assert(list[i] == init[i]);
            } else {
                assert(list[list.len() - 1].parameter.spec_key() == k);
            }
        }
    }
}

/// The channel a MIDI parameter is on.
pub open spec fn parameter_channel(p: MidiParameter) -> u8 {
    match p {
        MidiParameter::PitchBend { channel } => channel,
        MidiParameter::ChannelPressure { channel } => channel,
        MidiParameter::ProgramChange { channel } => channel,
        MidiParameter::ControlChange { channel, .. } => channel,
    }
}

/// The block a MIDI parameter belongs to.
pub open spec fn parameter_block(p: MidiParameter) -> MidiBlock {
    match p {
        MidiParameter::PitchBend { .. } => MidiBlock::PitchBend,
        MidiParameter::ChannelPressure { .. } => MidiBlock::ChannelPressure,
        MidiParameter::ProgramChange { .. } => MidiBlock::ProgramChange,
        MidiParameter::ControlChange { controller, .. } => MidiBlock::ControlChange { controller },
    }
}

/// `caps` asks for a hidden parameter standing for `p`.
pub open spec fn wanted(caps: MidiCapabilitiesView, p: MidiParameter) -> bool {
    parameter_channel(p) < 16 && match p {
        MidiParameter::PitchBend { .. } => caps.pitch_bend,
        MidiParameter::ChannelPressure { .. } => caps.channel_pressure,
        MidiParameter::ProgramChange { .. } => caps.program_change,
        MidiParameter::ControlChange { controller, .. } => caps.control_changes.contains(controller),
    }
}


/// The position of a block in the registration order of all possible blocks.
pub open spec fn block_rank(b: MidiBlock) -> int {
    match b {
        MidiBlock::PitchBend => 0,
        MidiBlock::ChannelPressure => 1,
        MidiBlock::ProgramChange => 2,
        MidiBlock::ControlChange { controller } => 3 + controller,
    }
}

/// `caps` enables the messages of block `b`.
pub open spec fn block_enabled(caps: MidiCapabilitiesView, b: MidiBlock) -> bool {
    match b {
        MidiBlock::PitchBend => caps.pitch_bend,
        MidiBlock::ChannelPressure => caps.channel_pressure,
        MidiBlock::ProgramChange => caps.program_change,
        MidiBlock::ControlChange { controller } => caps.control_changes.contains(controller),
    }
}

/// The blocks of the three channel message types that `caps` enables.
pub open spec fn prefix_blocks(caps: MidiCapabilitiesView) -> Seq<MidiBlock> {
    (if caps.pitch_bend {
        seq![MidiBlock::PitchBend]
    } else {
        Seq::empty()
    }) + (if caps.channel_pressure {
        seq![MidiBlock::ChannelPressure]
    } else {
        Seq::empty()
    }) + (if caps.program_change {
        seq![MidiBlock::ProgramChange]
    } else {
        Seq::empty()
    })
}

proof fn lemma_prefix_blocks(caps: MidiCapabilitiesView)
    ensures
        ({
            let p = prefix_blocks(caps);
            &&& forall|i: int| 0 <= i < p.len() ==> block_rank(#[trigger] p[i]) < 3 && block_enabled(caps, p[i])
            &&& forall|i: int, j: int| 0 <= i < j < p.len() ==> block_rank(p[i]) < block_rank(p[j])
            &&& forall|b: MidiBlock| block_rank(b) < 3 && block_enabled(caps, b) ==> p.contains(b)
        }),
{
    let p = prefix_blocks(caps);
    let (a, b, c) = (MidiBlock::PitchBend, MidiBlock::ChannelPressure, MidiBlock::ProgramChange);
    if caps.pitch_bend {
        if caps.channel_pressure {
            if caps.program_change { assert(p =~= seq![a, b, c]); assert(p[0] == a && p[1] == b && p[2] == c); }
            else { assert(p =~= seq![a, b]); assert(p[0] == a && p[1] == b); }
        } else {
            if caps.program_change { assert(p =~= seq![a, c]); assert(p[0] == a && p[1] == c); }
            else { assert(p =~= seq![a]); assert(p[0] == a); }
        }
    } else {
        if caps.channel_pressure {
            if caps.program_change { assert(p =~= seq![b, c]); assert(p[0] == b && p[1] == c); }
            else { assert(p =~= seq![b]); assert(p[0] == b); }
        } else {
            if caps.program_change { assert(p =~= seq![c]); assert(p[0] == c); }
            else { assert(p =~= Seq::<MidiBlock>::empty()); }
        }
    }
}

/// The blocks are registered in ascending rank, and they are exactly the enabled ones.
pub proof fn lemma_midi_blocks(caps: MidiCapabilities)
    ensures
        ({
            let blocks = midi_blocks(caps@);
            &&& forall|i: int, j: int| 0 <= i < j < blocks.len() ==> block_rank(blocks[i]) < block_rank(blocks[j])
            &&& forall|i: int| 0 <= i < blocks.len() ==> block_enabled(caps@, #[trigger] blocks[i])
            &&& forall|b: MidiBlock| block_enabled(caps@, b) ==> blocks.contains(b)
        }),
{
    crate::midi_capabilities::lemma_ascending_control_changes(caps);
    lemma_prefix_blocks(caps@);
    let blocks = midi_blocks(caps@);
    let ccs = ascending_control_changes(caps@.control_changes);
    let prefix = prefix_blocks(caps@);
    let tail = ccs.map_values(|controller: u8| MidiBlock::ControlChange { controller });
    assert(blocks =~= prefix + tail);
    let pl = prefix.len() as int;
    assert forall|k: int| 0 <= k < tail.len() implies (#[trigger] tail[k]) == MidiBlock::ControlChange { controller: ccs[k] } && block_enabled(caps@, tail[k]) by {
        assert(ccs.contains(ccs[k]));
    }
    assert forall|i: int, j: int| 0 <= i < j < blocks.len() implies block_rank(blocks[i]) < block_rank(blocks[j]) by {
        if j < pl {
            assert(blocks[i] == prefix[i] && blocks[j] == prefix[j]);
        } else if i < pl {
            assert(blocks[i] == prefix[i] && blocks[j] == tail[j - pl]);
        } else {
            assert(blocks[i] == tail[i - pl] && blocks[j] == tail[j - pl]);
            assert(ccs[i - pl] < ccs[j - pl]);
        }
    }
    assert forall|i: int| 0 <= i < blocks.len() implies block_enabled(caps@, #[trigger] blocks[i]) by {
        if i < pl {
            assert(blocks[i] == prefix[i]);
        } else {
            assert(blocks[i] == tail[i - pl]);
        }
    }
    assert forall|b: MidiBlock| block_enabled(caps@, b) implies blocks.contains(b) by {
        match b {
            MidiBlock::ControlChange { controller } => {
                assert(ccs.contains(controller));
                let k = choose|k: int| 0 <= k < ccs.len() && ccs[k] == controller;
                assert(blocks[pl + k] == tail[k]);
            },
            _ => {
                let k = choose|k: int| 0 <= k < prefix.len() && prefix[k] == b;
                assert(blocks[k] == prefix[k]);
            },
        }
    }
}

proof fn lemma_hidden_ids(user: Seq<u32>, blocks: Seq<MidiBlock>, n: int)
    requires
        0 <= n,
        n > 0 ==> nth_free(user, n - 1) < u32::MAX,
    ensures
        ({
            let list = hidden_parameters(user, blocks, n);
            &&& forall|i: int| 0 <= i < list.len() ==> 1 <= (#[trigger] list[i]).id && !user.contains(list[i].id)
            &&& forall|i: int, j: int| 0 <= i < j < list.len() ==> list[i].id < list[j].id
        }),
{
    let list = hidden_parameters(user, blocks, n);
    assert forall|i: int| 0 <= i < list.len() implies 1 <= nth_free(user, i) < u32::MAX && list[i].id == nth_free(user, i) by {
        if i < n - 1 {
            lemma_nth_free_increasing(user, i, n - 1);
        }
        lemma_nth_free_bound(user, i);
    }
    assert forall|i: int| 0 <= i < list.len() implies 1 <= (#[trigger] list[i]).id && !user.contains(list[i].id) by {
        lemma_next_free(user, search_start(user, i));
        if i < n - 1 {
            lemma_nth_free_increasing(user, i, n - 1);
        }
        lemma_nth_free_bound(user, i);
    }
    assert forall|i: int, j: int| 0 <= i < j < list.len() implies list[i].id < list[j].id by {
        lemma_nth_free_increasing(user, i, j);
        if j < n - 1 {
            lemma_nth_free_increasing(user, j, n - 1);
        }
    }
}

proof fn lemma_block_channel(i: int, len: int)
    requires
        0 <= i < 16 * len,
    ensures
        0 <= i / 16 < len,
        0 <= i % 16 < 16,
        i == 16 * (i / 16) + i % 16,
{
    assert(0 <= i / 16 < len && 0 <= i % 16 < 16 && i == 16 * (i / 16) + i % 16) by (nonlinear_arith)
        requires
            0 <= i < 16 * len,
    ;
}

proof fn lemma_hidden_parameters_distinct(user: Seq<u32>, blocks: Seq<MidiBlock>)
    requires
        forall|i: int, j: int| 0 <= i < j < blocks.len() ==> block_rank(blocks[i]) < block_rank(blocks[j]),
    ensures
        ({
            let list = hidden_parameters(user, blocks, 16 * (blocks.len() as int));
            forall|i: int, j: int| 0 <= i < list.len() && 0 <= j < list.len() && i != j ==> list[i].parameter != list[j].parameter
        }),
{
    let n = 16 * (blocks.len() as int);
    let list = hidden_parameters(user, blocks, n);
    assert forall|i: int, j: int| 0 <= i < list.len() && 0 <= j < list.len() && i != j implies list[i].parameter != list[j].parameter by {
        lemma_block_channel(i, blocks.len() as int);
        lemma_block_channel(j, blocks.len() as int);
        let (bi, bj) = (i / 16, j / 16);
        if bi != bj {
            if bi < bj {
                assert(block_rank(blocks[bi]) < block_rank(blocks[bj]));
            } else {
                assert(block_rank(blocks[bj]) < block_rank(blocks[bi]));
            }
        }
    }
}

/// The hidden parameters that `MidiParameters::new` registers for `caps`:
/// - exactly one for each channel of each enabled message type and CC number,
/// - with ids from 1 on in ascending order, none of them among the user ids,
/// - and the two lookup tables map each of them to the other: a change of a hidden
///   parameter's id turns into its MIDI message, and its MIDI parameter resolves to its id.
pub proof fn lemma_hidden_parameters(user: Seq<u32>, caps: MidiCapabilities)
    requires
        ids_fit(user, caps@),
    ensures
        ({
            let blocks = midi_blocks(caps@);
            let list = hidden_parameters(user, blocks, 16 * (blocks.len() as int));
            &&& forall|p: MidiParameter| wanted(caps@, p) <==> exists|i: int| 0 <= i < list.len() && (#[trigger] list[i]).parameter == p
            &&& forall|i: int| 0 <= i < list.len() ==> 1 <= (#[trigger] list[i]).id && !user.contains(list[i].id)
            &&& forall|i: int, j: int| 0 <= i < j < list.len() ==> list[i].id < list[j].id
            &&& forall|i: int| #![trigger list[i]] 0 <= i < list.len() ==> by_id(list).contains_key(list[i].id) && by_id(list)[list[i].id] == list[i].parameter
            &&& forall|i: int| #![trigger list[i]] 0 <= i < list.len() ==> by_key(list).contains_key(list[i].parameter.spec_key()) && by_key(list)[list[i].parameter.spec_key()] == list[i].id
            &&& forall|id: ParameterId| #[trigger] by_id(list).contains_key(id) ==> exists|i: int| 0 <= i < list.len() && list[i].id == id
            &&& forall|k: u32| #[trigger] by_key(list).contains_key(k) ==> exists|i: int| 0 <= i < list.len() && list[i].parameter.spec_key() == k
            &&& forall|p: MidiParameter| #[trigger] by_key(list).contains_key(p.spec_key()) ==> wanted(caps@, p)
        }),
{
    let blocks = midi_blocks(caps@);
    let n: int = 16 * (blocks.len() as int);
    let list = hidden_parameters(user, blocks, n);
    lemma_midi_blocks(caps);
    lemma_hidden_ids(user, blocks, n);
    lemma_hidden_parameters_distinct(user, blocks);
    lemma_by_id_lookup(list);
    lemma_by_key_lookup(list);
    assert forall|p: MidiParameter| wanted(caps@, p) implies exists|i: int| 0 <= i < list.len() && (#[trigger] list[i]).parameter == p by {
        let blk = parameter_block(p);
        assert(block_enabled(caps@, blk));
        assert(blocks.contains(blk));
        let b = choose|b: int| 0 <= b < blocks.len() && blocks[b] == blk;
        let c = parameter_channel(p) as int;
        let i = 16 * b + c;
        lemma_block_channel(i, blocks.len() as int);
        assert(list[i].parameter == p);
    }
    assert forall|i: int| 0 <= i < list.len() implies wanted(caps@, (#[trigger] list[i]).parameter) by {
        lemma_block_channel(i, blocks.len() as int);
        assert(block_enabled(caps@, blocks[i / 16]));
    }
    assert forall|p: MidiParameter| #[trigger] by_key(list).contains_key(p.spec_key()) implies wanted(caps@, p) by {
        let i = choose|i: int| 0 <= i < list.len() && list[i].parameter.spec_key() == p.spec_key();
        MidiParameter::lemma_key_injective(list[i].parameter, p);
        assert(wanted(caps@, list[i].parameter));
    }
}

/// The order in which `MidiParameters::new` registers hidden parameters: block by block in
/// the order pitch bend, channel pressure, program change, then CC numbers ascending;
/// within a block channel 0 to 15. Each id is the smallest one that is free: not a user
/// id and not given to an earlier hidden parameter.
pub proof fn lemma_hidden_order(user: Seq<u32>, caps: MidiCapabilities)
    requires
        ids_fit(user, caps@),
    ensures
        ({
            let blocks = midi_blocks(caps@);
            let list = hidden_parameters(user, blocks, 16 * (blocks.len() as int));
            &&& list.len() == 16 * blocks.len()
            &&& forall|i: int| #![trigger list[i]] 0 <= i < list.len() ==> parameter_channel(list[i].parameter) == i % 16
                && parameter_block(list[i].parameter) == blocks[i / 16]
            &&& forall|i: int, j: int|
                #![trigger list[i], list[j]]
                0 <= i < j < list.len() ==> block_rank(parameter_block(list[i].parameter)) < block_rank(
                    parameter_block(list[j].parameter),
                ) || (parameter_block(list[i].parameter) == parameter_block(list[j].parameter)
                    && parameter_channel(list[i].parameter) < parameter_channel(list[j].parameter))
            &&& forall|i: int, x: u32|
                #![trigger list[i], user.contains(x)]
                0 <= i < list.len() && 1 <= x < list[i].id && !user.contains(x) ==> exists|j: int|
                    0 <= j < i && #[trigger] list[j].id == x
        }),
{
    let blocks = midi_blocks(caps@);
    let n: int = 16 * (blocks.len() as int);
    let list = hidden_parameters(user, blocks, n);
    lemma_midi_blocks(caps);
    assert forall|i: int| #![trigger list[i]] 0 <= i < list.len() implies parameter_channel(list[i].parameter) == i % 16
        && parameter_block(list[i].parameter) == blocks[i / 16] by {
        lemma_block_channel(i, blocks.len() as int);
    }
    assert forall|i: int, j: int|
        #![trigger list[i], list[j]]
        0 <= i < j < list.len() implies block_rank(parameter_block(list[i].parameter)) < block_rank(
            parameter_block(list[j].parameter),
        ) || (parameter_block(list[i].parameter) == parameter_block(list[j].parameter)
            && parameter_channel(list[i].parameter) < parameter_channel(list[j].parameter)) by {
        lemma_block_channel(i, blocks.len() as int);
        lemma_block_channel(j, blocks.len() as int);
        assert(i / 16 <= j / 16) by (nonlinear_arith)
            requires
                i < j,
                0 <= i,
        ;
        if i / 16 == j / 16 {
            assert(i % 16 < j % 16);
        }
    }
    assert forall|i: int, x: u32|
        #![trigger list[i], user.contains(x)]
        0 <= i < list.len() && 1 <= x < list[i].id && !user.contains(x) implies exists|j: int|
            0 <= j < i && #[trigger] list[j].id == x by {
        if i < n - 1 {
            lemma_nth_free_increasing(user, i, n - 1);
        }
        lemma_nth_free_bound(user, i);
        lemma_ids_smallest_free(user, i);
        let j = choose|j: int| 0 <= j < i && #[trigger] nth_free(user, j) == x;
        lemma_nth_free_bound(user, j);
        assert(list[j].id == x);
    }
}

} // verus!
