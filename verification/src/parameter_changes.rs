//! Walking the parameter changes that a VST3 host hands over for one processing block.
//!
//! The host gives one queue per changed parameter, each with points (sample offset, value)
//! in time order. The changes are handed out ordered by sample offset, and each becomes an
//! event through `MidiParameters::parameter_change_to_event`.
use vstd::prelude::*;

use crate::event::{F64Bits, ParameterId};
use crate::parameters::{change_of, MidiParameters, ParameterChange};

verus! {

/// The changes of one parameter within a block: `(sample_offset, normalized value)` points.
pub struct ParameterQueue {
    pub id: ParameterId,
    pub points: Vec<(usize, F64Bits)>,
}

/// How many of the first `k` points lie at offset `cur`.
pub open spec fn count_at(points: Seq<(usize, F64Bits)>, k: int, cur: usize) -> nat
    decreases k,
{
    if k <= 0 {
        0
    } else {
        count_at(points, k - 1, cur) + if points[k - 1].0 == cur {
            1nat
        } else {
            0nat
        }
    }
}

proof fn lemma_count_at_bound(points: Seq<(usize, F64Bits)>, k: int, cur: usize)
    requires
        0 <= k,
    ensures
        count_at(points, k, cur) <= k,
    decreases k,
{
    if k > 0 {
        lemma_count_at_bound(points, k - 1, cur);
    }
}

/// Point `k` of a queue can be handed out next when the walk stands at offset `cur` and
/// `index` points at `cur` have been handed out: it lies after `cur`, or it lies at `cur`
/// and at least `index` points at `cur` come before it in its queue.
pub open spec fn is_candidate(points: Seq<(usize, F64Bits)>, k: int, cur: usize, index: usize) -> bool {
    points[k].0 > cur || (points[k].0 == cur && count_at(points, k, cur) >= index)
}

/// Point `k` of queue `q` is a point.
pub open spec fn is_point(queues: Seq<ParameterQueue>, q: int, k: int) -> bool {
    0 <= q < queues.len() && 0 <= k < queues[q].points@.len()
}

pub open spec fn offset_of(queues: Seq<ParameterQueue>, q: int, k: int) -> usize {
    queues[q].points@[k].0
}

/// Point `k` of queue `q` is the one handed out next: of all candidates, it has the
/// smallest offset, and it comes first, queue by queue and point by point, among those
/// with that offset.
pub open spec fn is_next_point(queues: Seq<ParameterQueue>, cur: usize, index: usize, q: int, k: int) -> bool {
    &&& is_point(queues, q, k)
    &&& is_candidate(queues[q].points@, k, cur, index)
    &&& forall|q2: int, k2: int|
        #![trigger queues[q2].points@[k2]]
        is_point(queues, q2, k2) && is_candidate(queues[q2].points@, k2, cur, index) ==> offset_of(queues, q, k)
            < offset_of(queues, q2, k2) || (offset_of(queues, q, k) == offset_of(queues, q2, k2) && (q < q2 || (
        q == q2 && k <= k2)))
}

/// Some point can be handed out next.
pub open spec fn has_candidate(queues: Seq<ParameterQueue>, cur: usize, index: usize) -> bool {
    exists|q: int, k: int|
        #![trigger queues[q].points@[k]]
        is_point(queues, q, k) && is_candidate(queues[q].points@, k, cur, index)
}

/// The point handed out next is determined.
pub proof fn lemma_next_point_unique(queues: Seq<ParameterQueue>, cur: usize, index: usize, q1: int, k1: int, q2: int, k2: int)
    requires
        is_next_point(queues, cur, index, q1, k1),
        is_next_point(queues, cur, index, q2, k2),
    ensures
        q1 == q2 && k1 == k2,
{
    let _ = queues[q1].points@[k1];
    let _ = queues[q2].points@[k2];
}

/// The point handed out next never lies before the offset the walk stands at, and no point
/// after that offset has a smaller offset than it: the walk moves forward through the
/// block to the nearest later offset.
pub proof fn lemma_next_point_nearest(queues: Seq<ParameterQueue>, cur: usize, index: usize, q: int, k: int)
    requires
        is_next_point(queues, cur, index, q, k),
    ensures
        offset_of(queues, q, k) >= cur,
        forall|q2: int, k2: int|
            #![trigger queues[q2].points@[k2]]
            0 <= q2 < queues.len() && 0 <= k2 < queues[q2].points@.len() && queues[q2].points@[k2].0 > cur
                ==> offset_of(queues, q, k) <= queues[q2].points@[k2].0,
{
    let _ = queues[q].points@[k];
}

/// When some point lies after the offset the walk stands at, there is a point to hand out.
pub proof fn lemma_later_point_is_candidate(queues: Seq<ParameterQueue>, cur: usize, index: usize, q: int, k: int)
    requires
        0 <= q < queues.len(),
        0 <= k < queues[q].points@.len(),
        queues[q].points@[k].0 > cur,
    ensures
        has_candidate(queues, cur, index),
{
    assert(is_point(queues, q, k) && is_candidate(queues[q].points@, k, cur, index));
}

/// Hands out the parameter changes of one block, ordered by sample offset.
pub struct ParameterChangeIterator<'a> {
    parameter_changes: Option<Vec<ParameterQueue>>,
    midi_parameters: &'a MidiParameters,
    offset: usize,
    index: usize,
    finished: bool,
}

impl<'a> ParameterChangeIterator<'a> {
    pub closed spec fn queues(&self) -> Option<Seq<ParameterQueue>> {
        match self.parameter_changes {
            Some(v) => Some(v@),
            None => None,
        }
    }

    pub closed spec fn midi_parameters(&self) -> &'a MidiParameters {
        self.midi_parameters
    }

    /// The sample offset the walk stands at.
    pub closed spec fn offset(&self) -> usize {
        self.offset
    }

    /// How many changes at `offset` have been handed out since the walk reached it.
    pub closed spec fn index(&self) -> usize {
        self.index
    }

    /// The walk has ended.
    pub closed spec fn finished(&self) -> bool {
        self.finished
    }

    /// Start walking `parameter_changes` (`None` when the host gave none).
    pub fn new(parameter_changes: Option<Vec<ParameterQueue>>, midi_parameters: &'a MidiParameters) -> (r: Self)
        ensures
            r.queues() == match parameter_changes {
                Some(v) => Some(v@),
                None => None,
            },
            r.midi_parameters() == midi_parameters,
            r.offset() == 0,
            r.index() == 0,
            !r.finished(),
    {
        ParameterChangeIterator { parameter_changes, midi_parameters, offset: 0, index: 0, finished: false }
    }

    /// The next parameter change, or `None` once all have been handed out.
    ///
    /// The walk keeps the offset of the last change and how many were handed out at it.
    /// When a change lies after the current offset, the offset moves there and the count
    /// restarts at 0; otherwise the count goes up by one.
    pub fn next(&mut self) -> (r: Option<ParameterChange>)
        ensures
            final(self).queues() == old(self).queues(),
            final(self).midi_parameters() == old(self).midi_parameters(),
            final(self).offset() >= old(self).offset(),
            ({
                let cur = old(self).offset();
                let index = old(self).index();
                if old(self).finished() || old(self).queues() is None || old(self).queues().unwrap().len() == 0 {
                    &&& r is None
                    &&& final(self).offset() == cur
                    &&& final(self).index() == index
                    &&& final(self).finished() == old(self).finished()
                } else {
                    let queues = old(self).queues().unwrap();
                    if !has_candidate(queues, cur, index) {
                        &&& r is None
                        &&& final(self).finished()
                        &&& final(self).offset() == cur
                        &&& final(self).index() == index
                    } else {
                        exists|q: int, k: int|
                            #![trigger queues[q].points@[k]]
                            is_next_point(queues, cur, index, q, k) && {
                                let (off, value) = queues[q].points@[k];
                                &&& r == Some(change_of(old(self).midi_parameters().by_id(), queues[q].id, value, off))
                                &&& !final(self).finished()
                                &&& if off > cur {
                                    final(self).offset() == off && final(self).index() == 0
                                } else {
                                    final(self).offset() == cur && final(self).index() == index + 1
                                }
                            }
                    }
                }
            }),
    {
        if self.finished {
            return None;
        }
        let queues = match &self.parameter_changes {
            Some(queues) => queues,
            None => {
                return None;
            },
        };
        if queues.len() == 0 {
            return None;
        }
        let cur = self.offset;
        let index = self.index;
        let ghost qs = queues@;
        // The best point so far: (queue, point, offset, id, value).
        let mut best: Option<(usize, usize, usize, ParameterId, F64Bits)> = None;
        let mut q: usize = 0;
        while q < queues.len()
            invariant
                qs == queues@,
                q <= qs.len(),
                match best {
                    Some((bq, bk, boff, bid, bvalue)) => {
                        &&& bq < q
                        &&& is_point(qs, bq as int, bk as int)
                        &&& is_candidate(qs[bq as int].points@, bk as int, cur, index)
                        &&& qs[bq as int].points@[bk as int] == (boff, bvalue)
                        &&& qs[bq as int].id == bid
                        &&& forall|q2: int, k2: int|
                            #![trigger qs[q2].points@[k2]]
                            q2 < q && is_point(qs, q2, k2) && is_candidate(qs[q2].points@, k2, cur, index)
                                ==> boff < offset_of(qs, q2, k2) || (boff == offset_of(qs, q2, k2) && (bq < q2 || (bq == q2 && bk <= k2)))
                    },
                    None => forall|q2: int, k2: int|
                        #![trigger qs[q2].points@[k2]]
                        q2 < q && is_point(qs, q2, k2) ==> !is_candidate(qs[q2].points@, k2, cur, index),
                },
            decreases qs.len() - q,
        {
            let queue = &queues[q];
            let ghost points = queue.points@;
            let mut nth: usize = 0;
            let mut k: usize = 0;
            while k < queue.points.len()
                invariant
                    qs == queues@,
                    q < qs.len(),
                    points == qs[q as int].points@,
                    queue == &qs[q as int],
                    k <= points.len(),
                    nth == if count_at(points, k as int, cur) < index { count_at(points, k as int, cur) } else { index as nat },
                    match best {
                        Some((bq, bk, boff, bid, bvalue)) => {
                            &&& bq <= q
                            &&& (bq == q ==> bk < k)
                            &&& is_point(qs, bq as int, bk as int)
                            &&& is_candidate(qs[bq as int].points@, bk as int, cur, index)
                            &&& qs[bq as int].points@[bk as int] == (boff, bvalue)
                            &&& qs[bq as int].id == bid
                            &&& forall|q2: int, k2: int|
                                #![trigger qs[q2].points@[k2]]
                                (q2 < q || (q2 == q && k2 < k)) && is_point(qs, q2, k2) && is_candidate(qs[q2].points@, k2, cur, index)
                                    ==> boff < offset_of(qs, q2, k2) || (boff == offset_of(qs, q2, k2) && (bq < q2 || (bq == q2 && bk <= k2)))
                        },
                        None => forall|q2: int, k2: int|
                            #![trigger qs[q2].points@[k2]]
                            (q2 < q || (q2 == q && k2 < k)) && is_point(qs, q2, k2) ==> !is_candidate(qs[q2].points@, k2, cur, index),
                    },
                decreases points.len() - k,
            {
                let (point_offset, value) = queue.points[k];
                let candidate = if point_offset == cur {
                    if nth >= index {
                        true
                    } else {
                        nth = nth + 1;
                        false
                    }
                } else {
                    point_offset > cur
                };
                proof {
                    assert(points[k as int] == (point_offset, value));
                    assert(candidate == is_candidate(points, k as int, cur, index));
                }
                if candidate {
                    let better = match best {
                        Some((_, _, boff, _, _)) => point_offset < boff,
                        None => true,
                    };
                    if better {
                        best = Some((q, k, point_offset, queue.id, value));
                    }
                }
                k = k + 1;
            }
            q = q + 1;
        }
        match best {
            None => {
                self.finished = true;
                proof {
                    assert forall|q2: int, k2: int|
                        #![trigger qs[q2].points@[k2]]
                        is_point(qs, q2, k2) implies !is_candidate(qs[q2].points@, k2, cur, index) by {
                    }
                }
                None
            },
            Some((bq, bk, point_offset, id, value)) => {
                let points_in_queue = queues[bq].points.len();
                assert(points_in_queue == qs[bq as int].points@.len());
                if point_offset > self.offset {
                    self.offset = point_offset;
                    self.index = 0;
                } else {
                    proof {
                        let pts = qs[bq as int].points@;
                        lemma_count_at_bound(pts, bk as int, cur);
                        assert(is_candidate(pts, bk as int, cur, index));
                        assert(pts[bk as int].0 == point_offset);
                        assert(count_at(pts, bk as int, cur) >= index);
                        assert(bk < pts.len());
                    }
                    self.index = self.index + 1;
                }
                let change = self.midi_parameters.parameter_change_to_event(id, value, point_offset);
                proof {
                    let _ = qs[bq as int].points@[bk as int];
                    assert(is_next_point(qs, cur, index, bq as int, bk as int));
                }
                Some(change)
            },
        }
    }
}

} // verus!
