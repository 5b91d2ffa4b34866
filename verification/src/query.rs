//! Queries against the distance kernel: the batch that goes out, the events
//! that come back, and the one event that stands for a whole batch.
//!
//! The kernel itself runs elsewhere. The registry builds its input, the caller
//! dispatches it, and the registry turns the reply into events.

use vstd::prelude::*;
use crate::fixed::ONE;
use crate::sdf_controller::{copy_vec4, SdfController};
use crate::slots::{shown, SdfError, Slots};
use crate::vector::{Vec3, Vec4};

verus! {

/// The input of one kernel run.
pub struct KernelBatch {
    /// The query points; a shapecast carries the displacement as one more.
    pub points: Vec<Vec4>,
    /// The position array of the registry.
    pub positions: Vec<Vec4>,
    /// The property array of the registry.
    pub properties: Vec<Vec4>,
    /// The scalar parameters: the blend factor.
    pub params: Vec<i32>,
}

impl KernelBatch {
    /// Whether the batch carries the arrays of `slots` and the blend factor.
    pub open spec fn carries(&self, slots: Slots, blend: i32) -> bool {
        &&& self.positions@ == Seq::new(slots.len(), |i: int| shown(slots[i]).position)
        &&& self.properties@ == Seq::new(slots.len(), |i: int| shown(slots[i]).properties)
        &&& self.params@ == seq![blend]
    }
}

/// What came back from the kernel.
pub enum KernelReply {
    /// The kernel could not be reached.
    Unavailable,
    /// The output buffer, four scalars for every point of the batch.
    Output(Vec<i32>),
}

/// The `i`-th group of four scalars as an event.
pub open spec fn event_at(output: Seq<i32>, i: int) -> Vec4 {
    Vec4 { x: output[4 * i], y: output[4 * i + 1], z: output[4 * i + 2], w: output[4 * i + 3] }
}

/// The first `n` events of an output buffer.
pub open spec fn unpack(output: Seq<i32>, n: nat) -> Seq<Vec4> {
    Seq::new(n, |i: int| event_at(output, i))
}

/// The events of a query of `n` points whose batch held `sent` points: the
/// reply must hold exactly four scalars for each point sent.
pub open spec fn events_of(reply: KernelReply, n: nat, sent: nat) -> Result<Seq<Vec4>, SdfError> {
    match reply {
        KernelReply::Unavailable => Err(SdfError::KernelUnavailable),
        KernelReply::Output(output) => if output@.len() == 4 * sent {
            Ok(unpack(output@, n))
        } else {
            Err(SdfError::KernelUnavailable)
        },
    }
}

/// Whether a result is the given one, the events compared by their view.
pub open spec fn is_result(r: Result<Vec<Vec4>, SdfError>, expected: Result<Seq<Vec4>, SdfError>) -> bool {
    match r {
        Ok(events) => expected == Ok::<Seq<Vec4>, SdfError>(events@),
        Err(e) => expected == Err::<Seq<Vec4>, SdfError>(e),
    }
}

/// Reads `n` events from the front of an output buffer.
fn unpack_events(output: &Vec<i32>, n: usize) -> (events: Vec<Vec4>)
    requires
        4 * n <= output@.len(),
    ensures
        events@ == unpack(output@, n as nat),
{
    let mut events: Vec<Vec4> = Vec::new();
    let mut i: usize = 0;
    while i < n
        invariant
            i <= n,
            4 * n <= output.len(),
            events@ == unpack(output@, i as nat),
        decreases n - i,
    {
        let e = Vec4::new(output[4 * i], output[4 * i + 1], output[4 * i + 2], output[4 * i + 3]);
        events.push(e);
        proof {
            assert(events@ =~= unpack(output@, (i + 1) as nat));
        }
        i = i + 1;
    }
    events
}

impl SdfController {
    /// The batch of a collision query: the points as given, and the registry
    /// as it stands.
    pub fn collision_batch(&self, points: &Vec<Vec4>) -> (batch: KernelBatch)
        requires
            self.wf(),
        ensures
            batch.points@ == points@,
            batch.carries(self@, self.blend_spec()),
    {
        let snapshot = self.snapshot();
        let mut params: Vec<i32> = Vec::new();
        params.push(self.blend_factor());
        proof {
            assert(params@ =~= seq![self.blend_spec()]);
        }
        KernelBatch {
            points: copy_vec4(points),
            positions: snapshot.positions,
            properties: snapshot.properties,
            params,
        }
    }

    /// The batch of a shapecast: the points followed by the displacement that
    /// each of them is swept by.
    pub fn shapecast_batch(&self, points: &Vec<Vec4>, velocity: Vec4) -> (batch: KernelBatch)
        requires
            self.wf(),
        ensures
            batch.points@ == points@.push(velocity),
            batch.carries(self@, self.blend_spec()),
    {
        let mut batch = self.collision_batch(points);
        batch.points.push(velocity);
        batch
    }

    /// The collision events of `points`, one for each point and in the same
    /// order, read from the kernel's reply to `collision_batch(points)`.
    /// Nothing is made up: every event is the four scalars that the kernel
    /// wrote for its point.
    pub fn compute_collision(&self, points: &Vec<Vec4>, reply: &KernelReply) -> (r: Result<
        Vec<Vec4>,
        SdfError,
    >)
        ensures
            is_result(r, events_of(*reply, points@.len(), points@.len())),
    {
        match reply {
            KernelReply::Unavailable => Err(SdfError::KernelUnavailable),
            KernelReply::Output(output) => {
                let n = points.len();
                if output.len() % 4 != 0 || output.len() / 4 != n {
                    Err(SdfError::KernelUnavailable)
                } else {
                    Ok(unpack_events(output, n))
                }
            },
        }
    }

    /// The shapecast events of `points`, read from the kernel's reply to
    /// `shapecast_batch(points, velocity)`. The reply holds one group more
    /// than there are points, for the displacement, and that group is dropped.
    pub fn compute_shapecast(&self, points: &Vec<Vec4>, reply: &KernelReply) -> (r: Result<
        Vec<Vec4>,
        SdfError,
    >)
        ensures
            is_result(r, events_of(*reply, points@.len(), points@.len() + 1)),
    {
        match reply {
            KernelReply::Unavailable => Err(SdfError::KernelUnavailable),
            KernelReply::Output(output) => {
                let n = points.len();
                if output.len() % 4 != 0 || output.len() / 4 == 0 || output.len() / 4 - 1 != n {
                    Err(SdfError::KernelUnavailable)
                } else {
                    Ok(unpack_events(output, n))
                }
            },
        }
    }
}

/// Whether a collision event reports an overlap.
pub open spec fn is_hit(e: Vec4) -> bool {
    e.w < 0
}

/// Whether `k` is the deepest overlap of the batch, and the first of its depth.
pub open spec fn is_deepest(events: Seq<Vec4>, k: int) -> bool {
    &&& 0 <= k < events.len()
    &&& is_hit(events[k])
    &&& forall|j: int| 0 <= j < events.len() ==> events[k].w <= (#[trigger] events[j]).w
    &&& forall|j: int| 0 <= j < k ==> events[k].w < (#[trigger] events[j]).w
}

/// Whether a shapecast event reports an impact within the step: a normal that
/// is not zero and a fraction below one.
pub open spec fn is_impact(e: Vec4) -> bool {
    e.xyz_spec() != Vec3::zero_spec() && e.w < ONE
}

/// Whether `k` is the earliest impact of the batch, and the first of its
/// fraction.
pub open spec fn is_earliest(events: Seq<Vec4>, k: int) -> bool {
    &&& 0 <= k < events.len()
    &&& is_impact(events[k])
    &&& forall|j: int|
        0 <= j < events.len() && is_impact(#[trigger] events[j]) ==> events[k].w <= events[j].w
    &&& forall|j: int| 0 <= j < k && is_impact(#[trigger] events[j]) ==> events[k].w < events[j].w
}

/// The event that says that nothing was hit within the step.
pub open spec fn no_impact_spec() -> Vec4 {
    Vec4 { x: 0, y: 0, z: 0, w: ONE }
}

#[verifier::when_used_as_spec(no_impact_spec)]
pub fn no_impact() -> (r: Vec4)
    ensures
        r == no_impact_spec(),
{
    Vec4 { x: 0, y: 0, z: 0, w: ONE }
}

/// The event that stands for a batch of collision events, as a value.
pub open spec fn deepest_spec(events: Seq<Vec4>) -> Option<Vec4> {
    if exists|k: int| is_deepest(events, k) {
        Some(events[choose|k: int| is_deepest(events, k)])
    } else {
        None
    }
}

/// The event that stands for a batch of shapecast events, as a value.
pub open spec fn earliest_spec(events: Seq<Vec4>) -> Vec4 {
    if exists|k: int| is_earliest(events, k) {
        events[choose|k: int| is_earliest(events, k)]
    } else {
        no_impact_spec()
    }
}

/// Only one index is the deepest overlap.
pub proof fn lemma_deepest_unique(events: Seq<Vec4>, a: int, b: int)
    requires
        is_deepest(events, a),
        is_deepest(events, b),
    ensures
        a == b,
{
    if a < b {
        assert(events[b].w < events[a].w);
        assert(events[a].w <= events[b].w);
    } else if b < a {
        assert(events[a].w < events[b].w);
        assert(events[b].w <= events[a].w);
    }
}

/// Only one index is the earliest impact.
pub proof fn lemma_earliest_unique(events: Seq<Vec4>, a: int, b: int)
    requires
        is_earliest(events, a),
        is_earliest(events, b),
    ensures
        a == b,
{
    if a < b {
        assert(is_impact(events[a]));
        assert(events[b].w < events[a].w);
        assert(is_impact(events[b]));
        assert(events[a].w <= events[b].w);
    } else if b < a {
        assert(is_impact(events[b]));
        assert(events[a].w < events[b].w);
        assert(is_impact(events[a]));
        assert(events[b].w <= events[a].w);
    }
}

/// Where the kernel reports no overlap for any point, the query reports none
/// either: every event has a depth of zero or more, and no event stands for
/// the batch.
pub proof fn lemma_no_overlap_no_collision(output: Seq<i32>, n: nat)
    requires
        forall|i: int| 0 <= i < n ==> (#[trigger] event_at(output, i)).w >= 0,
    ensures
        forall|i: int| 0 <= i < n ==> (#[trigger] unpack(output, n)[i]).w >= 0,
        deepest_spec(unpack(output, n)) is None,
{
    let events = unpack(output, n);
    assert forall|i: int| 0 <= i < n implies (#[trigger] events[i]).w >= 0 by {
        assert(events[i] == event_at(output, i));
    }
    if exists|k: int| is_deepest(events, k) {
        let k = choose|k: int| is_deepest(events, k);
        assert(events[k].w >= 0);
    }
}

/// Where every point travels its whole way, the event that stands for the
/// batch says so.
pub proof fn lemma_no_impact(events: Seq<Vec4>)
    requires
        forall|i: int| 0 <= i < events.len() ==> (#[trigger] events[i]).w >= ONE,
    ensures
        earliest_spec(events) == no_impact_spec(),
{
    if exists|k: int| is_earliest(events, k) {
        let k = choose|k: int| is_earliest(events, k);
        assert(events[k].w >= ONE);
    }
}

/// The index of the deepest overlap, or `None` where no point overlaps.
pub fn deepest_index(events: &Vec<Vec4>) -> (r: Option<usize>)
    ensures
        match r {
            Some(k) => is_deepest(events@, k as int),
            None => forall|j: int| 0 <= j < events@.len() ==> !is_hit(#[trigger] events@[j]),
        },
{
    let mut best: Option<usize> = None;
    let mut i: usize = 0;
    while i < events.len()
        invariant
            i <= events.len(),
            match best {
                Some(k) => is_deepest(events@.take(i as int), k as int),
                None => forall|j: int| 0 <= j < i ==> !is_hit(#[trigger] events@[j]),
            },
        decreases events.len() - i,
    {
        let ghost before = events@.take(i as int);
        let ghost after = events@.take(i + 1);
        proof {
            assert(forall|j: int| 0 <= j < i ==> before[j] == after[j]);
            assert(after[i as int] == events@[i as int]);
        }
        let better = events[i].w < 0 && match best {
            Some(k) => events[i].w < events[k].w,
            None => true,
        };
        if better {
            proof {
                match best {
                    Some(k) => {
                        assert(before[k as int] == events@[k as int]);
                        assert forall|j: int| 0 <= j < i implies events@[i as int].w
                            < (#[trigger] after[j]).w by {
                            assert(before[k as int].w <= before[j].w);
                        }
                    },
                    None => {
                        assert forall|j: int| 0 <= j < i implies events@[i as int].w
                            < (#[trigger] after[j]).w by {
                            assert(!is_hit(events@[j]));
                        }
                    },
                }
            }
            best = Some(i);
        } else {
            proof {
                match best {
                    Some(k) => {
                        assert(before[k as int] == after[k as int]);
                        assert forall|j: int| 0 <= j < after.len() implies after[k as int].w <= (
                        #[trigger] after[j]).w by {
                            if j < i {
                                assert(before[k as int].w <= before[j].w);
                            }
                        }
                        assert forall|j: int| 0 <= j < k implies after[k as int].w < (
                        #[trigger] after[j]).w by {
                            assert(before[k as int].w < before[j].w);
                        }
                    },
                    None => {},
                }
            }
        }
        i = i + 1;
    }
    proof {
        assert(events@.take(events@.len() as int) =~= events@);
    }
    best
}

/// The one event that stands for a batch of collision events: the deepest
/// overlap, or `None` where no point overlaps anything.
pub fn deepest_collision(events: &Vec<Vec4>) -> (r: Option<Vec4>)
    ensures
        r == deepest_spec(events@),
        match r {
            Some(e) => exists|k: int| is_deepest(events@, k) && events@[k] == e,
            None => forall|j: int| 0 <= j < events@.len() ==> (#[trigger] events@[j]).w >= 0,
        },
{
    match deepest_index(events) {
        Some(k) => {
            proof {
                let c = choose|c: int| is_deepest(events@, c);
                lemma_deepest_unique(events@, k as int, c);
            }
            Some(events[k])
        },
        None => {
            proof {
                if exists|c: int| is_deepest(events@, c) {
                    let c = choose|c: int| is_deepest(events@, c);
                    assert(!is_hit(events@[c]));
                }
                assert forall|j: int| 0 <= j < events@.len() implies (#[trigger] events@[j]).w
                    >= 0 by {
                    assert(!is_hit(events@[j]));
                }
            }
            None
        },
    }
}

/// The index of the earliest impact, or `None` where no point hits anything
/// within the step.
pub fn earliest_index(events: &Vec<Vec4>) -> (r: Option<usize>)
    ensures
        match r {
            Some(k) => is_earliest(events@, k as int),
            None => forall|j: int| 0 <= j < events@.len() ==> !is_impact(#[trigger] events@[j]),
        },
{
    let mut best: Option<usize> = None;
    let mut i: usize = 0;
    while i < events.len()
        invariant
            i <= events.len(),
            match best {
                Some(k) => is_earliest(events@.take(i as int), k as int),
                None => forall|j: int| 0 <= j < i ==> !is_impact(#[trigger] events@[j]),
            },
        decreases events.len() - i,
    {
        let ghost before = events@.take(i as int);
        let ghost after = events@.take(i + 1);
        proof {
            assert(forall|j: int| 0 <= j < i ==> before[j] == after[j]);
            assert(after[i as int] == events@[i as int]);
        }
        let e = events[i];
        let degenerate = e.x == 0 && e.y == 0 && e.z == 0;
        let better = !degenerate && e.w < ONE && match best {
            Some(k) => e.w < events[k].w,
            None => true,
        };
        if better {
            proof {
                match best {
                    Some(k) => {
                        assert(before[k as int] == events@[k as int]);
                        assert forall|j: int| 0 <= j < i && is_impact(
                            #[trigger] after[j],
                        ) implies e.w < after[j].w by {
                            assert(is_impact(before[j]));
                        }
                    },
                    None => {
                        assert forall|j: int| 0 <= j < i && is_impact(
                            #[trigger] after[j],
                        ) implies e.w < after[j].w by {
                            assert(!is_impact(events@[j]));
                        }
                    },
                }
            }
            best = Some(i);
        } else {
            proof {
                match best {
                    Some(k) => {
                        assert(before[k as int] == after[k as int]);
                        assert forall|j: int| 0 <= j < after.len() && is_impact(
                            #[trigger] after[j],
                        ) implies after[k as int].w <= after[j].w by {
                            if j < i {
                                assert(is_impact(before[j]));
                            }
                        }
                        assert forall|j: int| 0 <= j < k && is_impact(
                            #[trigger] after[j],
                        ) implies after[k as int].w < after[j].w by {
                            assert(is_impact(before[j]));
                        }
                    },
                    None => {},
                }
            }
        }
        i = i + 1;
    }
    proof {
        assert(events@.take(events@.len() as int) =~= events@);
    }
    best
}

/// The one event that stands for a batch of shapecast events: the earliest
/// impact, or the no-impact event where every point travels its whole way.
pub fn earliest_impact(events: &Vec<Vec4>) -> (r: Vec4)
    ensures
        r == earliest_spec(events@),
        (exists|k: int| is_earliest(events@, k) && events@[k] == r) || (r == no_impact_spec()
            && forall|j: int| 0 <= j < events@.len() ==> !is_impact(#[trigger] events@[j])),
{
    match earliest_index(events) {
        Some(k) => {
            proof {
                let c = choose|c: int| is_earliest(events@, c);
                lemma_earliest_unique(events@, k as int, c);
            }
            events[k]
        },
        None => {
            proof {
                if exists|c: int| is_earliest(events@, c) {
                    let c = choose|c: int| is_earliest(events@, c);
                    assert(!is_impact(events@[c]));
                }
            }
            no_impact()
        },
    }
}

} // verus!
