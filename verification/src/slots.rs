//! The registry as mathematics: a sequence of slots, the operations on it,
//! and what holds of every sequence of operations.

use vstd::prelude::*;
use crate::vector::Vec4;

verus! {

/// One entry of the registry.
#[derive(Clone, Copy, Debug, PartialEq, Eq, Structural)]
pub struct Shape {
    /// World position, and the behavior flag in `w`.
    pub position: Vec4,
    /// Size parameters, and the shape-type tag in `w`.
    pub properties: Vec4,
    /// Colour, and the render flag in `w`.
    pub color: Vec4,
}

/// What can go wrong in the registry and at the kernel boundary.
#[derive(Clone, Copy, Debug, PartialEq, Eq, Structural)]
pub enum SdfError {
    /// Every slot is occupied.
    RegistryFull,
    /// The address is out of range, or names a free slot on update.
    InvalidAddress,
    /// The slot to release is already free.
    DoubleFree,
    /// The kernel gave no reply, or one of the wrong size.
    KernelUnavailable,
}

/// The registry as a sequence of slots in address order.
pub type Slots = Seq<Option<Shape>>;

/// The number of occupied slots.
pub open spec fn occupied_count(slots: Slots) -> nat
    decreases slots.len(),
{
    if slots.len() == 0 {
        0
    } else {
        occupied_count(slots.drop_last()) + if slots.last() is Some {
            1nat
        } else {
            0nat
        }
    }
}

/// Whether `a` is free and every lower address is occupied.
pub open spec fn is_lowest_free(slots: Slots, a: int) -> bool {
    &&& 0 <= a < slots.len()
    &&& slots[a] is None
    &&& forall|j: int| 0 <= j < a ==> (#[trigger] slots[j]) is Some
}

/// Whether any slot is free.
pub open spec fn has_free(slots: Slots) -> bool {
    exists|i: int| 0 <= i < slots.len() && (#[trigger] slots[i]) is None
}

/// The shape that the flat arrays show at a slot: a free slot reads as zeros.
pub open spec fn shown(slot: Option<Shape>) -> Shape {
    match slot {
        Some(s) => s,
        None => Shape {
            position: Vec4::zero_spec(),
            properties: Vec4::zero_spec(),
            color: Vec4::zero_spec(),
        },
    }
}

/// No more slots are occupied than there are.
pub proof fn lemma_count_bounded(slots: Slots)
    ensures
        occupied_count(slots) <= slots.len(),
    decreases slots.len(),
{
    if slots.len() > 0 {
        lemma_count_bounded(slots.drop_last());
    }
}

/// The count reaches the length exactly when no slot is free.
pub proof fn lemma_count_full(slots: Slots)
    ensures
        occupied_count(slots) == slots.len() <==> !has_free(slots),
    decreases slots.len(),
{
    if slots.len() > 0 {
        let front = slots.drop_last();
        lemma_count_full(front);
        lemma_count_bounded(front);
        if has_free(front) {
            let i = choose|i: int| 0 <= i < front.len() && (#[trigger] front[i]) is None;
            assert(slots[i] is None);
        }
        if has_free(slots) {
            let i = choose|i: int| 0 <= i < slots.len() && (#[trigger] slots[i]) is None;
            if i < front.len() {
                assert(front[i] is None);
            }
        } else if slots.last() is None {
            assert(slots[slots.len() - 1] is None);
        }
    }
}

/// Writing one slot changes the count by what that slot gains or loses.
pub proof fn lemma_count_update(slots: Slots, a: int, slot: Option<Shape>)
    requires
        0 <= a < slots.len(),
    ensures
        occupied_count(slots.update(a, slot)) + (if slots[a] is Some {
            1nat
        } else {
            0nat
        }) == occupied_count(slots) + (if slot is Some {
            1nat
        } else {
            0nat
        }),
    decreases slots.len(),
{
    let after = slots.update(a, slot);
    if a == slots.len() - 1 {
        assert(after.drop_last() =~= slots.drop_last());
    } else {
        lemma_count_update(slots.drop_last(), a, slot);
        assert(after.drop_last() =~= slots.drop_last().update(a, slot));
    }
}

/// A registry without an occupied slot counts zero.
pub proof fn lemma_count_empty(slots: Slots)
    requires
        forall|i: int| 0 <= i < slots.len() ==> (#[trigger] slots[i]) is None,
    ensures
        occupied_count(slots) == 0,
    decreases slots.len(),
{
    if slots.len() > 0 {
        lemma_count_empty(slots.drop_last());
    }
}


/// The address that an allocation takes: the lowest free one.
pub open spec fn lowest_free(slots: Slots) -> int {
    choose|a: int| is_lowest_free(slots, a)
}

/// The slots after an allocation: the lowest free slot takes the shape, and a
/// full registry stays as it is.
pub open spec fn after_allocate(slots: Slots, shape: Shape) -> Slots {
    if has_free(slots) {
        slots.update(lowest_free(slots), Some(shape))
    } else {
        slots
    }
}

/// What a release answers.
pub open spec fn release_result(slots: Slots, a: int) -> Result<(), SdfError> {
    if a < 0 || a >= slots.len() {
        Err(SdfError::InvalidAddress)
    } else if slots[a] is None {
        Err(SdfError::DoubleFree)
    } else {
        Ok(())
    }
}

/// The slots after a release: an occupied slot becomes free, and a refused
/// release changes nothing.
pub open spec fn after_release(slots: Slots, a: int) -> Slots {
    if release_result(slots, a) is Ok {
        slots.update(a, None)
    } else {
        slots
    }
}

/// One call on the registry.
pub enum RegistryOp {
    Allocate(Shape),
    Release(usize),
}

/// The slots after one call.
pub open spec fn after_op(slots: Slots, op: RegistryOp) -> Slots {
    match op {
        RegistryOp::Allocate(shape) => after_allocate(slots, shape),
        RegistryOp::Release(a) => after_release(slots, a as int),
    }
}

/// The slots after a sequence of calls, first to last.
pub open spec fn after_ops(slots: Slots, ops: Seq<RegistryOp>) -> Slots
    decreases ops.len(),
{
    if ops.len() == 0 {
        slots
    } else {
        after_op(after_ops(slots, ops.drop_last()), ops.last())
    }
}

/// Only one address is the lowest free one.
pub proof fn lemma_lowest_free_unique(slots: Slots, a: int)
    requires
        is_lowest_free(slots, a),
    ensures
        has_free(slots),
        lowest_free(slots) == a,
{
    let b = lowest_free(slots);
    assert(is_lowest_free(slots, b));
    if a < b {
        assert(slots[a] is Some);
    } else if b < a {
        assert(slots[b] is Some);
    }
}

/// Where a slot is free, some address is the lowest free one.
pub proof fn lemma_lowest_free_exists(slots: Slots)
    requires
        has_free(slots),
    ensures
        is_lowest_free(slots, lowest_free(slots)),
{
    let i = choose|i: int| 0 <= i < slots.len() && (#[trigger] slots[i]) is None;
    lemma_free_below(slots, i);
}

/// Below or at any free address lies the lowest free one.
proof fn lemma_free_below(slots: Slots, i: int)
    requires
        0 <= i < slots.len(),
        slots[i] is None,
    ensures
        exists|a: int| is_lowest_free(slots, a),
    decreases i,
{
    if exists|j: int| 0 <= j < i && (#[trigger] slots[j]) is None {
        let j = choose|j: int| 0 <= j < i && (#[trigger] slots[j]) is None;
        lemma_free_below(slots, j);
    } else {
        assert(is_lowest_free(slots, i));
    }
}

/// After any sequence of allocations and releases the registry still has its
/// slots, and no more of them are occupied than there are.
pub proof fn lemma_ops_keep_capacity(slots: Slots, ops: Seq<RegistryOp>)
    ensures
        after_ops(slots, ops).len() == slots.len(),
        occupied_count(after_ops(slots, ops)) <= slots.len(),
    decreases ops.len(),
{
    if ops.len() > 0 {
        let before = after_ops(slots, ops.drop_last());
        lemma_ops_keep_capacity(slots, ops.drop_last());
        match ops.last() {
            RegistryOp::Allocate(shape) => {
                if has_free(before) {
                    lemma_lowest_free_exists(before);
                }
            },
            RegistryOp::Release(a) => {},
        }
    }
    lemma_count_bounded(after_ops(slots, ops));
}

/// An allocation that finds a free slot raises the count by one; a release
/// that is accepted lowers it by one; a refused call leaves it.
pub proof fn lemma_op_count(slots: Slots, op: RegistryOp)
    ensures
        occupied_count(after_op(slots, op)) == match op {
            RegistryOp::Allocate(_) => if has_free(slots) {
                occupied_count(slots) as int + 1
            } else {
                occupied_count(slots) as int
            },
            RegistryOp::Release(a) => if release_result(slots, a as int) is Ok {
                occupied_count(slots) - 1
            } else {
                occupied_count(slots) as int
            },
        },
{
    match op {
        RegistryOp::Allocate(shape) => {
            if has_free(slots) {
                lemma_lowest_free_exists(slots);
                lemma_count_update(slots, lowest_free(slots), Some(shape));
            }
        },
        RegistryOp::Release(a) => {
            if release_result(slots, a as int) is Ok {
                lemma_count_update(slots, a as int, None);
            }
        },
    }
}

/// A slot that was just released cannot be released again: the second call
/// answers `DoubleFree` and changes nothing.
pub proof fn lemma_release_twice(slots: Slots, a: int)
    requires
        release_result(slots, a) is Ok,
    ensures
        release_result(after_release(slots, a), a) == Err::<(), SdfError>(SdfError::DoubleFree),
        after_release(after_release(slots, a), a) == after_release(slots, a),
{
}

/// An allocation right after a release takes an address no higher than the
/// one released.
pub proof fn lemma_allocate_reuses(slots: Slots, a: int)
    requires
        release_result(slots, a) is Ok,
    ensures
        has_free(after_release(slots, a)),
        lowest_free(after_release(slots, a)) <= a,
{
    let s = after_release(slots, a);
    assert(s[a] is None);
    lemma_lowest_free_exists(s);
    let b = lowest_free(s);
    if a < b {
        assert(s[a] is Some);
    }
}

} // verus!
