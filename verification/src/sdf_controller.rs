//! The shape registry: a fixed number of slots, each free or holding one
//! shape, laid out as the flat arrays that the distance kernel reads.

use vstd::prelude::*;
use crate::slots::{
    after_allocate, after_release, has_free, is_lowest_free, lemma_count_bounded,
    lemma_count_empty, lemma_count_full, lemma_count_update, lemma_lowest_free_unique,
    occupied_count, release_result, shown, SdfError, Shape, Slots,
};
use crate::fixed::{clamp32, ratio, sat_add, scale_ratio, ONE};
use crate::vector::{Vec3, Vec4};

verus! {

/// The number of slots. It never changes: a full registry refuses.
pub const CAPACITY: usize = 100;

/// Behavior flag of a shape that takes part in collision.
pub const FLAG_COLLISION: i32 = 0;

/// Behavior flag of a shape that is drawn but never collided with.
pub const FLAG_NO_COLLISION: i32 = 65536;

/// Behavior flag of a shape that is neither drawn nor collided with.
pub const FLAG_NO_RENDER: i32 = 131072;

/// The registry together with the scalar parameters of the field.
pub struct SdfController {
    positions: Vec<Vec4>,
    properties: Vec<Vec4>,
    colors: Vec<Vec4>,
    shapes_used: Vec<bool>,
    num_shapes: usize,
    blend_factor: i32,
    background_hue: i32,
    origin: Vec3,
}

impl SdfController {
    /// The slots in address order.
    pub closed spec fn view(&self) -> Slots {
        Seq::new(
            self.shapes_used@.len(),
            |i: int|
                if self.shapes_used@[i] {
                    Some(
                        Shape {
                            position: self.positions@[i],
                            properties: self.properties@[i],
                            color: self.colors@[i],
                        },
                    )
                } else {
                    None
                },
        )
    }

    /// The invariant: the four arrays have `CAPACITY` entries, free slots are
    /// zeroed, and the maintained count is the number of occupied slots.
    pub closed spec fn wf(&self) -> bool {
        &&& self.positions@.len() == CAPACITY
        &&& self.properties@.len() == CAPACITY
        &&& self.colors@.len() == CAPACITY
        &&& self.shapes_used@.len() == CAPACITY
        &&& self.num_shapes == occupied_count(self@)
        &&& forall|i: int|
            0 <= i < CAPACITY && !(#[trigger] self.shapes_used@[i]) ==> {
                &&& self.positions@[i] == Vec4::zero_spec()
                &&& self.properties@[i] == Vec4::zero_spec()
                &&& self.colors@[i] == Vec4::zero_spec()
            }
    }

    /// The blend factor handed to the kernel with every batch.
    pub closed spec fn blend_spec(&self) -> i32 {
        self.blend_factor
    }

    /// The hue of the background, as a fraction of a full turn.
    pub closed spec fn hue_spec(&self) -> i32 {
        self.background_hue
    }

    /// Where the field is anchored in the world.
    pub closed spec fn origin_spec(&self) -> Vec3 {
        self.origin
    }

    /// A well-formed registry has `CAPACITY` slots.
    pub proof fn lemma_view_len(&self)
        requires
            self.wf(),
        ensures
            self@.len() == CAPACITY,
    {
    }

    /// An empty registry with a blend factor of one.
    pub fn init() -> (r: SdfController)
        ensures
            r.wf(),
            r@ == empty_slots(),
            occupied_count(r@) == 0,
            r.blend_spec() == 65536,
            r.hue_spec() == 0,
            r.origin_spec() == Vec3::zero_spec(),
    {
        SdfController::fresh(65536, 0, Vec3::zero())
    }

    /// An empty registry with the given parameters.
    fn fresh(blend_factor: i32, background_hue: i32, origin: Vec3) -> (r: SdfController)
        ensures
            r.wf(),
            r@ == empty_slots(),
            occupied_count(r@) == 0,
            r.blend_spec() == blend_factor,
            r.hue_spec() == background_hue,
            r.origin_spec() == origin,
    {
        let mut positions: Vec<Vec4> = Vec::new();
        let mut properties: Vec<Vec4> = Vec::new();
        let mut colors: Vec<Vec4> = Vec::new();
        let mut shapes_used: Vec<bool> = Vec::new();
        let mut i: usize = 0;
        while i < CAPACITY
            invariant
                i <= CAPACITY,
                positions@.len() == i,
                properties@.len() == i,
                colors@.len() == i,
                shapes_used@.len() == i,
                forall|j: int| 0 <= j < i ==> !(#[trigger] shapes_used@[j]),
                forall|j: int| 0 <= j < i ==> (#[trigger] positions@[j]) == Vec4::zero_spec(),
                forall|j: int| 0 <= j < i ==> (#[trigger] properties@[j]) == Vec4::zero_spec(),
                forall|j: int| 0 <= j < i ==> (#[trigger] colors@[j]) == Vec4::zero_spec(),
            decreases CAPACITY - i,
        {
            positions.push(Vec4::zero());
            properties.push(Vec4::zero());
            colors.push(Vec4::zero());
            shapes_used.push(false);
            i = i + 1;
        }
        let r = SdfController {
            positions,
            properties,
            colors,
            shapes_used,
            num_shapes: 0,
            blend_factor,
            background_hue,
            origin,
        };
        proof {
            assert(r@ =~= empty_slots());
            lemma_count_empty(r@);
        }
        r
    }

    /// Frees every slot. The parameters of the field stay.
    pub fn clear(&mut self)
        ensures
            final(self).wf(),
            final(self)@ == empty_slots(),
            occupied_count(final(self)@) == 0,
            final(self).blend_spec() == old(self).blend_spec(),
            final(self).hue_spec() == old(self).hue_spec(),
            final(self).origin_spec() == old(self).origin_spec(),
    {
        *self = SdfController::fresh(self.blend_factor, self.background_hue, self.origin);
    }

    /// The shape in the slot at `address`, or `None` where the slot is free
    /// or the address out of range.
    pub fn shape_at(&self, address: usize) -> (r: Option<Shape>)
        requires
            self.wf(),
        ensures
            r == if address < CAPACITY {
                self@[address as int]
            } else {
                None
            },
    {
        if address < CAPACITY && self.shapes_used[address] {
            Some(
                Shape {
                    position: self.positions[address],
                    properties: self.properties[address],
                    color: self.colors[address],
                },
            )
        } else {
            None
        }
    }

    /// One tick of the field itself: the background hue moves on by a
    /// twentieth of a turn per second and starts over past a full turn.
    /// Returns what the renderer is to be given.
    pub fn physics_process(&mut self, dt_micros: u32) -> (frame: Frame)
        requires
            old(self).wf(),
        ensures
            final(self).wf(),
            final(self)@ == old(self)@,
            final(self).blend_spec() == old(self).blend_spec(),
            final(self).origin_spec() == old(self).origin_spec(),
            final(self).hue_spec() == next_hue(old(self).hue_spec(), dt_micros),
            frame.blend_factor == final(self).blend_spec(),
            frame.background_hue == final(self).hue_spec(),
            frame.shapes.shows(final(self)@),
    {
        let moved = sat_add(self.background_hue, scale_ratio(256, dt_micros as i64, 78125));
        self.background_hue = if moved > ONE {
            moved - ONE
        } else {
            moved
        };
        Frame {
            blend_factor: self.blend_factor,
            background_hue: self.background_hue,
            shapes: self.snapshot(),
        }
    }

    /// The number of occupied slots.
    pub fn active_count(&self) -> (n: usize)
        requires
            self.wf(),
        ensures
            n == occupied_count(self@),
            n <= CAPACITY,
    {
        proof {
            lemma_count_bounded(self@);
        }
        self.num_shapes
    }

    /// Whether the slot at `address` holds a shape.
    pub fn is_occupied(&self, address: usize) -> (b: bool)
        requires
            self.wf(),
        ensures
            b == (address < CAPACITY && self@[address as int] is Some),
    {
        address < CAPACITY && self.shapes_used[address]
    }

    /// Puts a shape into the lowest free slot and returns its address.
    pub fn new_shape(&mut self, position: Vec4, properties: Vec4, color: Vec4) -> (r: Result<
        usize,
        SdfError,
    >)
        requires
            old(self).wf(),
        ensures
            final(self).wf(),
            final(self).blend_spec() == old(self).blend_spec(),
            final(self).origin_spec() == old(self).origin_spec(),
            final(self).hue_spec() == old(self).hue_spec(),
            final(self)@ == after_allocate(old(self)@, Shape { position, properties, color }),
            r is Err <==> occupied_count(old(self)@) == CAPACITY,
            match r {
                Ok(a) => {
                    &&& is_lowest_free(old(self)@, a as int)
                    &&& final(self)@ == old(self)@.update(
                        a as int,
                        Some(Shape { position, properties, color }),
                    )
                    &&& occupied_count(final(self)@) == occupied_count(old(self)@) + 1
                },
                Err(e) => e == SdfError::RegistryFull && final(self)@ == old(self)@,
            },
    {
        proof {
            lemma_count_full(self@);
        }
        if self.num_shapes == CAPACITY {
            return Err(SdfError::RegistryFull);
        }
        let mut i: usize = 0;
        while i < CAPACITY && self.shapes_used[i]
            invariant
                i <= CAPACITY,
                *self == *old(self),
                self.wf(),
                forall|j: int| 0 <= j < i ==> (#[trigger] self@[j]) is Some,
            decreases CAPACITY - i,
        {
            i = i + 1;
        }
        if i == CAPACITY {
            proof {
                assert(!has_free(self@));
            }
            return Err(SdfError::RegistryFull);
        }
        proof {
            lemma_count_update(self@, i as int, Some(Shape { position, properties, color }));
            lemma_count_bounded(self@);
            lemma_lowest_free_unique(self@, i as int);
        }
        self.positions[i] = position;
        self.properties[i] = properties;
        self.colors[i] = color;
        self.shapes_used[i] = true;
        self.num_shapes = self.num_shapes + 1;
        proof {
            assert(self@ =~= old(self)@.update(
                i as int,
                Some(Shape { position, properties, color }),
            ));
        }
        Ok(i)
    }

    /// Overwrites the shape in an occupied slot.
    pub fn update_shape(
        &mut self,
        address: usize,
        position: Vec4,
        properties: Vec4,
        color: Vec4,
    ) -> (r: Result<(), SdfError>)
        requires
            old(self).wf(),
        ensures
            final(self).wf(),
            final(self).blend_spec() == old(self).blend_spec(),
            final(self).origin_spec() == old(self).origin_spec(),
            final(self).hue_spec() == old(self).hue_spec(),
            r is Ok <==> address < CAPACITY && old(self)@[address as int] is Some,
            match r {
                Ok(_) => final(self)@ == old(self)@.update(
                    address as int,
                    Some(Shape { position, properties, color }),
                ),
                Err(e) => e == SdfError::InvalidAddress && final(self)@ == old(self)@,
            },
            occupied_count(final(self)@) == occupied_count(old(self)@),
    {
        if address >= CAPACITY || !self.shapes_used[address] {
            return Err(SdfError::InvalidAddress);
        }
        proof {
            lemma_count_update(
                self@,
                address as int,
                Some(Shape { position, properties, color }),
            );
        }
        self.positions[address] = position;
        self.properties[address] = properties;
        self.colors[address] = color;
        proof {
            assert(self@ =~= old(self)@.update(
                address as int,
                Some(Shape { position, properties, color }),
            ));
        }
        Ok(())
    }

    /// Frees an occupied slot and zeroes its entries.
    pub fn remove_shape(&mut self, address: usize) -> (r: Result<(), SdfError>)
        requires
            old(self).wf(),
        ensures
            final(self).wf(),
            final(self).blend_spec() == old(self).blend_spec(),
            final(self).origin_spec() == old(self).origin_spec(),
            final(self).hue_spec() == old(self).hue_spec(),
            r == release_result(old(self)@, address as int),
            final(self)@ == after_release(old(self)@, address as int),
            r is Ok <==> address < CAPACITY && old(self)@[address as int] is Some,
            match r {
                Ok(_) => {
                    &&& final(self)@ == old(self)@.update(address as int, None)
                    &&& occupied_count(final(self)@) + 1 == occupied_count(old(self)@)
                },
                Err(e) => {
                    &&& final(self)@ == old(self)@
                    &&& e == if address < CAPACITY {
                        SdfError::DoubleFree
                    } else {
                        SdfError::InvalidAddress
                    }
                },
            },
    {
        if address >= CAPACITY {
            return Err(SdfError::InvalidAddress);
        }
        if !self.shapes_used[address] {
            return Err(SdfError::DoubleFree);
        }
        proof {
            lemma_count_update(self@, address as int, None);
        }
        self.positions[address] = Vec4::zero();
        self.properties[address] = Vec4::zero();
        self.colors[address] = Vec4::zero();
        self.shapes_used[address] = false;
        self.num_shapes = self.num_shapes - 1;
        proof {
            assert(self@ =~= old(self)@.update(address as int, None));
        }
        Ok(())
    }

    /// The flat arrays in address order, free slots as zeros: what the kernel
    /// and the renderer read.
    pub fn snapshot(&self) -> (r: Snapshot)
        requires
            self.wf(),
        ensures
            r.shows(self@),
    {
        let r = Snapshot {
            positions: copy_vec4(&self.positions),
            properties: copy_vec4(&self.properties),
            colors: copy_vec4(&self.colors),
        };
        proof {
            let slots = self@;
            assert(r.positions@ =~= Seq::new(slots.len(), |i: int| shown(slots[i]).position));
            assert(r.properties@ =~= Seq::new(slots.len(), |i: int| shown(slots[i]).properties));
            assert(r.colors@ =~= Seq::new(slots.len(), |i: int| shown(slots[i]).color));
        }
        r
    }

    /// The blend factor handed to the kernel with every batch.
    pub fn blend_factor(&self) -> (r: i32)
        ensures
            r == self.blend_spec(),
    {
        self.blend_factor
    }

    /// Sets the blend factor; a negative one counts as zero.
    pub fn set_blend_factor(&mut self, blend_factor: i32)
        requires
            old(self).wf(),
        ensures
            final(self).wf(),
            final(self)@ == old(self)@,
            final(self).origin_spec() == old(self).origin_spec(),
            final(self).hue_spec() == old(self).hue_spec(),
            final(self).blend_spec() == if blend_factor < 0 {
                0
            } else {
                blend_factor
            },
    {
        self.blend_factor = if blend_factor < 0 {
            0
        } else {
            blend_factor
        };
    }

    /// Where the field is anchored in the world.
    pub fn origin(&self) -> (r: Vec3)
        ensures
            r == self.origin_spec(),
    {
        self.origin
    }

    /// Moves the anchor of the field; the slots stay as they are.
    pub fn set_origin(&mut self, origin: Vec3)
        requires
            old(self).wf(),
        ensures
            final(self).wf(),
            final(self)@ == old(self)@,
            final(self).blend_spec() == old(self).blend_spec(),
            final(self).origin_spec() == origin,
            final(self).hue_spec() == old(self).hue_spec(),
    {
        self.origin = origin;
    }
}

/// A registry without a shape.
pub open spec fn empty_slots() -> Slots {
    Seq::new(CAPACITY as nat, |i: int| None::<Shape>)
}

/// The background hue after a tick: `dt_micros * 0.05` further, less a full
/// turn where it has gone past one.
pub open spec fn next_hue(hue: i32, dt_micros: u32) -> i32 {
    let moved = clamp32(hue + ratio(256, dt_micros as int, 78125));
    if moved > ONE {
        (moved - ONE) as i32
    } else {
        moved as i32
    }
}

/// What the renderer is given every tick.
pub struct Frame {
    pub blend_factor: i32,
    pub background_hue: i32,
    pub shapes: Snapshot,
}

/// The three flat arrays of the registry at one moment.
pub struct Snapshot {
    pub positions: Vec<Vec4>,
    pub properties: Vec<Vec4>,
    pub colors: Vec<Vec4>,
}

impl Snapshot {
    /// Whether the arrays are those of `slots`: one entry per slot, in address
    /// order, a free slot as zeros.
    pub open spec fn shows(&self, slots: Slots) -> bool {
        &&& self.positions@ == Seq::new(slots.len(), |i: int| shown(slots[i]).position)
        &&& self.properties@ == Seq::new(slots.len(), |i: int| shown(slots[i]).properties)
        &&& self.colors@ == Seq::new(slots.len(), |i: int| shown(slots[i]).color)
    }
}

/// A copy of a vector of `Vec4`.
pub fn copy_vec4(v: &Vec<Vec4>) -> (r: Vec<Vec4>)
    ensures
        r@ == v@,
{
    let mut r: Vec<Vec4> = Vec::new();
    let mut i: usize = 0;
    while i < v.len()
        invariant
            i <= v.len(),
            r@ == v@.take(i as int),
        decreases v.len() - i,
    {
        r.push(v[i]);
        proof {
            assert(v@.take(i as int).push(v@[i as int]) =~= v@.take(i + 1));
        }
        i = i + 1;
    }
    proof {
        assert(v@.take(v.len() as int) =~= v@);
    }
    r
}

} // verus!
