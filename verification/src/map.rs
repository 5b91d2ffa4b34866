//! The map: the list of shapes that a world starts with, and the list that
//! the registry gives back.

use vstd::prelude::*;
use crate::fixed::ONE;
use crate::sdf_controller::{SdfController, CAPACITY};
use crate::slots::{is_lowest_free, lemma_lowest_free_unique, shown, Shape, Slots};
use crate::vector::{Vec3, Vec4};

verus! {

/// The kinds of shape that a map names.
#[derive(Clone, Copy, Debug, PartialEq, Eq, Structural)]
pub enum ShapeKind {
    /// No named kind: the kernel's implicit shape.
    Implicit,
    Sphere,
    Cube,
}

/// One shape of a map.
#[derive(Clone, Copy, Debug, PartialEq, Eq, Structural)]
pub struct MapEntry {
    pub kind: ShapeKind,
    pub position: Vec3,
    pub scale: Vec3,
    pub color: Vec3,
}

/// The shape-type tag that the kernel reads for a kind.
pub open spec fn kind_tag(kind: ShapeKind) -> i32 {
    match kind {
        ShapeKind::Implicit => 0,
        ShapeKind::Sphere => 65536,
        ShapeKind::Cube => 131072,
    }
}

/// The kind that a shape-type tag stands for.
pub open spec fn tag_kind(tag: i32) -> ShapeKind {
    if tag == 65536 {
        ShapeKind::Sphere
    } else if tag == 131072 {
        ShapeKind::Cube
    } else {
        ShapeKind::Implicit
    }
}

/// The shape that a map entry becomes: it takes part in collision.
pub open spec fn entry_shape(e: MapEntry) -> Shape {
    Shape {
        position: Vec4::from_vec3_spec(e.position, 0),
        properties: Vec4::from_vec3_spec(e.scale, kind_tag(e.kind)),
        color: Vec4::from_vec3_spec(e.color, 0),
    }
}

/// The map entry that a shape is listed as.
pub open spec fn shape_entry(s: Shape) -> MapEntry {
    MapEntry {
        kind: tag_kind(s.properties.w),
        position: s.position.xyz_spec(),
        scale: s.properties.xyz_spec(),
        color: s.color.xyz_spec(),
    }
}

/// Whether a slot is listed in the map: it holds a shape with a type tag
/// whose behavior flag is below one.
pub open spec fn listed(slot: Option<Shape>) -> bool {
    shown(slot).properties.w != 0 && shown(slot).position.w < ONE
}

/// The registry right after a map was loaded: the entries in their order from
/// address zero, as many as there are slots.
pub open spec fn loaded(entries: Seq<MapEntry>) -> Slots {
    Seq::new(
        CAPACITY as nat,
        |i: int|
            if i < entries.len() {
                Some(entry_shape(entries[i]))
            } else {
                None
            },
    )
}

/// The map entries of the first `n` slots, in address order.
pub open spec fn exported(slots: Slots, n: nat) -> Seq<MapEntry>
    decreases n,
{
    if n == 0 {
        Seq::empty()
    } else {
        let prev = exported(slots, (n - 1) as nat);
        if listed(slots[n - 1]) {
            prev.push(shape_entry(shown(slots[n - 1])))
        } else {
            prev
        }
    }
}

impl ShapeKind {
    /// The shape-type tag of the kind.
    pub fn tag(self) -> (r: i32)
        ensures
            r == kind_tag(self),
    {
        match self {
            ShapeKind::Implicit => 0,
            ShapeKind::Sphere => 65536,
            ShapeKind::Cube => 131072,
        }
    }

    /// The kind of a shape-type tag.
    pub fn from_tag(tag: i32) -> (r: ShapeKind)
        ensures
            r == tag_kind(tag),
    {
        if tag == 65536 {
            ShapeKind::Sphere
        } else if tag == 131072 {
            ShapeKind::Cube
        } else {
            ShapeKind::Implicit
        }
    }
}

impl SdfController {
    /// Replaces whatever the registry holds by the shapes of a map. Entries
    /// beyond the capacity are dropped. Returns how many were loaded.
    pub fn load_map(&mut self, entries: &Vec<MapEntry>) -> (count: usize)
        ensures
            final(self).wf(),
            final(self)@ == loaded(entries@),
            count == if entries@.len() < CAPACITY {
                entries@.len()
            } else {
                CAPACITY as nat
            },
            final(self).blend_spec() == old(self).blend_spec(),
            final(self).hue_spec() == old(self).hue_spec(),
            final(self).origin_spec() == old(self).origin_spec(),
    {
        self.clear();
        let mut i: usize = 0;
        proof {
            assert(self@ =~= loaded(entries@.take(0)));
        }
        while i < entries.len() && i < CAPACITY
            invariant
                i <= entries@.len(),
                i <= CAPACITY,
                self.wf(),
                self@ == loaded(entries@.take(i as int)),
                self.blend_spec() == old(self).blend_spec(),
                self.hue_spec() == old(self).hue_spec(),
                self.origin_spec() == old(self).origin_spec(),
            decreases entries@.len() - i,
        {
            let e = entries[i];
            let ghost before = self@;
            proof {
                assert(before[i as int] is None);
                assert forall|j: int| 0 <= j < i implies (#[trigger] before[j]) is Some by {}
                assert(is_lowest_free(before, i as int));
                lemma_lowest_free_unique(before, i as int);
            }
            let placed = self.new_shape(
                Vec4::from_vec3(e.position, 0),
                Vec4::from_vec3(e.scale, e.kind.tag()),
                Vec4::from_vec3(e.color, 0),
            );
            proof {
                assert(placed is Ok) by {
                    crate::slots::lemma_count_full(before);
                }
                assert(is_lowest_free(before, placed->Ok_0 as int));
                lemma_lowest_free_unique(before, placed->Ok_0 as int);
                assert(self@ =~= loaded(entries@.take(i + 1)));
            }
            i = i + 1;
        }
        proof {
            assert(loaded(entries@.take(i as int)) =~= loaded(entries@));
        }
        i
    }

    /// The shapes of the registry as map entries, in address order. A slot is
    /// left out where it is free, has no type tag, or is flagged exempt from
    /// collision or hidden.
    pub fn map_entries(&self) -> (entries: Vec<MapEntry>)
        requires
            self.wf(),
        ensures
            entries@ == exported(self@, CAPACITY as nat),
    {
        let mut entries: Vec<MapEntry> = Vec::new();
        let mut i: usize = 0;
        while i < CAPACITY
            invariant
                i <= CAPACITY,
                self.wf(),
                entries@ == exported(self@, i as nat),
            decreases CAPACITY - i,
        {
            match self.shape_at(i) {
                Some(s) => {
                    if s.properties.w != 0 && s.position.w < ONE {
                        entries.push(
                            MapEntry {
                                kind: ShapeKind::from_tag(s.properties.w),
                                position: s.position.xyz(),
                                scale: s.properties.xyz(),
                                color: s.color.xyz(),
                            },
                        );
                    }
                },
                None => {},
            }
            i = i + 1;
        }
        entries
    }
}

/// A map of named kinds that fits the registry comes back as it was loaded.
pub proof fn lemma_map_round_trip(entries: Seq<MapEntry>, n: nat)
    requires
        n <= entries.len() <= CAPACITY,
        forall|i: int| 0 <= i < entries.len() ==> (#[trigger] entries[i]).kind != ShapeKind::Implicit,
    ensures
        exported(loaded(entries), n) == entries.take(n as int),
    decreases n,
{
    if n == 0 {
        assert(entries.take(0) =~= Seq::<MapEntry>::empty());
    } else {
        lemma_map_round_trip(entries, (n - 1) as nat);
        let e = entries[n - 1];
        assert(e.kind != ShapeKind::Implicit);
        assert(listed(loaded(entries)[n - 1]));
        assert(shape_entry(entry_shape(e)) == e);
        assert(entries.take(n as int) =~= entries.take(n - 1).push(e));
    }
}

} // verus!
