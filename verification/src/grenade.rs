//! The grenade: it flies in a straight line, explodes on contact or at the
//! end of its range, and is destroyed one pass after it exploded.

use vstd::prelude::*;
use crate::fixed::{MICROS, ONE};
use crate::vector::{Vec3, Vec4};

verus! {

/// How far from where it was thrown a grenade explodes by itself.
pub const RANGE: i32 = 3276800;

/// Where a grenade is in its life. It only ever moves forward:
/// `Flying`, then `Exploded`, then `Destroyed`.
#[derive(Clone, Copy, Debug, PartialEq, Eq, Structural)]
pub enum GrenadeState {
    Flying,
    Exploded,
    Destroyed,
}

/// The size parameters and type tag of a grenade's shape: a small sphere.
pub open spec fn properties_spec() -> Vec4 {
    Vec4 { x: 655, y: 0, z: 0, w: ONE }
}

/// The colour of a grenade's shape.
pub open spec fn color_spec() -> Vec4 {
    Vec4 { x: ONE, y: 0, z: ONE, w: 0 }
}

#[verifier::when_used_as_spec(properties_spec)]
pub fn properties() -> (r: Vec4)
    ensures
        r == properties_spec(),
{
    Vec4 { x: 655, y: 0, z: 0, w: ONE }
}

#[verifier::when_used_as_spec(color_spec)]
pub fn color() -> (r: Vec4)
    ensures
        r == color_spec(),
{
    Vec4 { x: ONE, y: 0, z: ONE, w: 0 }
}

/// Whether a grenade this far from where it was thrown is out of range.
pub open spec fn out_of_range(travelled: Vec3) -> bool {
    travelled.length_sq_spec() > RANGE * RANGE
}

/// What a grenade is, as plain data.
#[derive(Clone, Copy, Debug, PartialEq, Eq, Structural)]
pub struct GrenadeView {
    pub position: Vec3,
    /// Where it was thrown from.
    pub spawn: Vec3,
    pub velocity: Vec3,
    /// The address of its shape in the registry.
    pub grenade_id: usize,
    pub state: GrenadeState,
}

impl GrenadeView {
    /// The grenade after one tick of flight. Only a flying grenade moves; it
    /// explodes where the move takes it out of range.
    pub open spec fn stepped(self, dt_micros: u32) -> GrenadeView {
        if self.state == GrenadeState::Flying {
            let position = self.position.plus_spec(
                self.velocity.scaled_spec(dt_micros as int, MICROS as int),
            );
            GrenadeView {
                position,
                state: if out_of_range(position.minus_spec(self.spawn)) {
                    GrenadeState::Exploded
                } else {
                    GrenadeState::Flying
                },
                ..self
            }
        } else {
            self
        }
    }

    /// The grenade after a collision event: a flying grenade explodes where
    /// the event reports an overlap.
    pub open spec fn collided(self, event: Vec4) -> GrenadeView {
        if self.state == GrenadeState::Flying && event.w < 0 {
            GrenadeView { state: GrenadeState::Exploded, ..self }
        } else {
            self
        }
    }

    /// The grenade after it was destroyed: on the pass that follows its
    /// explosion, or when it is removed in flight.
    pub open spec fn destroyed(self) -> GrenadeView {
        GrenadeView { state: GrenadeState::Destroyed, ..self }
    }
}

/// A grenade that has exploded neither moves nor explodes again, and one that
/// is destroyed stays so whatever happens to it.
pub proof fn lemma_no_second_explosion(g: GrenadeView, dt_micros: u32, event: Vec4)
    requires
        g.state != GrenadeState::Flying,
    ensures
        g.stepped(dt_micros) == g,
        g.collided(event) == g,
        g.state == GrenadeState::Destroyed ==> g.destroyed() == g,
        g.destroyed().destroyed() == g.destroyed(),
{
}

/// A grenade in flight.
#[derive(Clone, Copy, Debug)]
pub struct Grenade {
    position: Vec3,
    spawn: Vec3,
    velocity: Vec3,
    grenade_id: usize,
    state: GrenadeState,
}

impl Grenade {
    pub closed spec fn view(&self) -> GrenadeView {
        GrenadeView {
            position: self.position,
            spawn: self.spawn,
            velocity: self.velocity,
            grenade_id: self.grenade_id,
            state: self.state,
        }
    }

    /// A grenade thrown from `position` with `velocity`, whose shape sits at
    /// `grenade_id`.
    pub fn initialize(position: Vec3, velocity: Vec3, grenade_id: usize) -> (r: Grenade)
        ensures
            r@ == (GrenadeView {
                position,
                spawn: position,
                velocity,
                grenade_id,
                state: GrenadeState::Flying,
            }),
    {
        Grenade { position, spawn: position, velocity, grenade_id, state: GrenadeState::Flying }
    }

    pub fn get_position(&self) -> (r: Vec3)
        ensures
            r == self@.position,
    {
        self.position
    }

    pub fn get_velocity(&self) -> (r: Vec3)
        ensures
            r == self@.velocity,
    {
        self.velocity
    }

    /// The address of the grenade's shape.
    pub fn grenade_id(&self) -> (r: usize)
        ensures
            r == self@.grenade_id,
    {
        self.grenade_id
    }

    pub fn state(&self) -> (r: GrenadeState)
        ensures
            r == self@.state,
    {
        self.state
    }

    /// Whether the grenade has exploded and waits to be destroyed.
    pub fn exploded(&self) -> (r: bool)
        ensures
            r == (self@.state == GrenadeState::Exploded),
    {
        match self.state {
            GrenadeState::Exploded => true,
            _ => false,
        }
    }

    /// Moves the grenade by `offset`.
    pub fn add_position(&mut self, offset: Vec3)
        ensures
            final(self)@ == (GrenadeView {
                position: old(self)@.position.plus_spec(offset),
                ..old(self)@
            }),
    {
        self.position = self.position.plus(offset);
    }

    /// One tick of flight.
    pub fn physics_process(&mut self, dt_micros: u32)
        ensures
            final(self)@ == old(self)@.stepped(dt_micros),
    {
        match self.state {
            GrenadeState::Flying => {
                self.add_position(self.velocity.scaled(dt_micros as i64, MICROS));
                assert(RANGE * RANGE == 10737418240000) by (nonlinear_arith)
                    requires
                        RANGE == 3276800,
                ;
                if self.position.minus(self.spawn).length_sq() > 10737418240000 {
                    self.state = GrenadeState::Exploded;
                }
            },
            _ => {},
        }
    }

    /// Takes a collision event.
    pub fn collision(&mut self, event: Vec4)
        ensures
            final(self)@ == old(self)@.collided(event),
    {
        match self.state {
            GrenadeState::Flying => {
                if event.w < 0 {
                    self.state = GrenadeState::Exploded;
                }
            },
            _ => {},
        }
    }

    /// Destroys the grenade. Returns whether this call did so: only then is
    /// the shape to be released, so that no shape is released twice.
    pub fn destroy(&mut self) -> (r: bool)
        ensures
            final(self)@ == old(self)@.destroyed(),
            r == (old(self)@.state != GrenadeState::Destroyed),
    {
        match self.state {
            GrenadeState::Destroyed => false,
            _ => {
                self.state = GrenadeState::Destroyed;
                true
            },
        }
    }
}

} // verus!
