//! The player: steering on the ground and in the air, jumping, gravity,
//! sliding along what a shapecast hit, and the push of an explosion.

use vstd::prelude::*;
use crate::fixed::{abs_int, clamp32, magnitude, ratio, sat_sub, scale_ratio, MICROS, ONE};
use crate::query::{earliest_impact, earliest_spec};
use crate::vector::{sat, Vec3, Vec4};

verus! {

/// Ground speed that steering snaps to, per second.
pub const SPEED: i32 = 131072;

/// Horizontal speed above which steering in the air no longer accelerates.
pub const AIR_SPEED: i32 = 196608;

/// Vertical speed right after a jump.
pub const JUMP_HEIGHT: i32 = 131072;

/// Vertical acceleration in the air, per second squared.
pub const GRAVITY: i32 = -327680;

/// Steering acceleration in the air, in whole units per second squared.
pub const AIR_ACCELERATION: i64 = 30;

/// Total speed below which a slide keeps the smaller share of its momentum.
pub const FAST_THRESHOLD: i32 = 131072;

/// Distance within which an explosion pushes the player.
pub const BLAST_REACH: i32 = 327680;

/// The limit of the look pitch either way: 85 degrees in radians.
pub const PITCH_LIMIT: i32 = 97224;

/// The player's state.
#[derive(Clone, Copy, Debug, PartialEq, Eq, Structural)]
pub struct Player {
    pub position: Vec3,
    pub velocity: Vec3,
    pub grounded: bool,
    pub mouse_captured: bool,
    /// Look rotation about the horizontal axis, in radians.
    pub look_pitch: i32,
    /// Look rotation about the vertical axis, in radians.
    pub look_yaw: i32,
}

/// What the player wants in one tick, and the axes it is expressed in.
#[derive(Clone, Copy, Debug, PartialEq, Eq, Structural)]
pub struct PlayerInput {
    pub forward: bool,
    pub back: bool,
    pub left: bool,
    pub right: bool,
    pub jump: bool,
    pub throw: bool,
    /// The player's own x axis in world space.
    pub basis_x: Vec3,
    /// The player's own z axis in world space.
    pub basis_z: Vec3,
    /// The camera's z axis in world space; the camera looks the other way.
    pub camera_z: Vec3,
}

/// A request to spawn a grenade.
#[derive(Clone, Copy, Debug, PartialEq, Eq, Structural)]
pub struct SpawnRequest {
    pub position: Vec3,
    pub direction: Vec3,
}

/// What to do with the mouse pointer.
#[derive(Clone, Copy, Debug, PartialEq, Eq, Structural)]
pub enum MouseMode {
    Captured,
    Visible,
}

/// One axis of movement from its two keys: both or neither cancel out.
pub open spec fn axis(negative: bool, positive: bool) -> int {
    if negative == positive {
        0
    } else if negative {
        -1
    } else {
        1
    }
}

/// The direction that the keys ask for, in world space and of length one.
pub open spec fn wish_direction(input: PlayerInput) -> Vec3 {
    input.basis_x.scaled_spec(axis(input.left, input.right), 1).plus_spec(
        input.basis_z.scaled_spec(axis(input.forward, input.back), 1),
    ).normalized_spec()
}

/// Whether any movement key counts.
pub open spec fn wants_move(input: PlayerInput) -> bool {
    axis(input.left, input.right) != 0 || axis(input.forward, input.back) != 0
}

/// One horizontal component on the ground: it snaps to the wished speed only
/// where that is the larger in magnitude.
pub open spec fn snap_up(v: i32, d: i32) -> i32 {
    let target = ratio(d as int, SPEED as int, ONE as int);
    if abs_int(v as int) < abs_int(target) {
        target as i32
    } else {
        v
    }
}

/// Steering on the ground.
pub open spec fn steer_ground(v: Vec3, d: Vec3) -> Vec3 {
    Vec3 { x: snap_up(v.x, d.x), y: v.y, z: snap_up(v.z, d.z) }
}

/// The change of velocity that steering asks for in one tick in the air.
pub open spec fn air_force(d: Vec3, dt_micros: u32) -> Vec3 {
    d.scaled_spec(AIR_ACCELERATION * dt_micros, MICROS as int)
}

/// Steering in the air. Below the air-speed cap the horizontal velocity moves
/// by the force and is cut back to the cap. At or above the cap, a force that
/// points along the motion acts only across it, and one against the motion
/// acts at three quarters.
pub open spec fn steer_air(v: Vec3, d: Vec3, dt_micros: u32) -> Vec3 {
    let h = Vec3 { x: v.x, y: 0, z: v.z };
    let force = air_force(d, dt_micros);
    if h.length_sq_spec() < AIR_SPEED * AIR_SPEED {
        v.plus_spec(h.plus_spec(force).capped_spec(AIR_SPEED as int).minus_spec(h))
    } else if h.dot_spec(force) > 0 {
        v.plus_spec(force.slide_spec(h))
    } else {
        v.plus_spec(force.scaled_spec(3, 4))
    }
}

/// The change of velocity that gravity makes in one tick.
pub open spec fn gravity_step(dt_micros: u32) -> Vec3 {
    (Vec3 { x: 0, y: GRAVITY, z: 0 }).scaled_spec(dt_micros as int, MICROS as int)
}

/// The number of points on each ring of the player's point cloud.
pub const NUM_POINTS: usize = 6;

/// Where the `i`-th point of a ring lies beside the vertical axis, as `x` and
/// `z`: a tenth of a unit out, sixty degrees apart.
pub open spec fn ring_offset(i: int) -> (i32, i32) {
    if i == 0 {
        (0, 6554)
    } else if i == 1 {
        (5676, 3277)
    } else if i == 2 {
        (5676, (-3277) as i32)
    } else if i == 3 {
        (0, (-6554) as i32)
    } else if i == 4 {
        ((-5676) as i32, (-3277) as i32)
    } else {
        ((-5676) as i32, 3277)
    }
}

/// The height of a ring above the feet: upper, middle, lower.
pub open spec fn ring_height(level: int) -> i32 {
    if level == 0 {
        32768
    } else if level == 1 {
        19661
    } else {
        0
    }
}

/// The `k`-th point of the cloud around `feet`: the feet first, then for each
/// place on the rings the upper, the middle and the lower point. Every point
/// carries the flag of a shape that is exempt from collision.
pub open spec fn sample_point(feet: Vec3, k: int) -> Vec4 {
    if k == 0 {
        Vec4::from_vec3_spec(feet, ONE)
    } else {
        let o = ring_offset((k - 1) / 3);
        Vec4::from_vec3_spec(
            feet.plus_spec(Vec3 { x: o.0, y: ring_height((k - 1) % 3), z: o.1 }),
            ONE,
        )
    }
}

/// Whether a surface with this normal counts as a floor: the normal, scaled to
/// length one, has a vertical component above one half.
pub open spec fn floor_like(n: Vec3) -> bool {
    n.y > 0 && 4 * (n.y * n.y) > n.length_sq_spec()
}

/// The share of horizontal momentum that a slide keeps: a half below the
/// speed threshold, three quarters from there on, as numerator and
/// denominator.
pub open spec fn momentum_kept(v: Vec3) -> (int, int) {
    if v.length_sq_spec() < FAST_THRESHOLD * FAST_THRESHOLD {
        (1, 2)
    } else {
        (3, 4)
    }
}

/// The velocity after an impact at travel fraction `w` on a surface with
/// normal `n`, before any momentum is taken away: nine tenths of the travelled
/// share stay free, the rest slides along the surface.
pub open spec fn deflected(v: Vec3, n: Vec3, w: i32) -> Vec3 {
    let free = v.scaled_spec(w as int * 9, ONE as int * 10);
    free.plus_spec(v.minus_spec(free).slide_spec(n))
}

/// The velocity after the whole resolution of an impact.
pub open spec fn resolved(v: Vec3, n: Vec3, w: i32) -> Vec3 {
    let d = deflected(v, n, w);
    let kept = momentum_kept(d);
    Vec3 { x: ratio(d.x as int, kept.0, kept.1) as i32, y: d.y, z: ratio(d.z as int, kept.0, kept.1) as i32 }
}

/// The push that an explosion gives along `offset`, the vector from the
/// explosion to the player: the direction of `offset`, weighted by the bias
/// (2/3, 1/3, 2/3) and multiplied by fifteen, whatever the distance.
pub open spec fn blast_impulse(offset: Vec3) -> Vec3 {
    let d = offset.normalized_spec();
    Vec3 { x: ratio(d.x as int, 10, 1) as i32, y: ratio(d.y as int, 5, 1) as i32, z: ratio(d.z as int, 10, 1) as i32 }
}

/// Whether an explosion at this offset from the player reaches it.
pub open spec fn in_blast(offset: Vec3) -> bool {
    offset.length_sq_spec() < BLAST_REACH * BLAST_REACH
}

impl Player {
    /// The player after the shapecast event of this tick.
    pub open spec fn after_shapecast(self, dt_micros: u32, shapecast: Vec4) -> Player {
        let hit = shapecast.w < ONE;
        let velocity = if hit {
            resolved(self.velocity, shapecast.xyz_spec(), shapecast.w)
        } else {
            self.velocity
        };
        Player {
            position: self.position.plus_spec(velocity.scaled_spec(dt_micros as int, MICROS as int)),
            velocity,
            grounded: hit && floor_like(shapecast.xyz_spec()),
            ..self
        }
    }

    /// The player after the input of one tick: steering, then a jump from the
    /// ground or gravity in the air.
    pub open spec fn after_input(self, input: PlayerInput, dt_micros: u32) -> Player {
        let steered = if !wants_move(input) {
            self.velocity
        } else if self.grounded {
            steer_ground(self.velocity, wish_direction(input))
        } else {
            steer_air(self.velocity, wish_direction(input), dt_micros)
        };
        if !self.grounded {
            Player { velocity: steered.plus_spec(gravity_step(dt_micros)), ..self }
        } else if input.jump {
            Player { velocity: Vec3 { y: JUMP_HEIGHT, ..steered }, grounded: false, ..self }
        } else {
            Player { velocity: steered, ..self }
        }
    }

    /// The grenade that a throw asks for: it starts two fifths of a unit above
    /// the player's feet and as far again along the line of sight.
    pub open spec fn throw_request(self, input: PlayerInput) -> Option<SpawnRequest> {
        if input.throw {
            let direction = input.camera_z.normalized_spec().negated_spec();
            Some(
                SpawnRequest {
                    position: self.position.plus_spec(Vec3 { x: 0, y: 26214, z: 0 }).plus_spec(
                        direction.scaled_spec(2, 5),
                    ),
                    direction,
                },
            )
        } else {
            None
        }
    }

    /// The player after the mouse moved by `(dx, dy)`: the look turns by a
    /// five-hundredth of a radian for each unit, and the pitch stays within
    /// its limit.
    pub open spec fn after_look(self, dx: i32, dy: i32) -> Player {
        let pitch = clamp32(self.look_pitch - ratio(dy as int, 1, 500));
        Player {
            look_pitch: if pitch < -PITCH_LIMIT {
                (-PITCH_LIMIT) as i32
            } else if pitch > PITCH_LIMIT {
                PITCH_LIMIT
            } else {
                pitch as i32
            },
            look_yaw: sat(self.look_yaw - ratio(dx as int, 1, 500)),
            ..self
        }
    }

    /// The player's point cloud: the feet and three rings of six points.
    pub open spec fn points_spec(self) -> Seq<Vec4> {
        Seq::new(1 + 3 * NUM_POINTS as nat, |k: int| sample_point(self.position, k))
    }

    /// The player after an explosion at `position`.
    pub open spec fn after_explosion(self, position: Vec3) -> Player {
        let offset = self.position.minus_spec(position);
        if in_blast(offset) {
            Player { velocity: self.velocity.plus_spec(blast_impulse(offset)), ..self }
        } else {
            self
        }
    }

    /// A player at rest in the air at `position`.
    pub fn init(position: Vec3) -> (r: Player)
        ensures
            r == (Player {
                position,
                velocity: Vec3::zero_spec(),
                grounded: false,
                mouse_captured: false,
                look_pitch: 0,
                look_yaw: 0,
            }),
    {
        Player {
            position,
            velocity: Vec3::zero(),
            grounded: false,
            mouse_captured: false,
            look_pitch: 0,
            look_yaw: 0,
        }
    }

    pub fn get_position(&self) -> (r: Vec3)
        ensures
            r == self.position,
    {
        self.position
    }

    pub fn get_velocity(&self) -> (r: Vec3)
        ensures
            r == self.velocity,
    {
        self.velocity
    }

    /// Samples the point cloud that stands for the player's body in queries.
    pub fn get_points(&self) -> (points: Vec<Vec4>)
        ensures
            points@ == self.points_spec(),
    {
        let feet = self.position;
        let mut points: Vec<Vec4> = Vec::new();
        points.push(Vec4::from_vec3(feet, ONE));
        let mut i: usize = 0;
        while i < NUM_POINTS
            invariant
                i <= NUM_POINTS,
                feet == self.position,
                points@.len() == 1 + 3 * i,
                forall|k: int| 0 <= k < points@.len() ==> points@[k] == sample_point(feet, k),
            decreases NUM_POINTS - i,
        {
            let (x, z) = ring_place(i);
            points.push(Vec4::from_vec3(feet.plus(Vec3 { x, y: 32768, z }), ONE));
            points.push(Vec4::from_vec3(feet.plus(Vec3 { x, y: 19661, z }), ONE));
            points.push(Vec4::from_vec3(feet.plus(Vec3 { x, y: 0, z }), ONE));
            i = i + 1;
        }
        proof {
            assert(points@ =~= self.points_spec());
        }
        points
    }

    /// Moves the player by `offset`.
    pub fn add_position(&mut self, offset: Vec3)
        ensures
            *final(self) == (Player { position: old(self).position.plus_spec(offset), ..*old(self) }),
    {
        self.position = self.position.plus(offset);
    }

    /// Resolves the movement of one tick against the shapecast event of the
    /// player's point cloud, then moves the player by what is left of its
    /// velocity. An event with a fraction of one or more is no impact: the
    /// velocity stays and the player is in the air.
    pub fn on_update_pos(&mut self, dt_micros: u32, shapecast: Vec4)
        ensures
            *final(self) == old(self).after_shapecast(dt_micros, shapecast),
    {
        if shapecast.w < ONE {
            let normal = shapecast.xyz();
            let free = self.velocity.scaled(shapecast.w as i64 * 9, ONE as i64 * 10);
            let remaining = self.velocity.minus(free);
            let d = free.plus(remaining.slide(normal));
            assert(FAST_THRESHOLD * FAST_THRESHOLD == 17179869184) by (nonlinear_arith)
                requires
                    FAST_THRESHOLD == 131072,
            ;
            let threshold: u64 = 17179869184;
            let (num, den): (i64, i64) = if d.length_sq() < threshold {
                (1, 2)
            } else {
                (3, 4)
            };
            self.velocity = Vec3 {
                x: scale_ratio(d.x, num, den),
                y: d.y,
                z: scale_ratio(d.z, num, den),
            };
            self.grounded = is_floor_like(normal);
        } else {
            self.grounded = false;
        }
        let step = self.velocity.scaled(dt_micros as i64, MICROS);
        self.position = self.position.plus(step);
    }

    /// Applies the input of one tick to the velocity and says whether a
    /// grenade is to be thrown. The position does not change here.
    pub fn physics_process(&mut self, input: &PlayerInput, dt_micros: u32) -> (r: Option<
        SpawnRequest,
    >)
        ensures
            *final(self) == old(self).after_input(*input, dt_micros),
            r == old(self).throw_request(*input),
    {
        let dx = key_axis(input.left, input.right);
        let dz = key_axis(input.forward, input.back);
        if dx != 0 || dz != 0 {
            let d = input.basis_x.scaled(dx, 1).plus(input.basis_z.scaled(dz, 1)).normalized();
            if self.grounded {
                self.velocity = Vec3 {
                    x: snap_component(self.velocity.x, d.x),
                    y: self.velocity.y,
                    z: snap_component(self.velocity.z, d.z),
                };
            } else {
                self.velocity = steer_in_air(self.velocity, d, dt_micros);
            }
        }
        if !self.grounded {
            let gravity = Vec3 { x: 0, y: GRAVITY, z: 0 };
            self.velocity = self.velocity.plus(gravity.scaled(dt_micros as i64, MICROS));
        } else if input.jump {
            self.velocity = Vec3 { x: self.velocity.x, y: JUMP_HEIGHT, z: self.velocity.z };
            self.grounded = false;
        }
        if input.throw {
            let direction = input.camera_z.normalized().negated();
            let start = self.position.plus(Vec3 { x: 0, y: 26214, z: 0 });
            Some(SpawnRequest { position: start.plus(direction.scaled(2, 5)), direction })
        } else {
            None
        }
    }

    /// Turns the look by a mouse movement.
    pub fn rotate_camera(&mut self, dx: i32, dy: i32)
        ensures
            *final(self) == old(self).after_look(dx, dy),
    {
        let pitch = sat_sub(self.look_pitch, scale_ratio(dy, 1, 500));
        self.look_pitch = if pitch < -PITCH_LIMIT {
            -PITCH_LIMIT
        } else if pitch > PITCH_LIMIT {
            PITCH_LIMIT
        } else {
            pitch
        };
        self.look_yaw = sat_sub(self.look_yaw, scale_ratio(dx, 1, 500));
    }

    /// Handles one input event: a left click captures the mouse, escape lets
    /// it go, and while it is captured a movement turns the look. Returns the
    /// pointer mode to set, if it is to change.
    pub fn unhandled_input(
        &mut self,
        left_pressed: bool,
        escape_pressed: bool,
        motion: Option<(i32, i32)>,
    ) -> (r: Option<MouseMode>)
        ensures
            r == if left_pressed {
                Some(MouseMode::Captured)
            } else if escape_pressed {
                Some(MouseMode::Visible)
            } else {
                None
            },
            ({
                let captured = left_pressed || (old(self).mouse_captured && !escape_pressed);
                let turned = match motion {
                    Some((dx, dy)) if captured => old(self).after_look(dx, dy),
                    _ => *old(self),
                };
                *final(self) == (Player { mouse_captured: captured, ..turned })
            }),
    {
        let r = if left_pressed {
            self.mouse_captured = true;
            Some(MouseMode::Captured)
        } else if escape_pressed {
            self.mouse_captured = false;
            Some(MouseMode::Visible)
        } else {
            None
        };
        if self.mouse_captured {
            match motion {
                Some((dx, dy)) => {
                    self.rotate_camera(dx, dy);
                },
                None => {},
            }
        }
        r
    }

    /// Takes the shapecast events of the player's point cloud for one tick:
    /// the earliest impact among them stands for the whole body, and the
    /// movement of the tick is resolved against it.
    pub fn update_pos(&mut self, dt_micros: u32, events: &Vec<Vec4>)
        ensures
            *final(self) == old(self).after_shapecast(dt_micros, earliest_spec(events@)),
    {
        self.on_update_pos(dt_micros, earliest_impact(events));
    }

    /// Takes the push of an explosion at `position`, if it is within reach.
    pub fn explosion(&mut self, position: Vec3)
        ensures
            *final(self) == old(self).after_explosion(position),
    {
        let offset = self.position.minus(position);
        assert(BLAST_REACH * BLAST_REACH == 107374182400) by (nonlinear_arith)
            requires
                BLAST_REACH == 327680,
        ;
        let reach: u64 = 107374182400;
        if offset.length_sq() < reach {
            let d = offset.normalized();
            let impulse = Vec3 {
                x: scale_ratio(d.x, 10, 1),
                y: scale_ratio(d.y, 5, 1),
                z: scale_ratio(d.z, 10, 1),
            };
            self.velocity = self.velocity.plus(impulse);
        }
    }
}

/// An impact leaves the vertical velocity as the deflection made it, and of
/// the horizontal velocity one half where the deflected speed is below the
/// threshold, three quarters where it is not.
pub proof fn lemma_momentum_kept(p: Player, dt_micros: u32, shapecast: Vec4)
    requires
        shapecast.w < ONE,
    ensures
        ({
            let d = deflected(p.velocity, shapecast.xyz_spec(), shapecast.w);
            let v = p.after_shapecast(dt_micros, shapecast).velocity;
            let slow = d.length_sq_spec() < FAST_THRESHOLD * FAST_THRESHOLD;
            &&& v.y == d.y
            &&& slow ==> v.x == ratio(d.x as int, 1, 2) && v.z == ratio(d.z as int, 1, 2)
            &&& !slow ==> v.x == ratio(d.x as int, 3, 4) && v.z == ratio(d.z as int, 3, 4)
        }),
{
}

/// Without an impact the velocity stays as it is, the player moves by it,
/// and it is in the air.
pub proof fn lemma_no_impact_moves_freely(p: Player, dt_micros: u32, shapecast: Vec4)
    requires
        shapecast.w >= ONE,
    ensures
        p.after_shapecast(dt_micros, shapecast).velocity == p.velocity,
        p.after_shapecast(dt_micros, shapecast).position == p.position.plus_spec(
            p.velocity.scaled_spec(dt_micros as int, MICROS as int),
        ),
        !p.after_shapecast(dt_micros, shapecast).grounded,
{
}

/// On the ground gravity does not act, and only from the ground does a jump:
/// it sets the vertical velocity and takes the player into the air.
pub proof fn lemma_jump_and_gravity(p: Player, input: PlayerInput, dt_micros: u32)
    requires
        !wants_move(input),
    ensures
        p.grounded && !input.jump ==> p.after_input(input, dt_micros) == p,
        p.grounded && input.jump ==> p.after_input(input, dt_micros) == (Player {
            velocity: Vec3 { y: JUMP_HEIGHT, ..p.velocity },
            grounded: false,
            ..p
        }),
        !p.grounded ==> p.after_input(input, dt_micros) == (Player {
            velocity: p.velocity.plus_spec(gravity_step(dt_micros)),
            ..p
        }),
{
}

/// The place of the `i`-th point on a ring.
fn ring_place(i: usize) -> (r: (i32, i32))
    ensures
        r == ring_offset(i as int),
{
    if i == 0 {
        (0, 6554)
    } else if i == 1 {
        (5676, 3277)
    } else if i == 2 {
        (5676, -3277)
    } else if i == 3 {
        (0, -6554)
    } else if i == 4 {
        (-5676, -3277)
    } else {
        (-5676, 3277)
    }
}

/// One axis of movement from its two keys.
pub fn key_axis(negative: bool, positive: bool) -> (r: i64)
    ensures
        r == axis(negative, positive),
{
    if negative == positive {
        0
    } else if negative {
        -1
    } else {
        1
    }
}

fn snap_component(v: i32, d: i32) -> (r: i32)
    ensures
        r == snap_up(v, d),
{
    let target = scale_ratio(d, SPEED as i64, ONE as i64);
    if magnitude(v) < magnitude(target) {
        target
    } else {
        v
    }
}

fn steer_in_air(v: Vec3, d: Vec3, dt_micros: u32) -> (r: Vec3)
    ensures
        r == steer_air(v, d, dt_micros),
{
    let h = Vec3 { x: v.x, y: 0, z: v.z };
    let force = d.scaled(AIR_ACCELERATION * (dt_micros as i64), MICROS);
    assert(AIR_SPEED * AIR_SPEED == 38654705664) by (nonlinear_arith)
        requires
            AIR_SPEED == 196608,
    ;
    let cap: u64 = 38654705664;
    if h.length_sq() < cap {
        v.plus(h.plus(force).capped(AIR_SPEED).minus(h))
    } else if h.dot(force) > 0 {
        v.plus(force.slide(h))
    } else {
        v.plus(force.scaled(3, 4))
    }
}

/// Decides whether a surface with normal `n` is a floor.
pub fn is_floor_like(n: Vec3) -> (r: bool)
    ensures
        r == floor_like(n),
{
    if n.y <= 0 {
        return false;
    }
    proof {
        crate::fixed::lemma_product_bound(n.y as int, n.y as int, 0x8000_0000, 0x8000_0000);
    }
    let yy: u64 = (n.y as u64) * (n.y as u64);
    let nn: u64 = n.length_sq();
    (yy as u128) * 4 > nn as u128
}

} // verus!
