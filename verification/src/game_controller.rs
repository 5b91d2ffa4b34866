//! The orchestrator: it owns the registry, the player and the grenades, ties
//! the life of every grenade to one slot, and drives them tick by tick.

use vstd::prelude::*;
use crate::fixed::MICROS;
use crate::grenade::{
    color_spec, out_of_range, properties_spec, Grenade, GrenadeState, GrenadeView,
};
use crate::map::{loaded, MapEntry};
use crate::player::{MouseMode, Player, PlayerInput, SpawnRequest};
use crate::query::{earliest_spec, events_of, KernelBatch, KernelReply};
use crate::sdf_controller::{next_hue, Frame, SdfController, CAPACITY, FLAG_NO_COLLISION};
use crate::slots::{
    is_lowest_free, lemma_count_update, occupied_count, SdfError, Shape, Slots,
};
use crate::vector::{Vec3, Vec4};

verus! {

/// The speed of a thrown grenade, in whole units per second.
pub const GRENADE_SPEED: i64 = 5;

/// The shape of a grenade at `position`: drawn, but exempt from collision.
pub open spec fn grenade_shape(position: Vec3) -> Shape {
    Shape {
        position: Vec4::from_vec3_spec(position, FLAG_NO_COLLISION),
        properties: properties_spec(),
        color: color_spec(),
    }
}

/// The grenade that a spawn creates.
pub open spec fn spawned(position: Vec3, direction: Vec3, address: usize) -> GrenadeView {
    GrenadeView {
        position,
        spawn: position,
        velocity: direction.scaled_spec(GRENADE_SPEED as int, 1),
        grenade_id: address,
        state: GrenadeState::Flying,
    }
}

/// Whether registry and grenades fit together: every grenade is alive and
/// holds an occupied slot, and no two grenades hold the same slot.
pub open spec fn consistent(slots: Slots, grenades: Seq<GrenadeView>) -> bool {
    &&& forall|i: int|
        0 <= i < grenades.len() ==> {
            let g = #[trigger] grenades[i];
            &&& g.state != GrenadeState::Destroyed
            &&& g.grenade_id < slots.len()
            &&& slots[g.grenade_id as int] is Some
        }
    &&& forall|i: int, j: int|
        0 <= i < j < grenades.len() ==> (#[trigger] grenades[i]).grenade_id != (
        #[trigger] grenades[j]).grenade_id
}

/// Whether the grenade at `i` is the one that holds the slot `id`.
pub open spec fn holds_slot(grenades: Seq<GrenadeView>, i: int, id: usize) -> bool {
    0 <= i < grenades.len() && grenades[i].grenade_id == id
}

/// The point at which a grenade is sampled for the collision query.
pub open spec fn collider(g: GrenadeView) -> Vec4 {
    Vec4::from_vec3_spec(g.position, FLAG_NO_COLLISION)
}

/// One grenade after the grenade pass of a tick with its collision event: a
/// flying grenade takes the event and then flies on; one that exploded on an
/// earlier pass is destroyed.
pub open spec fn tick_grenade(g: GrenadeView, event: Vec4, dt_micros: u32) -> GrenadeView {
    if g.state == GrenadeState::Flying {
        g.collided(event).stepped(dt_micros)
    } else {
        g.destroyed()
    }
}

/// The registry after the pass over the first `n` grenades: the shape of a
/// grenade that still flies follows it, the shape of one that exploded on this
/// pass stays where it is, and the slot of a destroyed one is released.
pub open spec fn registry_after(
    slots: Slots,
    grenades: Seq<GrenadeView>,
    events: Seq<Vec4>,
    dt_micros: u32,
    n: nat,
) -> Slots
    decreases n,
{
    if n == 0 {
        slots
    } else {
        let prev = registry_after(slots, grenades, events, dt_micros, (n - 1) as nat);
        let g = tick_grenade(grenades[n - 1], events[n - 1], dt_micros);
        match g.state {
            GrenadeState::Flying => prev.update(
                g.grenade_id as int,
                Some(grenade_shape(g.position)),
            ),
            GrenadeState::Exploded => prev,
            GrenadeState::Destroyed => prev.update(g.grenade_id as int, None),
        }
    }
}

/// Whether the grenade exploded on this very pass.
pub open spec fn just_exploded(g: GrenadeView, event: Vec4, dt_micros: u32) -> bool {
    g.state == GrenadeState::Flying && tick_grenade(g, event, dt_micros).state
        == GrenadeState::Exploded
}

/// The player after the pass over the first `n` grenades: every grenade that
/// exploded on this pass pushes the player, in the order of the grenades.
pub open spec fn player_after(
    player: Player,
    grenades: Seq<GrenadeView>,
    events: Seq<Vec4>,
    dt_micros: u32,
    n: nat,
) -> Player
    decreases n,
{
    if n == 0 {
        player
    } else {
        let prev = player_after(player, grenades, events, dt_micros, (n - 1) as nat);
        if just_exploded(grenades[n - 1], events[n - 1], dt_micros) {
            prev.after_explosion(tick_grenade(grenades[n - 1], events[n - 1], dt_micros).position)
        } else {
            prev
        }
    }
}

/// The grenades that are left of the first `n` after the pass, in order.
pub open spec fn survivors(
    grenades: Seq<GrenadeView>,
    events: Seq<Vec4>,
    dt_micros: u32,
    n: nat,
) -> Seq<GrenadeView>
    decreases n,
{
    if n == 0 {
        Seq::empty()
    } else {
        let prev = survivors(grenades, events, dt_micros, (n - 1) as nat);
        let g = tick_grenade(grenades[n - 1], events[n - 1], dt_micros);
        if g.state == GrenadeState::Destroyed {
            prev
        } else {
            prev.push(g)
        }
    }
}

/// Where grenades exploded on the pass over the first `n`, in order.
pub open spec fn explosions(
    grenades: Seq<GrenadeView>,
    events: Seq<Vec4>,
    dt_micros: u32,
    n: nat,
) -> Seq<Vec3>
    decreases n,
{
    if n == 0 {
        Seq::empty()
    } else {
        let prev = explosions(grenades, events, dt_micros, (n - 1) as nat);
        if just_exploded(grenades[n - 1], events[n - 1], dt_micros) {
            prev.push(tick_grenade(grenades[n - 1], events[n - 1], dt_micros).position)
        } else {
            prev
        }
    }
}

/// The slots released on the pass over the first `n` grenades, in order.
pub open spec fn released(
    grenades: Seq<GrenadeView>,
    events: Seq<Vec4>,
    dt_micros: u32,
    n: nat,
) -> Seq<usize>
    decreases n,
{
    if n == 0 {
        Seq::empty()
    } else {
        let prev = released(grenades, events, dt_micros, (n - 1) as nat);
        if tick_grenade(grenades[n - 1], events[n - 1], dt_micros).state
            == GrenadeState::Destroyed {
            prev.push(grenades[n - 1].grenade_id)
        } else {
            prev
        }
    }
}

/// The collision events of a tick with `n` grenades: without grenades no
/// query is made and the reply is not looked at.
pub open spec fn grenade_events(reply: KernelReply, n: nat) -> Result<Seq<Vec4>, SdfError> {
    if n == 0 {
        Ok(Seq::empty())
    } else {
        events_of(reply, n, n)
    }
}

/// What the grenade pass does to the registry, whatever the events: it
/// touches no slot but those of the grenades it has passed over, every
/// grenade not yet passed over still holds its slot, and the number of
/// occupied slots falls by exactly the number of grenades destroyed.
pub proof fn lemma_pass_counts(
    slots: Slots,
    grenades: Seq<GrenadeView>,
    events: Seq<Vec4>,
    dt_micros: u32,
    n: nat,
)
    requires
        consistent(slots, grenades),
        n <= grenades.len(),
    ensures
        registry_after(slots, grenades, events, dt_micros, n).len() == slots.len(),
        forall|j: int|
            n <= j < grenades.len() ==> registry_after(slots, grenades, events, dt_micros, n)[(
            #[trigger] grenades[j]).grenade_id as int] is Some,
        forall|a: int|
            0 <= a < slots.len() && (forall|k: int|
                0 <= k < n ==> (#[trigger] grenades[k]).grenade_id != a) ==> (
            #[trigger] registry_after(slots, grenades, events, dt_micros, n)[a]) == slots[a],
        occupied_count(registry_after(slots, grenades, events, dt_micros, n)) + released(
            grenades,
            events,
            dt_micros,
            n,
        ).len() == occupied_count(slots),
    decreases n,
{
    if n > 0 {
        let m = (n - 1) as nat;
        lemma_pass_counts(slots, grenades, events, dt_micros, m);
        let prev = registry_after(slots, grenades, events, dt_micros, m);
        let now = registry_after(slots, grenades, events, dt_micros, n);
        let before = grenades[n - 1];
        let g = tick_grenade(before, events[n - 1], dt_micros);
        let id = before.grenade_id as int;
        assert(g.grenade_id == before.grenade_id);
        assert(prev[id] is Some);
        assert forall|j: int| n <= j < grenades.len() implies now[(
        #[trigger] grenades[j]).grenade_id as int] is Some by {
            assert(grenades[n - 1].grenade_id != grenades[j].grenade_id);
            assert(prev[grenades[j].grenade_id as int] is Some);
        }
        assert forall|a: int|
            0 <= a < slots.len() && (forall|k: int|
                0 <= k < n ==> (#[trigger] grenades[k]).grenade_id != a) implies (
        #[trigger] now[a]) == slots[a] by {
            assert(grenades[n - 1].grenade_id != a);
            assert forall|k: int| 0 <= k < m implies (#[trigger] grenades[k]).grenade_id != a by {}
            assert(prev[a] == slots[a]);
        }
        match g.state {
            GrenadeState::Flying => {
                lemma_count_update(prev, id, Some(grenade_shape(g.position)));
            },
            GrenadeState::Exploded => {},
            GrenadeState::Destroyed => {
                lemma_count_update(prev, id, None);
            },
        }
    }
}

/// A grenade that has exploded is gone after the next pass: its slot is
/// free, it is not among the grenades that are left, and with no other
/// grenade about, exactly one slot fewer is occupied.
pub proof fn lemma_exploded_grenade_goes(
    slots: Slots,
    g: GrenadeView,
    event: Vec4,
    dt_micros: u32,
)
    requires
        consistent(slots, seq![g]),
        g.state == GrenadeState::Exploded,
    ensures
        registry_after(slots, seq![g], seq![event], dt_micros, 1) == slots.update(
            g.grenade_id as int,
            None,
        ),
        survivors(seq![g], seq![event], dt_micros, 1) == Seq::<GrenadeView>::empty(),
        released(seq![g], seq![event], dt_micros, 1) == seq![g.grenade_id],
        occupied_count(registry_after(slots, seq![g], seq![event], dt_micros, 1)) + 1
            == occupied_count(slots),
{
    let grenades = seq![g];
    let events = seq![event];
    reveal_with_fuel(registry_after, 2);
    reveal_with_fuel(survivors, 2);
    reveal_with_fuel(released, 2);
    assert(grenades[0] == g);
    assert(tick_grenade(g, event, dt_micros).state == GrenadeState::Destroyed);
    assert(released(grenades, events, dt_micros, 1) =~= seq![g.grenade_id]);
    lemma_pass_counts(slots, grenades, events, dt_micros, 1);
}

/// A flying grenade that is hit, or that flies out of its range, has
/// exploded after the pass and still holds its slot; the player is pushed
/// from where it exploded.
pub proof fn lemma_flying_grenade_explodes(
    slots: Slots,
    player: Player,
    g: GrenadeView,
    event: Vec4,
    dt_micros: u32,
)
    requires
        g.state == GrenadeState::Flying,
        event.w < 0 || out_of_range(g.stepped(dt_micros).position.minus_spec(g.spawn)),
    ensures
        tick_grenade(g, event, dt_micros).state == GrenadeState::Exploded,
        registry_after(slots, seq![g], seq![event], dt_micros, 1) == slots,
        survivors(seq![g], seq![event], dt_micros, 1) == seq![tick_grenade(g, event, dt_micros)],
        player_after(player, seq![g], seq![event], dt_micros, 1) == player.after_explosion(
            tick_grenade(g, event, dt_micros).position,
        ),
{
    let grenades = seq![g];
    let events = seq![event];
    reveal_with_fuel(registry_after, 2);
    reveal_with_fuel(survivors, 2);
    reveal_with_fuel(player_after, 2);
    assert(grenades[0] == g);
    assert(events[0] == event);
    assert(survivors(grenades, events, dt_micros, 1) =~= seq![tick_grenade(g, event, dt_micros)]);
}

/// What happened to the grenades in one tick.
pub struct TickReport {
    /// Where grenades exploded in this tick.
    pub explosions: Vec<Vec3>,
    /// The slots of the grenades that were destroyed in this tick.
    pub removed: Vec<usize>,
}

/// The grenades of a vector as plain data.
pub open spec fn views(grenades: Seq<Grenade>) -> Seq<GrenadeView> {
    Seq::new(grenades.len(), |i: int| grenades[i]@)
}

/// The orchestrator's state.
pub struct GameController {
    sdf_controller: SdfController,
    player: Player,
    grenades: Vec<Grenade>,
}

impl GameController {
    /// The slots of the registry.
    pub closed spec fn registry(&self) -> Slots {
        self.sdf_controller@
    }

    /// The registry with its parameters.
    pub closed spec fn sdf_spec(&self) -> SdfController {
        self.sdf_controller
    }

    pub closed spec fn player_spec(&self) -> Player {
        self.player
    }

    /// The live grenades in the order in which they were spawned.
    pub closed spec fn grenades_spec(&self) -> Seq<GrenadeView> {
        views(self.grenades@)
    }

    /// The invariant: the registry is well formed and fits the grenades.
    pub closed spec fn wf(&self) -> bool {
        &&& self.sdf_controller.wf()
        &&& consistent(self.registry(), self.grenades_spec())
    }

    /// What the invariant says to the outside.
    pub proof fn lemma_wf(&self)
        requires
            self.wf(),
        ensures
            self.sdf_spec().wf(),
            self.sdf_spec()@ == self.registry(),
            self.registry().len() == CAPACITY,
            consistent(self.registry(), self.grenades_spec()),
    {
        self.sdf_controller.lemma_view_len();
    }

    /// An orchestrator over a loaded registry, without grenades.
    pub fn init(sdf_controller: SdfController, player: Player) -> (r: GameController)
        requires
            sdf_controller.wf(),
        ensures
            r.wf(),
            r.sdf_spec() == sdf_controller,
            r.registry() == sdf_controller@,
            r.player_spec() == player,
            r.grenades_spec() == Seq::<GrenadeView>::empty(),
    {
        let r = GameController { sdf_controller, player, grenades: Vec::new() };
        proof {
            assert(r.grenades_spec() =~= Seq::<GrenadeView>::empty());
        }
        r
    }

    pub fn player(&self) -> (r: Player)
        ensures
            r == self.player_spec(),
    {
        self.player
    }

    pub fn sdf_controller(&self) -> (r: &SdfController)
        ensures
            *r == self.sdf_spec(),
    {
        &self.sdf_controller
    }

    /// The number of live grenades.
    pub fn grenade_count(&self) -> (n: usize)
        ensures
            n == self.grenades_spec().len(),
    {
        self.grenades.len()
    }

    /// The `i`-th live grenade.
    pub fn grenade(&self, i: usize) -> (r: Option<Grenade>)
        ensures
            match r {
                Some(g) => i < self.grenades_spec().len() && g@ == self.grenades_spec()[i as int],
                None => i >= self.grenades_spec().len(),
            },
    {
        if i < self.grenades.len() {
            Some(self.grenades[i])
        } else {
            None
        }
    }

    /// The number of occupied slots of the registry.
    pub fn active_count(&self) -> (n: usize)
        requires
            self.wf(),
        ensures
            n == occupied_count(self.registry()),
            n <= CAPACITY,
    {
        self.sdf_controller.active_count()
    }

    /// Spawns a grenade at `position`, thrown along `direction`. The slot is
    /// taken first; where the registry is full the spawn is refused, and
    /// nothing is created or changed.
    pub fn spawn_grenade(&mut self, position: Vec3, direction: Vec3) -> (r: Result<
        usize,
        SdfError,
    >)
        requires
            old(self).wf(),
        ensures
            final(self).wf(),
            final(self).player_spec() == old(self).player_spec(),
            r is Err <==> occupied_count(old(self).registry()) == CAPACITY,
            match r {
                Ok(a) => {
                    &&& is_lowest_free(old(self).registry(), a as int)
                    &&& final(self).registry() == old(self).registry().update(
                        a as int,
                        Some(grenade_shape(position)),
                    )
                    &&& occupied_count(final(self).registry()) == occupied_count(
                        old(self).registry(),
                    ) + 1
                    &&& final(self).grenades_spec() == old(self).grenades_spec().push(
                        spawned(position, direction, a),
                    )
                },
                Err(e) => {
                    &&& e == SdfError::RegistryFull
                    &&& final(self).registry() == old(self).registry()
                    &&& final(self).grenades_spec() == old(self).grenades_spec()
                },
            },
    {
        let shape_position = Vec4::from_vec3(position, FLAG_NO_COLLISION);
        let allocated = self.sdf_controller.new_shape(
            shape_position,
            crate::grenade::properties(),
            crate::grenade::color(),
        );
        match allocated {
            Ok(address) => {
                let grenade = Grenade::initialize(
                    position,
                    direction.scaled(GRENADE_SPEED, 1),
                    address,
                );
                self.grenades.push(grenade);
                proof {
                    let before = old(self).grenades_spec();
                    let after = self.grenades_spec();
                    assert(after =~= before.push(spawned(position, direction, address)));
                    assert forall|i: int| 0 <= i < after.len() implies {
                        let g = #[trigger] after[i];
                        &&& g.state != GrenadeState::Destroyed
                        &&& g.grenade_id < self.registry().len()
                        &&& self.registry()[g.grenade_id as int] is Some
                    } by {
                        if i < before.len() {
                            assert(after[i] == before[i]);
                        }
                    }
                    assert forall|i: int, j: int| 0 <= i < j < after.len() implies (
                    #[trigger] after[i]).grenade_id != (#[trigger] after[j]).grenade_id by {
                        assert(after[i] == before[i]);
                        if j < before.len() {
                            assert(after[j] == before[j]);
                        }
                    }
                }
                Ok(address)
            },
            Err(e) => Err(e),
        }
    }

    /// Removes the grenade that holds the slot `grenade_id`: the grenade is
    /// destroyed and its slot released. Where no live grenade holds that
    /// slot nothing changes, so that a second removal does no harm.
    pub fn remove_grenade(&mut self, grenade_id: usize) -> (r: Result<(), SdfError>)
        requires
            old(self).wf(),
        ensures
            final(self).wf(),
            final(self).player_spec() == old(self).player_spec(),
            r is Ok <==> exists|i: int| holds_slot(old(self).grenades_spec(), i, grenade_id),
            match r {
                Ok(_) => {
                    &&& exists|i: int|
                        holds_slot(old(self).grenades_spec(), i, grenade_id)
                            && final(self).grenades_spec() == old(self).grenades_spec().remove(i)
                    &&& final(self).registry() == old(self).registry().update(
                        grenade_id as int,
                        None,
                    )
                    &&& occupied_count(final(self).registry()) + 1 == occupied_count(
                        old(self).registry(),
                    )
                },
                Err(e) => {
                    &&& e == SdfError::InvalidAddress
                    &&& final(self).registry() == old(self).registry()
                    &&& final(self).grenades_spec() == old(self).grenades_spec()
                    &&& final(self).sdf_spec() == old(self).sdf_spec()
                },
            },
    {
        let mut i: usize = 0;
        while i < self.grenades.len() && self.grenades[i].grenade_id() != grenade_id
            invariant
                i <= self.grenades@.len(),
                *self == *old(self),
                forall|j: int| 0 <= j < i ==> !holds_slot(self.grenades_spec(), j, grenade_id),
            decreases self.grenades@.len() - i,
        {
            i = i + 1;
        }
        if i == self.grenades.len() {
            return Err(SdfError::InvalidAddress);
        }
        let ghost before = self.grenades_spec();
        assert(holds_slot(before, i as int, grenade_id));
        let mut grenade = self.grenades.remove(i);
        if grenade.destroy() {
            let released = self.sdf_controller.remove_shape(grenade_id);
            assert(released is Ok);
        }
        proof {
            let after = self.grenades_spec();
            assert(after =~= before.remove(i as int));
            assert forall|k: int| 0 <= k < after.len() implies {
                let g = #[trigger] after[k];
                &&& g.state != GrenadeState::Destroyed
                &&& g.grenade_id < self.registry().len()
                &&& self.registry()[g.grenade_id as int] is Some
            } by {
                if k < i {
                    assert(after[k] == before[k]);
                    assert(before[k].grenade_id != before[i as int].grenade_id);
                } else {
                    assert(after[k] == before[k + 1]);
                    assert(before[i as int].grenade_id != before[k + 1].grenade_id);
                }
            }
            assert forall|a: int, b: int| 0 <= a < b < after.len() implies (
            #[trigger] after[a]).grenade_id != (#[trigger] after[b]).grenade_id by {
                let a0 = if a < i { a } else { a + 1 };
                let b0 = if b < i { b } else { b + 1 };
                assert(after[a] == before[a0]);
                assert(after[b] == before[b0]);
            }
        }
        Ok(())
    }

    /// Applies the player's input of one tick, and spawns the grenade where
    /// the input asks for a throw. Returns what came of the throw, if any.
    pub fn on_player_input(&mut self, input: &PlayerInput, dt_micros: u32) -> (r: Option<
        Result<usize, SdfError>,
    >)
        requires
            old(self).wf(),
        ensures
            final(self).wf(),
            final(self).player_spec() == old(self).player_spec().after_input(*input, dt_micros),
            match old(self).player_spec().throw_request(*input) {
                None => {
                    &&& r is None
                    &&& final(self).registry() == old(self).registry()
                    &&& final(self).grenades_spec() == old(self).grenades_spec()
                },
                Some(request) => match r {
                    Some(Ok(a)) => {
                        &&& is_lowest_free(old(self).registry(), a as int)
                        &&& final(self).registry() == old(self).registry().update(
                            a as int,
                            Some(grenade_shape(request.position)),
                        )
                        &&& final(self).grenades_spec() == old(self).grenades_spec().push(
                            spawned(request.position, request.direction, a),
                        )
                    },
                    Some(Err(e)) => {
                        &&& e == SdfError::RegistryFull
                        &&& occupied_count(old(self).registry()) == CAPACITY
                        &&& final(self).registry() == old(self).registry()
                        &&& final(self).grenades_spec() == old(self).grenades_spec()
                    },
                    None => false,
                },
            },
    {
        let request = self.player.physics_process(input, dt_micros);
        match request {
            Some(SpawnRequest { position, direction }) => Some(
                self.spawn_grenade(position, direction),
            ),
            None => None,
        }
    }

    /// The batch of the player's shapecast for a tick of `dt_micros`: the
    /// point cloud, swept by the way the player would go in that time.
    pub fn shapecast_query(&self, dt_micros: u32) -> (batch: KernelBatch)
        requires
            self.wf(),
        ensures
            batch.points@ == self.player_spec().points_spec().push(
                Vec4::from_vec3_spec(
                    self.player_spec().velocity.scaled_spec(dt_micros as int, MICROS as int),
                    0,
                ),
            ),
            batch.carries(self.registry(), self.sdf_spec().blend_spec()),
    {
        let points = self.player.get_points();
        let step = self.player.get_velocity().scaled(dt_micros as i64, MICROS);
        self.sdf_controller.shapecast_batch(&points, Vec4::from_vec3(step, 0))
    }

    /// The batch of the grenades' collision query, or `None` where there is
    /// no grenade to ask for.
    pub fn collision_query(&self) -> (r: Option<KernelBatch>)
        requires
            self.wf(),
        ensures
            r is None <==> self.grenades_spec().len() == 0,
            match r {
                Some(batch) => {
                    &&& batch.points@ == self.grenades_spec().map_values(
                        |g: GrenadeView| collider(g),
                    )
                    &&& batch.carries(self.registry(), self.sdf_spec().blend_spec())
                },
                None => true,
            },
    {
        if self.grenades.len() == 0 {
            None
        } else {
            let colliders = self.get_grenade_colliders();
            Some(self.sdf_controller.collision_batch(&colliders))
        }
    }

    /// One tick, given the kernel's replies to `shapecast_query` and to
    /// `collision_query`. The player's move is resolved against the earliest
    /// impact of its point cloud and the field is anchored at the player.
    /// Then every grenade takes its event and flies on, or is destroyed if it
    /// exploded on the pass before. Where a reply is missing or of the wrong
    /// size the tick is abandoned and nothing changes.
    pub fn physics_process(
        &mut self,
        dt_micros: u32,
        shapecast: &KernelReply,
        collision: &KernelReply,
    ) -> (r: Result<TickReport, SdfError>)
        requires
            old(self).wf(),
        ensures
            final(self).wf(),
            ({
                let points = old(self).player_spec().points_spec();
                let grenades = old(self).grenades_spec();
                let n = grenades.len();
                let cast = events_of(*shapecast, points.len(), points.len() + 1);
                let hits = grenade_events(*collision, n);
                match r {
                    Err(e) => {
                        &&& e == SdfError::KernelUnavailable
                        &&& cast is Err || hits is Err
                        &&& final(self).registry() == old(self).registry()
                        &&& final(self).player_spec() == old(self).player_spec()
                        &&& final(self).grenades_spec() == grenades
                        &&& final(self).sdf_spec() == old(self).sdf_spec()
                    },
                    Ok(report) => {
                        &&& cast is Ok
                        &&& hits is Ok
                        &&& ({
                            let moved = old(self).player_spec().after_shapecast(
                                dt_micros,
                                earliest_spec(cast->Ok_0),
                            );
                            let events = hits->Ok_0;
                            &&& final(self).player_spec() == player_after(
                                moved,
                                grenades,
                                events,
                                dt_micros,
                                n,
                            )
                            &&& final(self).registry() == registry_after(
                                old(self).registry(),
                                grenades,
                                events,
                                dt_micros,
                                n,
                            )
                            &&& final(self).grenades_spec() == survivors(
                                grenades,
                                events,
                                dt_micros,
                                n,
                            )
                            &&& report.explosions@ == explosions(grenades, events, dt_micros, n)
                            &&& report.removed@ == released(grenades, events, dt_micros, n)
                            &&& final(self).sdf_spec().origin_spec() == moved.position
                            &&& final(self).sdf_spec().blend_spec()
                                == old(self).sdf_spec().blend_spec()
                        })
                    },
                }
            }),
    {
        let points = self.player.get_points();
        let cast = match self.sdf_controller.compute_shapecast(&points, shapecast) {
            Ok(events) => events,
            Err(e) => {
                return Err(e);
            },
        };
        let hits = if self.grenades.len() == 0 {
            Vec::new()
        } else {
            let colliders = self.get_grenade_colliders();
            match self.sdf_controller.compute_collision(&colliders, collision) {
                Ok(events) => events,
                Err(e) => {
                    return Err(e);
                },
            }
        };
        proof {
            if self.grenades@.len() == 0 {
                assert(hits@ =~= Seq::<Vec4>::empty());
            }
        }
        self.player.update_pos(dt_micros, &cast);
        self.sdf_controller.set_origin(self.player.get_position());
        let report = self.grenade_pass(&hits, dt_micros);
        Ok(report)
    }

    /// The grenade pass of a tick.
    fn grenade_pass(&mut self, hits: &Vec<Vec4>, dt_micros: u32) -> (report: TickReport)
        requires
            old(self).wf(),
            hits@.len() == old(self).grenades_spec().len(),
        ensures
            final(self).wf(),
            final(self).sdf_spec().origin_spec() == old(self).sdf_spec().origin_spec(),
            final(self).sdf_spec().blend_spec() == old(self).sdf_spec().blend_spec(),
            ({
                let grenades = old(self).grenades_spec();
                let n = grenades.len();
                &&& final(self).player_spec() == player_after(
                    old(self).player_spec(),
                    grenades,
                    hits@,
                    dt_micros,
                    n,
                )
                &&& final(self).registry() == registry_after(
                    old(self).registry(),
                    grenades,
                    hits@,
                    dt_micros,
                    n,
                )
                &&& final(self).grenades_spec() == survivors(grenades, hits@, dt_micros, n)
                &&& report.explosions@ == explosions(grenades, hits@, dt_micros, n)
                &&& report.removed@ == released(grenades, hits@, dt_micros, n)
            }),
    {
        let ghost gs = self.grenades_spec();
        let ghost slots0 = self.registry();
        let ghost player0 = self.player;
        let n = self.grenades.len();
        let mut kept: Vec<Grenade> = Vec::new();
        let mut blasts: Vec<Vec3> = Vec::new();
        let mut removed: Vec<usize> = Vec::new();
        let mut i: usize = 0;
        proof {
            self.sdf_controller.lemma_view_len();
        }
        while i < n
            invariant
                i <= n,
                n == gs.len(),
                hits@.len() == n,
                self.grenades == old(self).grenades,
                gs == old(self).grenades_spec(),
                consistent(slots0, gs),
                slots0.len() == CAPACITY,
                self.sdf_controller.wf(),
                self.sdf_controller@.len() == CAPACITY,
                self.sdf_controller.origin_spec() == old(self).sdf_controller.origin_spec(),
                self.sdf_controller.blend_spec() == old(self).sdf_controller.blend_spec(),
                self.sdf_controller@ == registry_after(slots0, gs, hits@, dt_micros, i as nat),
                self.player == player_after(player0, gs, hits@, dt_micros, i as nat),
                views(kept@) == survivors(gs, hits@, dt_micros, i as nat),
                blasts@ == explosions(gs, hits@, dt_micros, i as nat),
                removed@ == released(gs, hits@, dt_micros, i as nat),
                forall|k: int|
                    i <= k < n ==> self.sdf_controller@[(#[trigger] gs[k]).grenade_id as int]
                        is Some,
                consistent(self.sdf_controller@, views(kept@)),
                forall|j: int|
                    0 <= j < kept@.len() ==> exists|k: int|
                        0 <= k < i && gs[k].grenade_id == (#[trigger] views(kept@)[j]).grenade_id,
            decreases n - i,
        {
            let ghost before = self.sdf_controller@;
            let ghost kept_before = views(kept@);
            let mut g = self.grenades[i];
            assert(g@ == gs[i as int]);
            let id = g.grenade_id();
            proof {
                assert forall|j: int| 0 <= j < kept_before.len() implies (
                #[trigger] kept_before[j]).grenade_id != id by {
                    let k = choose|k: int|
                        0 <= k < i && gs[k].grenade_id == kept_before[j].grenade_id;
                    assert(gs[k].grenade_id != gs[i as int].grenade_id);
                }
                assert forall|k: int| i < k < n implies (#[trigger] gs[k]).grenade_id != id by {
                    assert(gs[i as int].grenade_id != gs[k].grenade_id);
                }
            }
            match g.state() {
                GrenadeState::Flying => {
                    g.collision(hits[i]);
                    g.physics_process(dt_micros);
                    assert(g@ == tick_grenade(gs[i as int], hits@[i as int], dt_micros));
                    if g.exploded() {
                        self.player.explosion(g.get_position());
                        blasts.push(g.get_position());
                    } else {
                        let moved = self.sdf_controller.update_shape(
                            id,
                            Vec4::from_vec3(g.get_position(), FLAG_NO_COLLISION),
                            crate::grenade::properties(),
                            crate::grenade::color(),
                        );
                        assert(moved is Ok);
                    }
                    kept.push(g);
                    proof {
                        assert(views(kept@) =~= kept_before.push(g@));
                        let now = views(kept@);
                        assert forall|j: int| 0 <= j < now.len() implies {
                            let h = #[trigger] now[j];
                            &&& h.state != GrenadeState::Destroyed
                            &&& h.grenade_id < self.sdf_controller@.len()
                            &&& self.sdf_controller@[h.grenade_id as int] is Some
                        } by {
                            if j < kept_before.len() {
                                assert(now[j] == kept_before[j]);
                            }
                        }
                        assert forall|a: int, b: int| 0 <= a < b < now.len() implies (
                        #[trigger] now[a]).grenade_id != (#[trigger] now[b]).grenade_id by {
                            assert(now[a] == kept_before[a]);
                            if b < kept_before.len() {
                                assert(now[b] == kept_before[b]);
                            }
                        }
                        assert forall|j: int| 0 <= j < now.len() implies exists|k: int|
                            0 <= k < i + 1 && gs[k].grenade_id == (#[trigger] now[j]).grenade_id by {
                            if j < kept_before.len() {
                                assert(now[j] == kept_before[j]);
                                let k = choose|k: int|
                                    0 <= k < i && gs[k].grenade_id == kept_before[j].grenade_id;
                                assert(0 <= k < i + 1 && gs[k].grenade_id == now[j].grenade_id);
                            } else {
                                assert(gs[i as int].grenade_id == now[j].grenade_id);
                            }
                        }
                    }
                },
                _ => {
                    if g.destroy() {
                        let freed = self.sdf_controller.remove_shape(id);
                        assert(freed is Ok);
                        removed.push(id);
                    }
                    assert(g@ == tick_grenade(gs[i as int], hits@[i as int], dt_micros));
                    proof {
                        let now = views(kept@);
                        assert forall|j: int| 0 <= j < now.len() implies {
                            let h = #[trigger] now[j];
                            &&& h.state != GrenadeState::Destroyed
                            &&& h.grenade_id < self.sdf_controller@.len()
                            &&& self.sdf_controller@[h.grenade_id as int] is Some
                        } by {
                            assert(now[j].grenade_id != id);
                        }
                    }
                },
            }
            proof {
                assert forall|k: int| i + 1 <= k < n implies self.sdf_controller@[(
                #[trigger] gs[k]).grenade_id as int] is Some by {
                    assert(gs[k].grenade_id != id);
                    assert(before[gs[k].grenade_id as int] is Some);
                }
            }
            i = i + 1;
        }
        self.grenades = kept;
        proof {
            assert(self.grenades_spec() =~= views(kept@));
        }
        TickReport { explosions: blasts, removed }
    }

    /// Replaces the world by the shapes of a map. The grenades in flight go
    /// with the old world: their slots are gone, and so are they. Returns
    /// how many shapes were loaded.
    pub fn load_map(&mut self, entries: &Vec<MapEntry>) -> (count: usize)
        requires
            old(self).wf(),
        ensures
            final(self).wf(),
            final(self).registry() == loaded(entries@),
            final(self).grenades_spec() == Seq::<GrenadeView>::empty(),
            final(self).player_spec() == old(self).player_spec(),
            count == if entries@.len() < CAPACITY {
                entries@.len()
            } else {
                CAPACITY as nat
            },
            final(self).sdf_spec().blend_spec() == old(self).sdf_spec().blend_spec(),
            final(self).sdf_spec().hue_spec() == old(self).sdf_spec().hue_spec(),
            final(self).sdf_spec().origin_spec() == old(self).sdf_spec().origin_spec(),
    {
        self.grenades = Vec::new();
        let count = self.sdf_controller.load_map(entries);
        proof {
            assert(self.grenades_spec() =~= Seq::<GrenadeView>::empty());
        }
        count
    }

    /// One tick of the field itself, and what the renderer is to be given
    /// after it: see `SdfController::physics_process`.
    pub fn render_frame(&mut self, dt_micros: u32) -> (frame: Frame)
        requires
            old(self).wf(),
        ensures
            final(self).wf(),
            final(self).registry() == old(self).registry(),
            final(self).grenades_spec() == old(self).grenades_spec(),
            final(self).player_spec() == old(self).player_spec(),
            final(self).sdf_spec().blend_spec() == old(self).sdf_spec().blend_spec(),
            final(self).sdf_spec().origin_spec() == old(self).sdf_spec().origin_spec(),
            final(self).sdf_spec().hue_spec() == next_hue(
                old(self).sdf_spec().hue_spec(),
                dt_micros,
            ),
            frame.blend_factor == final(self).sdf_spec().blend_spec(),
            frame.background_hue == final(self).sdf_spec().hue_spec(),
            frame.shapes.shows(final(self).registry()),
    {
        self.sdf_controller.physics_process(dt_micros)
    }

    /// Sets the blend factor of the field; a negative one counts as zero.
    pub fn set_blend_factor(&mut self, blend_factor: i32)
        requires
            old(self).wf(),
        ensures
            final(self).wf(),
            final(self).registry() == old(self).registry(),
            final(self).grenades_spec() == old(self).grenades_spec(),
            final(self).player_spec() == old(self).player_spec(),
            final(self).sdf_spec().blend_spec() == if blend_factor < 0 {
                0
            } else {
                blend_factor
            },
    {
        self.sdf_controller.set_blend_factor(blend_factor);
    }

    /// Turns the player's look by a mouse event: see `Player::unhandled_input`.
    pub fn on_unhandled_input(
        &mut self,
        left_pressed: bool,
        escape_pressed: bool,
        motion: Option<(i32, i32)>,
    ) -> (r: Option<MouseMode>)
        requires
            old(self).wf(),
        ensures
            final(self).wf(),
            final(self).registry() == old(self).registry(),
            final(self).grenades_spec() == old(self).grenades_spec(),
            final(self).sdf_spec() == old(self).sdf_spec(),
            r == if left_pressed {
                Some(MouseMode::Captured)
            } else if escape_pressed {
                Some(MouseMode::Visible)
            } else {
                None
            },
            ({
                let captured = left_pressed || (old(self).player_spec().mouse_captured
                    && !escape_pressed);
                let turned = match motion {
                    Some((dx, dy)) if captured => old(self).player_spec().after_look(dx, dy),
                    _ => old(self).player_spec(),
                };
                final(self).player_spec() == (Player { mouse_captured: captured, ..turned })
            }),
    {
        self.player.unhandled_input(left_pressed, escape_pressed, motion)
    }

    /// The points at which the grenades are sampled, in their order.
    pub fn get_grenade_colliders(&self) -> (colliders: Vec<Vec4>)
        ensures
            colliders@ == self.grenades_spec().map_values(|g: GrenadeView| collider(g)),
    {
        let mut colliders: Vec<Vec4> = Vec::new();
        let mut i: usize = 0;
        while i < self.grenades.len()
            invariant
                i <= self.grenades@.len(),
                colliders@.len() == i,
                forall|k: int| 0 <= k < i ==> colliders@[k] == collider(self.grenades@[k]@),
            decreases self.grenades@.len() - i,
        {
            colliders.push(Vec4::from_vec3(self.grenades[i].get_position(), FLAG_NO_COLLISION));
            i = i + 1;
        }
        proof {
            assert(colliders@ =~= self.grenades_spec().map_values(|g: GrenadeView| collider(g)));
        }
        colliders
    }
}

} // verus!
