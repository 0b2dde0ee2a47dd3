//! Event-driven integration: one play session stepped once per game tick.
//!
//! Collaborators (placement, spawner, death cleanup) hand a batch of
//! trigger events to [`Session::tick`]; the session applies them, then
//! recomputes the powered set and rebuilds every proximity cache before
//! anything downstream reads them — within the same tick, never deferred.
//! These three event kinds are the only legitimate recompute triggers; the
//! per-tick drain pass ([`Session::drain_tick`]) only reads the caches.

use vstd::prelude::*;

use crate::geom::Position;
use crate::node::{PowerNode, Role};
use crate::power::{recompute, settled, transition_seq, PowerTransition};
use crate::proximity::{
    drained_units, members_of, CacheModel, ProximityCache, Unit,
};
use crate::registry::{
    count_roots, has_node_id, id_powered, ids_unique, lemma_position_of_id, position_of_id,
    ConfigError, Registry,
};

verus! {

/// Health a mobile consumer unit spawns with.
pub const UNIT_FULL_HEALTH: u32 = 100;

/// Drain damage applied to each cached unit per drain tick.
pub const DRAIN_DAMAGE_PER_TICK: u32 = 2;

/// The discrete trigger events that alone may cause a recompute: a
/// structure was placed, a mobile unit appeared, a mobile unit died.
#[derive(Clone, Copy, Debug)]
pub enum GameEvent {
    /// A structure was placed. `drain_radius` is set for area-effect
    /// structures, which get a proximity cache of their own.
    BuildingAdded { id: u64, position: Position, role: Role, drain_radius: Option<u32> },
    /// A mobile consumer unit appeared.
    UnitSpawned { id: u64, position: Position },
    /// A mobile consumer unit was destroyed.
    UnitDied { id: u64 },
}

/// Mathematical model of a whole session: registry, unit population, and
/// the cached target sets.
#[verifier::ext_equal]
pub struct SessionModel {
    pub nodes: Seq<PowerNode>,
    pub units: Seq<Unit>,
    pub caches: Seq<CacheModel>,
}

/// The unit population with every unit carrying `id` removed.
pub open spec fn units_without(units: Seq<Unit>, id: u64) -> Seq<Unit>
    decreases units.len(),
{
    if units.len() == 0 {
        Seq::empty()
    } else {
        let rest = units_without(units.drop_last(), id);
        if units.last().id == id {
            rest
        } else {
            rest.push(units.last())
        }
    }
}

/// Removal removes: no unit of the remaining population carries the
/// removed id.
proof fn lemma_units_without_no_id(units: Seq<Unit>, id: u64)
    ensures
        forall|t: int|
            0 <= t < units_without(units, id).len() ==> (#[trigger] units_without(units, id)[t]).id
                != id,
    decreases units.len(),
{
    if units.len() > 0 {
        lemma_units_without_no_id(units.drop_last(), id);
        let rest = units_without(units.drop_last(), id);
        if units.last().id != id {
            assert forall|t: int| 0 <= t < units_without(units, id).len() implies (
            #[trigger] units_without(units, id)[t]).id != id by {
                if t < rest.len() {
                    assert(units_without(units, id)[t] == rest[t]);
                } else {
                    assert(units_without(units, id)[t] == units.last());
                }
            }
        }
    }
}

/// Death law for the proximity cache: once a unit died, a rebuild against
/// the remaining population never lists its id again, whatever the
/// emitter, in one pass over the population.
pub proof fn lemma_dead_unit_absent(center: Position, radius: u32, units: Seq<Unit>, id: u64)
    ensures
        !members_of(center, radius, units_without(units, id)).contains(id),
{
    lemma_units_without_no_id(units, id);
    crate::proximity::lemma_members_of_contains(center, radius, units_without(units, id), id);
}

/// What one trigger event does to the session state. A structure whose id
/// is already taken is refused (the event is ignored); units are simply
/// appended or removed.
pub open spec fn apply_event_model(m: SessionModel, e: GameEvent) -> SessionModel {
    match e {
        GameEvent::BuildingAdded { id, position, role, drain_radius } => {
            if has_node_id(m.nodes, id) {
                m
            } else {
                SessionModel {
                    nodes: m.nodes.push(
                        PowerNode {
                            id,
                            position,
                            role,
                            is_root_source: false,
                            is_powered: false,
                        },
                    ),
                    units: m.units,
                    caches: match drain_radius {
                        Some(radius) => m.caches.push(
                            CacheModel { owner_id: id, radius, members: Seq::empty() },
                        ),
                        None => m.caches,
                    },
                }
            }
        },
        GameEvent::UnitSpawned { id, position } => SessionModel {
            nodes: m.nodes,
            units: m.units.push(Unit { id, position, health: UNIT_FULL_HEALTH }),
            caches: m.caches,
        },
        GameEvent::UnitDied { id } => SessionModel {
            nodes: m.nodes,
            units: units_without(m.units, id),
            caches: m.caches,
        },
    }
}

/// A whole batch of events, applied in order.
pub open spec fn apply_events_model(m: SessionModel, events: Seq<GameEvent>) -> SessionModel
    decreases events.len(),
{
    if events.len() == 0 {
        m
    } else {
        apply_event_model(apply_events_model(m, events.drop_last()), events.last())
    }
}

/// The recompute that ends every tick with at least one event: powered
/// flags settle to the fixed point and every cache is rebuilt against the
/// current unit population.
pub open spec fn settle_model(m: SessionModel) -> SessionModel {
    let nodes = settled(m.nodes);
    SessionModel {
        nodes,
        units: m.units,
        caches: m.caches.map_values(
            |c: CacheModel| CacheModel {
                owner_id: c.owner_id,
                radius: c.radius,
                members: members_of(position_of_id(nodes, c.owner_id), c.radius, m.units),
            },
        ),
    }
}

/// Structural well-formedness of a session state: ids identify
/// structures, exactly one root source exists, and every cache belongs to
/// a structure that is present.
pub open spec fn model_inv(m: SessionModel) -> bool {
    &&& ids_unique(m.nodes)
    &&& count_roots(m.nodes) == 1
    &&& forall|k: int|
        0 <= k < m.caches.len() ==> has_node_id(m.nodes, #[trigger] m.caches[k].owner_id)
}

/// A settled session state: well formed, flags at the fixed point, caches
/// reproducible from the current registry and unit population.
pub open spec fn settled_inv(m: SessionModel) -> bool {
    &&& model_inv(m)
    &&& m.nodes == settled(m.nodes)
    &&& forall|k: int|
        0 <= k < m.caches.len() ==> (#[trigger] m.caches[k]).members == members_of(
            position_of_id(m.nodes, m.caches[k].owner_id),
            m.caches[k].radius,
            m.units,
        )
}

/// The view of the executable cache list.
pub open spec fn caches_view(caches: Seq<ProximityCache>) -> Seq<CacheModel> {
    caches.map_values(|c: ProximityCache| c@)
}

/// One play session: the registry of structures, the mobile unit
/// population, and one proximity cache per area-effect structure. All
/// mutation goes through [`Session::tick`] and [`Session::drain_tick`],
/// so the state downstream readers see is never transiently inconsistent.
pub struct Session {
    pub registry: Registry,
    pub units: Vec<Unit>,
    pub caches: Vec<ProximityCache>,
}

impl View for Session {
    type V = SessionModel;

    open spec fn view(&self) -> SessionModel {
        SessionModel {
            nodes: self.registry.nodes@,
            units: self.units@,
            caches: caches_view(self.caches@),
        }
    }
}

// ---------------------------------------------------------------------
// Lemmas about the model.
// ---------------------------------------------------------------------

/// A root count is a count: never negative.
proof fn lemma_count_roots_nonneg(nodes: Seq<PowerNode>)
    ensures
        count_roots(nodes) >= 0,
    decreases nodes.len(),
{
    if nodes.len() > 0 {
        lemma_count_roots_nonneg(nodes.drop_last());
    }
}

/// A registry with no root never counts one.
proof fn lemma_count_roots_zero(nodes: Seq<PowerNode>)
    requires
        count_roots(nodes) == 0,
    ensures
        forall|i: int| 0 <= i < nodes.len() ==> !(#[trigger] nodes[i]).is_root_source,
    decreases nodes.len(),
{
    if nodes.len() > 0 {
        lemma_count_roots_nonneg(nodes.drop_last());
        lemma_count_roots_zero(nodes.drop_last());
        assert(forall|i: int|
            0 <= i < nodes.len() - 1 ==> #[trigger] nodes[i] == nodes.drop_last()[i]);
    }
}

/// A registry counting exactly one root has exactly one root index.
pub proof fn lemma_single_root(nodes: Seq<PowerNode>)
    requires
        count_roots(nodes) == 1,
    ensures
        exists|i: int|
            0 <= i < nodes.len() && (#[trigger] nodes[i]).is_root_source && forall|j: int|
                0 <= j < nodes.len() && (#[trigger] nodes[j]).is_root_source ==> j == i,
    decreases nodes.len(),
{
    assert(nodes.len() > 0);
    if nodes.last().is_root_source {
        lemma_count_roots_nonneg(nodes.drop_last());
        lemma_count_roots_zero(nodes.drop_last());
        let w: int = nodes.len() - 1;
        assert(nodes[w].is_root_source && forall|j: int|
            0 <= j < nodes.len() && (#[trigger] nodes[j]).is_root_source ==> j == w) by {
            assert forall|j: int|
                0 <= j < nodes.len() && (#[trigger] nodes[j]).is_root_source implies j == w by {
                if j < w {
                    assert(nodes.drop_last()[j] == nodes[j]);
                }
            }
        }
    } else {
        lemma_single_root(nodes.drop_last());
        let w = choose|i: int|
            0 <= i < nodes.len() - 1 && (#[trigger] nodes.drop_last()[i]).is_root_source
                && forall|j: int|
                0 <= j < nodes.len() - 1 && (#[trigger] nodes.drop_last()[j]).is_root_source
                    ==> j == i;
        assert(nodes[w] == nodes.drop_last()[w]);
        assert(nodes[w].is_root_source && forall|j: int|
            0 <= j < nodes.len() && (#[trigger] nodes[j]).is_root_source ==> j == w) by {
            assert forall|j: int|
                0 <= j < nodes.len() && (#[trigger] nodes[j]).is_root_source implies j == w by {
                assert(j < nodes.len() - 1);
                assert(nodes.drop_last()[j] == nodes[j]);
            }
        }
    }
}

/// Root invariant law: a settled session holds exactly one node with
/// `is_root_source`, and that node is powered.
pub proof fn lemma_root_invariant(m: SessionModel)
    requires
        settled_inv(m),
    ensures
        exists|i: int|
            0 <= i < m.nodes.len() && (#[trigger] m.nodes[i]).is_root_source
                && m.nodes[i].is_powered && forall|j: int|
                0 <= j < m.nodes.len() && (#[trigger] m.nodes[j]).is_root_source ==> j == i,
{
    lemma_single_root(m.nodes);
    let i = choose|i: int|
        0 <= i < m.nodes.len() && (#[trigger] m.nodes[i]).is_root_source && forall|j: int|
            0 <= j < m.nodes.len() && (#[trigger] m.nodes[j]).is_root_source ==> j == i;
    assert(m.nodes[i] == settled(m.nodes)[i]);
    crate::power::lemma_root_powered(m.nodes, i);
    assert(m.nodes[i].is_powered);
}

/// Settling changes no layout, so well-formedness carries over.
proof fn lemma_settled_model_inv(m: SessionModel)
    requires
        model_inv(m),
    ensures
        model_inv(SessionModel { nodes: settled(m.nodes), ..m }),
        ids_unique(settled(m.nodes)),
        count_roots(settled(m.nodes)) == count_roots(m.nodes),
{
    let s = settled(m.nodes);
    assert(forall|i: int| 0 <= i < s.len() ==> (#[trigger] s[i]).id == m.nodes[i].id
        && s[i].is_root_source == m.nodes[i].is_root_source);
    assert(ids_unique(s));
    lemma_count_roots_same_layout(m.nodes, s);
    assert forall|k: int|
        0 <= k < m.caches.len() implies has_node_id(s, #[trigger] m.caches[k].owner_id) by {
        let i = choose|i: int|
            0 <= i < m.nodes.len() && #[trigger] m.nodes[i].id == m.caches[k].owner_id;
        assert(s[i].id == m.caches[k].owner_id);
    }
}

/// Registries equal in layout count the same roots.
proof fn lemma_count_roots_same_layout(a: Seq<PowerNode>, b: Seq<PowerNode>)
    requires
        a.len() == b.len(),
        forall|i: int|
            0 <= i < a.len() ==> (#[trigger] a[i]).is_root_source == b[i].is_root_source,
    ensures
        count_roots(a) == count_roots(b),
    decreases a.len(),
{
    if a.len() > 0 {
        assert(forall|i: int|
            0 <= i < a.len() - 1 ==> (#[trigger] a.drop_last()[i]).is_root_source
                == b.drop_last()[i].is_root_source);
        lemma_count_roots_same_layout(a.drop_last(), b.drop_last());
    }
}

/// Applying one event keeps the session state well formed.
proof fn lemma_apply_event_model_inv(m: SessionModel, e: GameEvent)
    requires
        model_inv(m),
    ensures
        model_inv(apply_event_model(m, e)),
{
    let after = apply_event_model(m, e);
    match e {
        GameEvent::BuildingAdded { id, position, role, drain_radius } => {
            if !has_node_id(m.nodes, id) {
                let pushed = after.nodes;
                assert forall|i: int, j: int| 0 <= i < j < pushed.len() implies #[trigger]
                    pushed[i].id != #[trigger] pushed[j].id by {
                    if j < pushed.len() - 1 {
                        assert(pushed[i] == m.nodes[i] && pushed[j] == m.nodes[j]);
                    } else {
                        assert(pushed[i] == m.nodes[i]);
                    }
                }
                assert(pushed.drop_last() =~= m.nodes);
                assert(count_roots(pushed) == 1);
                assert forall|k: int|
                    0 <= k < after.caches.len() implies has_node_id(
                    pushed,
                    #[trigger] after.caches[k].owner_id,
                ) by {
                    if k < m.caches.len() {
                        assert(after.caches[k] == m.caches[k]);
                        let i = choose|i: int|
                            0 <= i < m.nodes.len() && #[trigger] m.nodes[i].id
                                == m.caches[k].owner_id;
                        assert(pushed[i].id == after.caches[k].owner_id);
                    } else {
                        assert(pushed[pushed.len() - 1].id == id);
                    }
                }
            }
        },
        GameEvent::UnitSpawned { .. } => {},
        GameEvent::UnitDied { .. } => {},
    }
}

/// Fixed-point law at session level: settling an already settled session
/// state changes nothing, so a tick without events is a no-op and a tick
/// cannot observe a half-updated state from the tick before.
pub proof fn lemma_settle_model_stable(m: SessionModel)
    requires
        settled_inv(m),
    ensures
        settle_model(m) == m,
{
    crate::power::lemma_settled_idempotent(m.nodes);
    assert(settled(m.nodes) == m.nodes);
    assert(settle_model(m).caches =~~= m.caches);
    assert(settle_model(m) =~~= m);
}

// ---------------------------------------------------------------------
// The session itself.
// ---------------------------------------------------------------------

impl Session {
    /// A session is valid between ticks when its state is settled.
    pub open spec fn inv(&self) -> bool {
        settled_inv(self@)
    }

    /// Start a session: the single unconditionally powered origin
    /// structure (the Core) is created once, here, and exists for the
    /// whole session. It is powered from the start.
    pub fn new(core_id: u64, core_position: Position, core_radius: u32) -> (s: Session)
        ensures
            s.inv(),
            s@.nodes =~= seq![
                PowerNode {
                    id: core_id,
                    position: core_position,
                    role: Role::Source { radius: core_radius },
                    is_root_source: true,
                    is_powered: true,
                },
            ],
            s@.units == Seq::<Unit>::empty(),
            s@.caches == Seq::<CacheModel>::empty(),
    {
        let core = PowerNode {
            id: core_id,
            position: core_position,
            role: Role::Source { radius: core_radius },
            is_root_source: true,
            is_powered: true,
        };
        let mut nodes: Vec<PowerNode> = Vec::new();
        nodes.push(core);
        let s = Session { registry: Registry { nodes }, units: Vec::new(), caches: Vec::new() };
        proof {
            let ns = s@.nodes;
            assert(ns.len() == 1 && ns.last() == core);
            assert(ns.drop_last() =~= Seq::<PowerNode>::empty());
            assert(count_roots(Seq::<PowerNode>::empty()) == 0);
            assert(count_roots(ns) == 1);
            crate::power::lemma_root_powered(ns, 0);
            assert(ns =~= settled(ns));
        }
        s
    }

    /// Apply one trigger event to the raw state (no recompute yet).
    fn apply_event(&mut self, e: &GameEvent)
        requires
            model_inv(old(self)@),
        ensures
            final(self)@ == apply_event_model(old(self)@, *e),
            model_inv(final(self)@),
    {
        proof {
            lemma_apply_event_model_inv(self@, *e);
        }
        match *e {
            GameEvent::BuildingAdded { id, position, role, drain_radius } => {
                let node = PowerNode {
                    id,
                    position,
                    role,
                    is_root_source: false,
                    is_powered: false,
                };
                let added = self.registry.add_node(node);
                if added {
                    if let Some(radius) = drain_radius {
                        self.caches.push(ProximityCache::new(id, radius));
                        proof {
                            assert(caches_view(self.caches@) =~~= apply_event_model(
                                old(self)@,
                                *e,
                            ).caches);
                        }
                    }
                }
                proof {
                    assert(self@ =~~= apply_event_model(old(self)@, *e));
                }
            },
            GameEvent::UnitSpawned { id, position } => {
                self.units.push(Unit { id, position, health: UNIT_FULL_HEALTH });
                proof {
                    assert(self@ =~~= apply_event_model(old(self)@, *e));
                }
            },
            GameEvent::UnitDied { id } => {
                let mut kept: Vec<Unit> = Vec::new();
                let mut i: usize = 0;
                while i < self.units.len()
                    invariant
                        i <= self.units@.len(),
                        kept@ == units_without(self.units@.take(i as int), id),
                    decreases self.units@.len() - i,
                {
                    proof {
                        assert(self.units@.take(i + 1).drop_last() =~= self.units@.take(i as int));
                        assert(self.units@.take(i + 1).last() == self.units@[i as int]);
                    }
                    if self.units[i].id != id {
                        kept.push(self.units[i]);
                    }
                    i += 1;
                }
                proof {
                    assert(self.units@.take(self.units@.len() as int) =~= self.units@);
                }
                self.units = kept;
                proof {
                    assert(self@ =~~= apply_event_model(old(self)@, *e));
                }
            },
        }
    }

    /// One scheduling step: apply the tick's whole event batch, then — if
    /// anything happened — recompute the powered set once and rebuild
    /// every proximity cache once, so that zero, one or many coalesced
    /// events cost and produce the same as one. Returns the powered /
    /// unpowered transitions so downstream consumers need not diff.
    ///
    /// Everything is visible before this call returns: the surrounding
    /// game reads `is_powered` and the caches only between ticks.
    pub fn tick(&mut self, events: &Vec<GameEvent>) -> (changes: Vec<PowerTransition>)
        requires
            old(self).inv(),
        ensures
            final(self).inv(),
            final(self)@ == settle_model(apply_events_model(old(self)@, events@)),
            changes@ == transition_seq(apply_events_model(old(self)@, events@).nodes),
    {
        let ghost orig = self@;
        if events.len() == 0 {
            proof {
                lemma_settle_model_stable(orig);
                crate::power::lemma_settled_idempotent(orig.nodes);
                assert(transition_seq(orig.nodes) == Seq::<PowerTransition>::empty());
            }
            return Vec::new();
        }

        let mut k: usize = 0;
        while k < events.len()
            invariant
                k <= events@.len(),
                self@ == apply_events_model(orig, events@.take(k as int)),
                model_inv(self@),
            decreases events@.len() - k,
        {
            proof {
                assert(events@.take(k + 1).drop_last() =~= events@.take(k as int));
                assert(events@.take(k + 1).last() == events@[k as int]);
            }
            self.apply_event(&events[k]);
            k += 1;
        }
        proof {
            assert(events@.take(events@.len() as int) =~= events@);
        }
        let ghost applied = apply_events_model(orig, events@);
        assert(self@ == applied);

        let changes = recompute(&mut self.registry.nodes);
        proof {
            lemma_settled_model_inv(applied);
        }

        self.rebuild_caches();

        proof {
            assert(self@.nodes == settle_model(applied).nodes);
            assert(self@.units == settle_model(applied).units);
            assert(self@.caches =~~= settle_model(applied).caches);
            assert(self@ =~~= settle_model(applied));
            assert(settled_inv(self@)) by {
                crate::power::lemma_settled_idempotent(applied.nodes);
                assert(self@.nodes =~= settled(self@.nodes));
            }
        }
        changes
    }

    /// Rebuild every cache against the current registry and population.
    fn rebuild_caches(&mut self)
        requires
            model_inv(old(self)@),
        ensures
            final(self).registry == old(self).registry,
            final(self).units == old(self).units,
            final(self)@.caches.len() == old(self)@.caches.len(),
            forall|t: int|
                0 <= t < old(self)@.caches.len() ==> #[trigger] final(self)@.caches[t]
                    == (CacheModel {
                    owner_id: old(self)@.caches[t].owner_id,
                    radius: old(self)@.caches[t].radius,
                    members: members_of(
                        position_of_id(old(self)@.nodes, old(self)@.caches[t].owner_id),
                        old(self)@.caches[t].radius,
                        old(self)@.units,
                    ),
                }),
            model_inv(final(self)@),
    {
        let ghost orig = self@;
        let mut k: usize = 0;
        while k < self.caches.len()
            invariant
                self.registry == old(self).registry,
                self.units == old(self).units,
                orig == old(self)@,
                model_inv(orig),
                k <= self.caches@.len(),
                self.caches@.len() == orig.caches.len(),
                forall|t: int|
                    k <= t < orig.caches.len() ==> #[trigger] self.caches@[t]
                        == old(self).caches@[t],
                forall|t: int|
                    0 <= t < k ==> #[trigger] caches_view(self.caches@)[t] == (CacheModel {
                        owner_id: orig.caches[t].owner_id,
                        radius: orig.caches[t].radius,
                        members: members_of(
                            position_of_id(orig.nodes, orig.caches[t].owner_id),
                            orig.caches[t].radius,
                            orig.units,
                        ),
                    }),
            decreases self.caches@.len() - k,
        {
            let ghost pre = self.caches@;
            let owner_id: u64 = self.caches[k].owner_id;
            proof {
                assert(self.caches@[k as int] == old(self).caches@[k as int]);
                assert(orig.caches[k as int].owner_id == owner_id);
                assert(has_node_id(orig.nodes, owner_id));
            }
            match self.registry.find_index_by_id(owner_id) {
                Some(i) => {
                    let pos: Position = self.registry.nodes[i].position;
                    proof {
                        lemma_position_of_id(orig.nodes, owner_id, i as int);
                    }
                    self.caches[k].rebuild(pos, &self.units);
                    proof {
                        assert forall|t: int| 0 <= t < k + 1 implies #[trigger] caches_view(
                            self.caches@,
                        )[t] == (CacheModel {
                            owner_id: orig.caches[t].owner_id,
                            radius: orig.caches[t].radius,
                            members: members_of(
                                position_of_id(orig.nodes, orig.caches[t].owner_id),
                                orig.caches[t].radius,
                                orig.units,
                            ),
                        }) by {
                            if t < k {
                                assert(self.caches@[t] == pre[t]);
                                assert(caches_view(pre)[t] == caches_view(self.caches@)[t]);
                            } else {
                                assert(pre[t].radius == orig.caches[t].radius);
                                assert(self.caches@[t]@.members == members_of(
                                    pos,
                                    orig.caches[t].radius,
                                    orig.units,
                                ));
                            }
                        }
                    }
                },
                None => {
                    proof {
                        assert(false);
                    }
                },
            }
            k += 1;
        }
    }

    /// One drain tick: every powered area-effect structure applies
    /// `damage` to each unit whose id is in its cache, saturating at
    /// zero. Cached ids without a unit are skipped — a soft miss, never
    /// an error; a cache with zero members is simply an empty pass.
    pub fn drain_tick(&mut self, damage: u32)
        requires
            old(self).inv(),
        ensures
            final(self).inv(),
            final(self).registry == old(self).registry,
            final(self)@.caches == old(self)@.caches,
            final(self)@.units == drained_by_caches(
                old(self)@.nodes,
                old(self)@.caches,
                old(self)@.units,
                damage,
            ),
    {
        let ghost orig = self@;
        let mut k: usize = 0;
        while k < self.caches.len()
            invariant
                self.registry == old(self).registry,
                self.caches == old(self).caches,
                orig == old(self)@,
                settled_inv(orig),
                k <= self.caches@.len(),
                self.units@ == drained_by_caches(
                    orig.nodes,
                    orig.caches.take(k as int),
                    orig.units,
                    damage,
                ),
            decreases self.caches@.len() - k,
        {
            proof {
                assert(orig.caches.take(k + 1).drop_last() =~= orig.caches.take(k as int));
                assert(orig.caches.take(k + 1).last() == orig.caches[k as int]);
                assert(caches_view(self.caches@)[k as int] == orig.caches[k as int]);
            }
            let owner_id: u64 = self.caches[k].owner_id;
            if self.registry.is_powered(owner_id) {
                crate::proximity::apply_drain(&mut self.units, &self.caches[k].members, damage);
            }
            k += 1;
        }
        proof {
            assert(orig.caches.take(orig.caches.len() as int) =~= orig.caches);
            lemma_drained_by_caches_keeps_placement(orig.nodes, orig.caches, orig.units, damage);
            assert forall|t: int| 0 <= t < orig.caches.len() implies (#[trigger] orig.caches[t])
                .members == members_of(
                position_of_id(orig.nodes, orig.caches[t].owner_id),
                orig.caches[t].radius,
                self@.units,
            ) by {
                lemma_members_of_same_placement(
                    position_of_id(orig.nodes, orig.caches[t].owner_id),
                    orig.caches[t].radius,
                    orig.units,
                    self@.units,
                );
            }
        }
    }

    /// Is the structure carrying `id` powered? `false` for an absent id.
    pub fn is_powered(&self, id: u64) -> (r: bool)
        requires
            self.inv(),
        ensures
            r == id_powered(self@.nodes, id),
    {
        self.registry.is_powered(id)
    }

    /// The cached member ids of the area-effect structure carrying
    /// `owner_id`, or `None` if it has no cache.
    pub fn proximity_members(&self, owner_id: u64) -> (r: Option<Vec<u64>>)
        ensures
            match r {
                Some(v) => exists|k: int|
                    0 <= k < self@.caches.len() && #[trigger] self@.caches[k].owner_id == owner_id
                        && v@ == self@.caches[k].members,
                None => forall|k: int|
                    0 <= k < self@.caches.len() ==> #[trigger] self@.caches[k].owner_id
                        != owner_id,
            },
    {
        let mut k: usize = 0;
        while k < self.caches.len()
            invariant
                k <= self.caches@.len(),
                forall|t: int|
                    0 <= t < k ==> #[trigger] caches_view(self.caches@)[t].owner_id != owner_id,
            decreases self.caches@.len() - k,
        {
            if self.caches[k].owner_id == owner_id {
                let src: &Vec<u64> = &self.caches[k].members;
                let mut out: Vec<u64> = Vec::new();
                let mut i: usize = 0;
                while i < src.len()
                    invariant
                        i <= src@.len(),
                        out@ == src@.take(i as int),
                    decreases src@.len() - i,
                {
                    out.push(src[i]);
                    proof {
                        assert(out@ =~= src@.take(i + 1));
                    }
                    i += 1;
                }
                proof {
                    assert(src@.take(src@.len() as int) =~= src@);
                    assert(0 <= k < self@.caches.len() && self@.caches[k as int].owner_id
                        == owner_id && out@ == self@.caches[k as int].members);
                }
                return Some(out);
            }
            k += 1;
        }
        None
    }

    /// The health of the first unit carrying `id`, if any.
    pub fn unit_health(&self, id: u64) -> (r: Option<u32>)
        ensures
            match r {
                Some(h) => exists|t: int|
                    0 <= t < self@.units.len() && #[trigger] self@.units[t].id == id
                        && self@.units[t].health == h,
                None => forall|t: int| 0 <= t < self@.units.len()
                    ==> #[trigger] self@.units[t].id != id,
            },
    {
        let mut t: usize = 0;
        while t < self.units.len()
            invariant
                t <= self.units@.len(),
                forall|s: int| 0 <= s < t ==> #[trigger] self.units@[s].id != id,
            decreases self.units@.len() - t,
        {
            if self.units[t].id == id {
                let h: u32 = self.units[t].health;
                proof {
                    assert(0 <= t < self@.units.len() && self@.units[t as int].id == id
                        && self@.units[t as int].health == h);
                }
                return Some(h);
            }
            t += 1;
        }
        None
    }

    /// Session-setup validation, surfaced once: the fatal configuration
    /// error (no root, or more than one) escapes to the session-lifecycle
    /// collaborator; everything else is absorbed inside the engine.
    pub fn validate(&self) -> (r: Result<(), ConfigError>)
        ensures
            r is Ok <==> count_roots(self@.nodes) == 1,
    {
        self.registry.validate_root()
    }
}

/// The unit population after every powered area-effect structure applied
/// one drain tick, caches in registry order.
pub open spec fn drained_by_caches(
    nodes: Seq<PowerNode>,
    caches: Seq<CacheModel>,
    units: Seq<Unit>,
    damage: u32,
) -> Seq<Unit>
    decreases caches.len(),
{
    if caches.len() == 0 {
        units
    } else {
        let prev = drained_by_caches(nodes, caches.drop_last(), units, damage);
        let c = caches.last();
        if id_powered(nodes, c.owner_id) {
            drained_units(prev, c.members, damage)
        } else {
            prev
        }
    }
}

/// Draining changes only health: ids and positions stay put, and so does
/// the population size.
proof fn lemma_drained_by_caches_keeps_placement(
    nodes: Seq<PowerNode>,
    caches: Seq<CacheModel>,
    units: Seq<Unit>,
    damage: u32,
)
    ensures
        drained_by_caches(nodes, caches, units, damage).len() == units.len(),
        forall|t: int|
            0 <= t < units.len() ==> (#[trigger] drained_by_caches(
                nodes,
                caches,
                units,
                damage,
            )[t]).id == units[t].id && drained_by_caches(nodes, caches, units, damage)[t].position
                == units[t].position,
    decreases caches.len(),
{
    if caches.len() > 0 {
        lemma_drained_by_caches_keeps_placement(nodes, caches.drop_last(), units, damage);
    }
}

/// Two populations that agree on ids and positions index-by-index yield
/// the same cache members: draining never moves a cache's boundary.
proof fn lemma_members_of_same_placement(
    center: Position,
    radius: u32,
    a: Seq<Unit>,
    b: Seq<Unit>,
)
    requires
        a.len() == b.len(),
        forall|t: int|
            0 <= t < a.len() ==> (#[trigger] a[t]).id == b[t].id && a[t].position == b[t].position,
    ensures
        members_of(center, radius, a) == members_of(center, radius, b),
    decreases a.len(),
{
    if a.len() > 0 {
        assert(forall|t: int|
            0 <= t < a.len() - 1 ==> (#[trigger] a.drop_last()[t]).id == b.drop_last()[t].id
                && a.drop_last()[t].position == b.drop_last()[t].position);
        lemma_members_of_same_placement(center, radius, a.drop_last(), b.drop_last());
    }
}

} // verus!
