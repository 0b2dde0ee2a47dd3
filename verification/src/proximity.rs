//! The proximity cache of an area-effect structure (a drain tower).
//!
//! Scanning every unit every tick would cost O(towers * units) per frame;
//! instead each tower caches the ids of the units strictly inside its
//! radius and the cache is rebuilt only on trigger events. The per-tick
//! effect pass iterates the cached ids and silently skips any id whose
//! unit has since been destroyed (a soft miss, never an error).

use vstd::prelude::*;

use crate::geom::{in_open_disc, Position};

verus! {

/// A mobile consumer unit (a tree, in the surrounding game): the prey of
/// drain towers. Created by a spawn event, removed by a death event.
#[derive(Clone, Copy, PartialEq, Eq, Structural, Debug)]
pub struct Unit {
    pub id: u64,
    pub position: Position,
    pub health: u32,
}

/// The cached target set of one area-effect structure: the ids of the
/// units that sat strictly inside `radius` of the owner at the last
/// rebuild. A cache, never a source of truth: always reproducible by
/// re-scanning the unit population.
#[derive(Clone, PartialEq, Eq, Debug)]
pub struct ProximityCache {
    pub owner_id: u64,
    pub radius: u32,
    pub members: Vec<u64>,
}

/// Mathematical model of a [`ProximityCache`].
#[verifier::ext_equal]
pub struct CacheModel {
    pub owner_id: u64,
    pub radius: u32,
    pub members: Seq<u64>,
}

impl View for ProximityCache {
    type V = CacheModel;

    open spec fn view(&self) -> CacheModel {
        CacheModel { owner_id: self.owner_id, radius: self.radius, members: self.members@ }
    }
}

/// The ids of the units strictly inside the disc of `radius` around
/// `center`, in population order.
pub open spec fn members_of(center: Position, radius: u32, units: Seq<Unit>) -> Seq<u64>
    decreases units.len(),
{
    if units.len() == 0 {
        Seq::empty()
    } else {
        let rest = members_of(center, radius, units.drop_last());
        if in_open_disc(center, radius, units.last().position) {
            rest.push(units.last().id)
        } else {
            rest
        }
    }
}

/// Membership characterization: an id is cached exactly when some unit
/// carries it and stands strictly inside the radius. In particular the id
/// of a removed unit is absent from every rebuilt cache.
pub proof fn lemma_members_of_contains(center: Position, radius: u32, units: Seq<Unit>, x: u64)
    ensures
        members_of(center, radius, units).contains(x) <==> exists|t: int|
            0 <= t < units.len() && #[trigger] units[t].id == x && in_open_disc(
                center,
                radius,
                units[t].position,
            ),
    decreases units.len(),
{
    if units.len() > 0 {
        let sub = units.drop_last();
        lemma_members_of_contains(center, radius, sub, x);
        let rest = members_of(center, radius, sub);
        let all = members_of(center, radius, units);
        let last_in = in_open_disc(center, radius, units.last().position);
        assert(forall|t: int| 0 <= t < sub.len() ==> #[trigger] sub[t] == units[t]);

        if all.contains(x) {
            let k = choose|k: int| 0 <= k < all.len() && all[k] == x;
            if last_in && k == rest.len() {
                assert(units[units.len() - 1].id == x && in_open_disc(
                    center,
                    radius,
                    units[units.len() - 1].position,
                ));
            } else {
                assert(rest[k] == x);
                assert(rest.contains(x));
                let t = choose|t: int|
                    0 <= t < sub.len() && #[trigger] sub[t].id == x && in_open_disc(
                        center,
                        radius,
                        sub[t].position,
                    );
                assert(units[t].id == x && in_open_disc(center, radius, units[t].position));
            }
        }
        if exists|t: int|
            0 <= t < units.len() && #[trigger] units[t].id == x && in_open_disc(
                center,
                radius,
                units[t].position,
            ) {
            let t = choose|t: int|
                0 <= t < units.len() && #[trigger] units[t].id == x && in_open_disc(
                    center,
                    radius,
                    units[t].position,
                );
            if t < units.len() - 1 {
                assert(sub[t].id == x && in_open_disc(center, radius, sub[t].position));
                assert(rest.contains(x));
                let k = choose|k: int| 0 <= k < rest.len() && rest[k] == x;
                assert(all[k] == x);
                assert(all.contains(x));
            } else {
                assert(last_in);
                assert(all.last() == x);
                assert(all.contains(x));
            }
        }
    }
}

impl ProximityCache {
    /// A fresh, empty cache for a newly placed area-effect structure.
    pub fn new(owner_id: u64, radius: u32) -> (c: ProximityCache)
        ensures
            c@.owner_id == owner_id,
            c@.radius == radius,
            c@.members == Seq::<u64>::empty(),
    {
        ProximityCache { owner_id, radius, members: Vec::new() }
    }

    /// Full rebuild from the current unit population: afterwards `members`
    /// holds exactly the ids strictly inside the radius around the owner.
    /// Zero members is a valid outcome, not an error.
    pub fn rebuild(&mut self, owner_position: Position, units: &Vec<Unit>)
        ensures
            final(self).owner_id == old(self).owner_id,
            final(self).radius == old(self).radius,
            final(self).members@ == members_of(owner_position, old(self).radius, units@),
    {
        let radius: u32 = self.radius;
        let mut members: Vec<u64> = Vec::new();
        let mut i: usize = 0;
        while i < units.len()
            invariant
                i <= units@.len(),
                radius == self.radius,
                members@ == members_of(owner_position, radius, units@.take(i as int)),
            decreases units@.len() - i,
        {
            proof {
                assert(units@.take(i + 1).drop_last() =~= units@.take(i as int));
                assert(units@.take(i + 1).last() == units@[i as int]);
            }
            if crate::geom::within_radius(owner_position, radius, units[i].position) {
                members.push(units[i].id);
            }
            i += 1;
        }
        proof {
            assert(units@.take(units@.len() as int) =~= units@);
        }
        self.members = members;
    }
}

/// `u` after one drain tick from a cache with member list `members`:
/// damage lands, saturating at zero, exactly when `u`'s id is cached.
pub open spec fn drained_unit(u: Unit, members: Seq<u64>, damage: u32) -> Unit {
    if members.contains(u.id) {
        Unit {
            health: if u.health >= damage {
                (u.health - damage) as u32
            } else {
                0u32
            },
            ..u
        }
    } else {
        u
    }
}

/// The whole population after one drain tick of one cache.
pub open spec fn drained_units(units: Seq<Unit>, members: Seq<u64>, damage: u32) -> Seq<Unit> {
    units.map_values(|u: Unit| drained_unit(u, members, damage))
}

/// Does the id list contain `x`?
fn contains_id(ids: &Vec<u64>, x: u64) -> (r: bool)
    ensures
        r == ids@.contains(x),
{
    let mut i: usize = 0;
    while i < ids.len()
        invariant
            i <= ids@.len(),
            forall|t: int| 0 <= t < i ==> #[trigger] ids@[t] != x,
        decreases ids@.len() - i,
    {
        if ids[i] == x {
            return true;
        }
        i += 1;
    }
    false
}

/// One drain tick: every unit whose id is in `members` loses `damage`
/// health (saturating at zero); everything else — ids, positions, and the
/// units of any cached id that no longer exists — is untouched. A cached
/// id without a unit is a soft miss: skipped, never an error.
pub fn apply_drain(units: &mut Vec<Unit>, members: &Vec<u64>, damage: u32)
    ensures
        final(units)@ == drained_units(old(units)@, members@, damage),
{
    let ghost orig = units@;
    let mut i: usize = 0;
    while i < units.len()
        invariant
            units@.len() == orig.len(),
            i <= orig.len(),
            forall|t: int| i <= t < orig.len() ==> #[trigger] units@[t] == orig[t],
            forall|t: int|
                0 <= t < i ==> #[trigger] units@[t] == drained_unit(orig[t], members@, damage),
        decreases orig.len() - i,
    {
        if contains_id(members, units[i].id) {
            let h: u32 = units[i].health;
            units[i].health = if h >= damage {
                h - damage
            } else {
                0
            };
        }
        i += 1;
    }
    proof {
        assert(units@ =~= drained_units(orig, members@, damage));
    }
}

} // verus!
