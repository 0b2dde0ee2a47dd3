use flora_core::geom::Position;
use flora_core::proximity::{apply_drain, ProximityCache, Unit};
use flora_core::Health;

fn pos(x: i32, y: i32) -> Position {
    Position { x, y }
}

fn unit(id: u64, x: i32, y: i32, health: u32) -> Unit {
    Unit { id, position: pos(x, y), health }
}

#[test]
fn rebuild_collects_exactly_the_units_inside() {
    let units = vec![
        unit(10, 100, 0, 100),
        unit(11, 400, 0, 100),  // exactly on the boundary: excluded
        unit(12, 399, 0, 100),
        unit(13, -100, -100, 100),
    ];
    let mut cache = ProximityCache::new(7, 400);
    cache.rebuild(pos(0, 0), &units);
    assert_eq!(cache.members, vec![10, 12, 13]);
}

#[test]
fn rebuild_with_no_units_in_range_is_valid() {
    let units = vec![unit(10, 9000, 9000, 100)];
    let mut cache = ProximityCache::new(7, 400);
    cache.rebuild(pos(0, 0), &units);
    assert!(cache.members.is_empty());
}

#[test]
fn drain_applies_damage_to_cached_members_only() {
    let mut units = vec![unit(10, 0, 0, 100), unit(11, 0, 0, 100), unit(12, 0, 0, 100)];
    let members = vec![10, 12];
    apply_drain(&mut units, &members, 2);
    assert_eq!(units[0].health, 98);
    assert_eq!(units[1].health, 100);
    assert_eq!(units[2].health, 98);
}

#[test]
fn drain_tolerates_a_member_that_no_longer_exists() {
    // Soft miss: id 99 was cached but its unit is gone. The pass skips it
    // silently and still drains the surviving member.
    let mut units = vec![unit(10, 0, 0, 100)];
    let members = vec![99, 10];
    apply_drain(&mut units, &members, 2);
    assert_eq!(units.len(), 1);
    assert_eq!(units[0].health, 98);
}

#[test]
fn drain_saturates_at_zero() {
    let mut units = vec![unit(10, 0, 0, 1)];
    let members = vec![10];
    apply_drain(&mut units, &members, 2);
    assert_eq!(units[0].health, 0);
    apply_drain(&mut units, &members, 2);
    assert_eq!(units[0].health, 0);
}

#[test]
fn health_deduct_saturates() {
    let mut h = Health(5);
    h.deduct(2);
    assert_eq!(h.0, 3);
    h.deduct(4);
    assert_eq!(h.0, 0);
    h.deduct(1);
    assert_eq!(h.0, 0);
}
