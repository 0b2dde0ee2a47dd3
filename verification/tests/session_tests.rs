use flora_core::geom::Position;
use flora_core::node::{PowerNode, Role};
use flora_core::registry::{ConfigError, Registry};
use flora_core::session::{GameEvent, Session, DRAIN_DAMAGE_PER_TICK, UNIT_FULL_HEALTH};

fn pos(x: i32, y: i32) -> Position {
    Position { x, y }
}

#[test]
fn session_has_exactly_one_powered_root() {
    let mut s = Session::new(1, pos(0, 0), 550);
    assert!(s.validate().is_ok());
    assert!(s.is_powered(1));
    s.tick(&vec![
        GameEvent::BuildingAdded {
            id: 2,
            position: pos(100, 0),
            role: Role::Both { radius: 200 },
            drain_radius: None,
        },
        GameEvent::UnitSpawned { id: 50, position: pos(0, 0) },
    ]);
    // Placement never creates a second root and never unpowers the Core.
    assert!(s.validate().is_ok());
    assert!(s.is_powered(1));
}

#[test]
fn missing_root_is_the_fatal_config_error() {
    let r = Registry::new();
    assert_eq!(r.validate_root(), Err(ConfigError::MissingRootSource));
}

#[test]
fn duplicate_root_is_the_fatal_config_error() {
    let mut r = Registry::new();
    for id in [1u64, 2u64] {
        r.add_node(PowerNode {
            id,
            position: pos(0, 0),
            role: Role::Source { radius: 100 },
            is_root_source: true,
            is_powered: true,
        });
    }
    assert_eq!(r.validate_root(), Err(ConfigError::DuplicateRootSource));
}

#[test]
fn drain_tower_drains_cached_units_when_powered() {
    let mut s = Session::new(1, pos(0, 0), 550);
    s.tick(&vec![
        GameEvent::BuildingAdded {
            id: 2,
            position: pos(100, 0),
            role: Role::Consumer,
            drain_radius: Some(400),
        },
        GameEvent::UnitSpawned { id: 50, position: pos(150, 0) },
        GameEvent::UnitSpawned { id: 51, position: pos(8000, 0) },
    ]);
    assert!(s.is_powered(2));
    let members = s.proximity_members(2).unwrap();
    assert_eq!(members, vec![50]);

    s.drain_tick(DRAIN_DAMAGE_PER_TICK);
    assert_eq!(s.unit_health(50), Some(UNIT_FULL_HEALTH - DRAIN_DAMAGE_PER_TICK));
    assert_eq!(s.unit_health(51), Some(UNIT_FULL_HEALTH));
}

#[test]
fn unpowered_drain_tower_drains_nothing() {
    let mut s = Session::new(1, pos(0, 0), 100);
    s.tick(&vec![
        GameEvent::BuildingAdded {
            id: 2,
            position: pos(5000, 0),
            role: Role::Consumer,
            drain_radius: Some(400),
        },
        GameEvent::UnitSpawned { id: 50, position: pos(5100, 0) },
    ]);
    assert!(!s.is_powered(2));
    assert_eq!(s.proximity_members(2).unwrap(), vec![50]);
    s.drain_tick(DRAIN_DAMAGE_PER_TICK);
    assert_eq!(s.unit_health(50), Some(UNIT_FULL_HEALTH));
}

#[test]
fn one_death_among_ten_thousand_units_rebuilds_every_cache() {
    // 10,000 consumer units; a single death event triggers one rebuild
    // pass for both drain towers, and the dead unit's id is absent from
    // every resulting member set.
    let mut s = Session::new(1, pos(0, 0), 550);
    let mut events = vec![
        GameEvent::BuildingAdded {
            id: 2,
            position: pos(100, 0),
            role: Role::Consumer,
            drain_radius: Some(400),
        },
        GameEvent::BuildingAdded {
            id: 3,
            position: pos(-100, 0),
            role: Role::Consumer,
            drain_radius: Some(400),
        },
    ];
    for k in 0..10_000u64 {
        let x = (k % 200) as i32;
        let y = (k / 200) as i32;
        events.push(GameEvent::UnitSpawned { id: 100 + k, position: pos(x, y) });
    }
    s.tick(&events);
    let dead: u64 = 100; // the unit at (0,0), inside both radii
    assert!(s.proximity_members(2).unwrap().contains(&dead));
    assert!(s.proximity_members(3).unwrap().contains(&dead));

    s.tick(&vec![GameEvent::UnitDied { id: dead }]);
    assert_eq!(s.unit_health(dead), None);
    let m2 = s.proximity_members(2).unwrap();
    let m3 = s.proximity_members(3).unwrap();
    assert!(!m2.contains(&dead));
    assert!(!m3.contains(&dead));
    // The survivors inside the radius are still cached.
    assert!(m2.contains(&101));
    assert!(m3.contains(&101));
}

#[test]
fn newly_placed_consumer_starts_unpowered_within_the_batch() {
    // The powered flag a structure is created with is irrelevant: the
    // recompute at the end of the same tick derives it.
    let mut s = Session::new(1, pos(0, 0), 550);
    s.tick(&vec![GameEvent::BuildingAdded {
        id: 2,
        position: pos(100, 0),
        role: Role::Consumer,
        drain_radius: None,
    }]);
    assert!(s.is_powered(2));
}
