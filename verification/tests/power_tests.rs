use flora_core::geom::Position;
use flora_core::node::{PowerNode, Role};
use flora_core::power::recompute;
use flora_core::session::{GameEvent, Session};

fn pos(x: i32, y: i32) -> Position {
    Position { x, y }
}

fn building(id: u64, position: Position, role: Role, drain_radius: Option<u32>) -> GameEvent {
    GameEvent::BuildingAdded { id, position, role, drain_radius }
}

#[test]
fn core_alone_is_powered() {
    let s = Session::new(1, pos(0, 0), 550);
    assert!(s.validate().is_ok());
    assert!(s.is_powered(1));
    assert!(!s.is_powered(2));
}

#[test]
fn relay_and_consumer_power_in_one_tick() {
    // Core at (0,0) radius 550; Tower A at (500,0) radius 300: distance
    // 500 < 550, so A is powered. Tower B at (790,0): distance to the
    // Core is 790 (unpowered by it), distance to A is 290 < 300, so B is
    // powered only because A is confirmed powered in the same fixed-point
    // pass.
    let mut s = Session::new(1, pos(0, 0), 550);
    let events = vec![
        building(2, pos(500, 0), Role::Both { radius: 300 }, None),
        building(3, pos(790, 0), Role::Consumer, None),
    ];
    let changes = s.tick(&events);
    assert!(s.is_powered(1));
    assert!(s.is_powered(2));
    assert!(s.is_powered(3));
    assert_eq!(changes.len(), 2);
    assert!(changes.iter().all(|t| t.became_powered));
}

#[test]
fn propagation_crosses_a_whole_relay_chain() {
    // Core -> RelayA -> RelayB -> Hut, placed simultaneously: one
    // recompute powers all three, not one hop per trigger event.
    let mut s = Session::new(1, pos(0, 0), 100);
    let events = vec![
        building(2, pos(90, 0), Role::Both { radius: 100 }, None),
        building(3, pos(180, 0), Role::Both { radius: 100 }, None),
        building(4, pos(260, 0), Role::Consumer, None),
    ];
    s.tick(&events);
    assert!(s.is_powered(2));
    assert!(s.is_powered(3));
    assert!(s.is_powered(4));
}

#[test]
fn radius_boundary_is_strict() {
    // A consumer at exactly distance == radius is unpowered; one unit
    // closer it is powered.
    let mut s = Session::new(1, pos(0, 0), 500);
    let events = vec![
        building(2, pos(500, 0), Role::Consumer, None),
        building(3, pos(499, 0), Role::Consumer, None),
    ];
    s.tick(&events);
    assert!(!s.is_powered(2));
    assert!(s.is_powered(3));
}

#[test]
fn recompute_is_idempotent() {
    let mut s = Session::new(1, pos(0, 0), 550);
    let events = vec![
        building(2, pos(500, 0), Role::Both { radius: 300 }, None),
        building(3, pos(790, 0), Role::Consumer, None),
    ];
    s.tick(&events);
    let powered_before: Vec<bool> = (1..=3).map(|id| s.is_powered(id)).collect();

    // A tick with no events changes nothing and reports no transition.
    let changes = s.tick(&Vec::new());
    assert!(changes.is_empty());

    // A tick with a trigger event that leaves the registry alone
    // recomputes to the same fixed point: no transition either.
    let changes = s.tick(&vec![GameEvent::UnitSpawned { id: 50, position: pos(10, 10) }]);
    assert!(changes.is_empty());
    let powered_after: Vec<bool> = (1..=3).map(|id| s.is_powered(id)).collect();
    assert_eq!(powered_before, powered_after);
}

#[test]
fn zero_radius_source_never_projects() {
    // A degenerate source with radius zero is tolerated and powers
    // nothing, not even a consumer at the same spot.
    let mut s = Session::new(1, pos(0, 0), 0);
    s.tick(&vec![building(2, pos(0, 0), Role::Consumer, None)]);
    assert!(s.is_powered(1));
    assert!(!s.is_powered(2));
}

#[test]
fn source_does_not_power_itself() {
    // A relay far from the Core is unpowered even though it stands
    // strictly inside its own radius.
    let mut s = Session::new(1, pos(0, 0), 100);
    s.tick(&vec![building(2, pos(5000, 0), Role::Both { radius: 400 }, None)]);
    assert!(!s.is_powered(2));
}

#[test]
fn recompute_reports_unpowering() {
    // Run the engine directly on a registry whose stored flags are stale:
    // a node flagged powered with no root in range transitions back.
    let mut nodes = vec![
        PowerNode {
            id: 1,
            position: pos(0, 0),
            role: Role::Source { radius: 100 },
            is_root_source: true,
            is_powered: true,
        },
        PowerNode {
            id: 2,
            position: pos(5000, 0),
            role: Role::Consumer,
            is_root_source: false,
            is_powered: true,
        },
    ];
    let changes = recompute(&mut nodes);
    assert_eq!(changes.len(), 1);
    assert_eq!(changes[0].id, 2);
    assert!(!changes[0].became_powered);
    assert!(nodes[0].is_powered);
    assert!(!nodes[1].is_powered);
}

#[test]
fn second_recompute_is_a_no_op() {
    // Fixed point: feeding recompute its own output changes nothing and
    // reports nothing, in one extra call.
    let mut nodes = vec![
        PowerNode {
            id: 1,
            position: pos(0, 0),
            role: Role::Source { radius: 550 },
            is_root_source: true,
            is_powered: false,
        },
        PowerNode {
            id: 2,
            position: pos(500, 0),
            role: Role::Both { radius: 300 },
            is_root_source: false,
            is_powered: false,
        },
        PowerNode {
            id: 3,
            position: pos(790, 0),
            role: Role::Consumer,
            is_root_source: false,
            is_powered: false,
        },
    ];
    let first = recompute(&mut nodes);
    assert_eq!(first.len(), 3);
    let settled_once = nodes.clone();
    let second = recompute(&mut nodes);
    assert!(second.is_empty());
    assert_eq!(nodes, settled_once);
}

#[test]
fn duplicate_building_id_is_ignored() {
    let mut s = Session::new(1, pos(0, 0), 550);
    s.tick(&vec![
        building(2, pos(100, 0), Role::Consumer, None),
        building(2, pos(9000, 0), Role::Consumer, None),
    ]);
    // The second placement was refused: id 2 still sits at (100,0),
    // inside the Core's radius.
    assert!(s.is_powered(2));
}
