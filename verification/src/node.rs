//! The record kept for every structure that participates in power logic.

use vstd::prelude::*;

use crate::geom::{in_open_disc, Position};

verus! {

/// How a structure takes part in the power graph. A structure may supply
/// power within a radius, require power, or do both (a relay tower).
#[derive(Clone, Copy, PartialEq, Eq, Structural, Debug)]
pub enum Role {
    /// Supplies power to every consumer strictly inside `radius`.
    Source { radius: u32 },
    /// Requires power from some in-range source.
    Consumer,
    /// Both supplies (within `radius`) and requires power.
    Both { radius: u32 },
}

/// One entry of the spatial registry: a stationary structure with a stable
/// identity, its role in the power graph, and its derived powered flag.
///
/// `is_powered` is owned by the propagation engine: nothing else writes it.
/// `is_root_source` marks the single unconditionally powered origin
/// structure (the Core), created at session start.
#[derive(Clone, Copy, PartialEq, Eq, Structural, Debug)]
pub struct PowerNode {
    pub id: u64,
    pub position: Position,
    pub role: Role,
    pub is_root_source: bool,
    pub is_powered: bool,
}

impl Role {
    /// The role can project power to others.
    pub open spec fn is_source(self) -> bool {
        self is Source || self is Both
    }

    /// The role needs power from others.
    pub open spec fn is_consumer(self) -> bool {
        self is Consumer || self is Both
    }

    /// The coverage radius of a supplying role; zero for a pure consumer
    /// (a degenerate source that can never project power).
    pub open spec fn supply_radius(self) -> u32 {
        match self {
            Role::Source { radius } => radius,
            Role::Consumer => 0,
            Role::Both { radius } => radius,
        }
    }
}

impl PowerNode {
    /// Everything about the node except the derived `is_powered` flag.
    /// The powered fixed point is a function of these fields alone.
    pub open spec fn layout(self) -> (u64, Position, Role, bool) {
        (self.id, self.position, self.role, self.is_root_source)
    }

    /// The same node with its derived flag set to `powered`.
    pub open spec fn with_flag(self, powered: bool) -> PowerNode {
        PowerNode { is_powered: powered, ..self }
    }
}

/// Source `s` can hand power to consumer `c`: `s` plays a source role, `c`
/// plays a consumer role, they are distinct structures, and `c` sits
/// strictly inside `s`'s coverage radius (the boundary is unpowered).
pub open spec fn supplies(s: PowerNode, c: PowerNode) -> bool {
    &&& s.role.is_source()
    &&& c.role.is_consumer()
    &&& s.id != c.id
    &&& in_open_disc(s.position, s.role.supply_radius(), c.position)
}

/// Executable form of [`supplies`].
pub fn can_supply(s: &PowerNode, c: &PowerNode) -> (r: bool)
    ensures
        r == supplies(*s, *c),
{
    let s_radius: u32 = match s.role {
        Role::Source { radius } => radius,
        Role::Consumer => 0,
        Role::Both { radius } => radius,
    };
    let s_is_source: bool = match s.role {
        Role::Source { .. } => true,
        Role::Consumer => false,
        Role::Both { .. } => true,
    };
    let c_is_consumer: bool = match c.role {
        Role::Source { .. } => false,
        Role::Consumer => true,
        Role::Both { .. } => true,
    };
    s_is_source && c_is_consumer && s.id != c.id && crate::geom::within_radius(
        s.position,
        s_radius,
        c.position,
    )
}

} // verus!
