//! Core logic of a top-down base-defense game: the spatial power-propagation
//! engine and the proximity cache that the surrounding game reads every frame.
//!
//! Structures ([`node::PowerNode`]) optionally supply power within a coverage
//! radius and optionally require power. Power spreads outward from the single
//! root source ("the Core") through relay structures until a fixed point is
//! reached ([`power::recompute`]). Area-effect structures keep a cached list of
//! the mobile units inside their radius ([`proximity`]), rebuilt only on the
//! discrete trigger events that a [`session::Session`] consumes each tick.

pub mod geom;
pub mod keybinds;
pub mod node;
pub mod power;
pub mod proximity;
pub mod registry;
pub mod session;

use vstd::prelude::*;

verus! {

/// Top-level states that the game can be in.
#[derive(Clone, Copy, PartialEq, Eq, Structural, Debug, Hash)]
pub enum AppState {
    Splash,
    MainMenu,
    Gameplay,
    DevScene,
}

impl Default for AppState {
    fn default() -> (r: AppState)
        ensures
            r == AppState::Splash,
    {
        AppState::Splash
    }
}

/// Whether gameplay is currently paused by the menu.
#[derive(Clone, Copy, PartialEq, Eq, Structural, Debug, Hash)]
pub enum PauseMenuState {
    Unpaused,
    Paused,
}

impl Default for PauseMenuState {
    fn default() -> (r: PauseMenuState)
        ensures
            r == PauseMenuState::Unpaused,
    {
        PauseMenuState::Unpaused
    }
}

/// Event raised when the Core falls: the session is over.
#[derive(Clone, Copy, PartialEq, Eq, Structural, Debug)]
pub struct GameOver;

/// Marker for an entity that must be destroyed when gameplay tears down.
#[derive(Clone, Copy, PartialEq, Eq, Structural, Debug)]
pub struct Teardown;

/// Marker for the mobile consumer units ("trees") that drain towers prey
/// on.
#[derive(Clone, Copy, PartialEq, Eq, Structural, Debug)]
pub struct Tree;

/// World units an entity moves per tick.
#[derive(Clone, Copy, PartialEq, Eq, Structural, Debug)]
pub struct MovementSpeed(pub u32);

/// The entity id an attacker is currently locked on.
#[derive(Clone, Copy, PartialEq, Eq, Structural, Debug)]
pub struct Targeting(pub usize);

/// Attacks an entity makes per time unit.
#[derive(Clone, Copy, PartialEq, Eq, Structural, Debug)]
pub struct AttackSpeed(pub usize);

/// Hit points of a structure or unit.
#[derive(Clone, Copy, PartialEq, Eq, Structural, Debug)]
pub struct Health(pub u32);

impl Health {
    /// Lose `value` hit points, saturating at zero (damage past death is
    /// absorbed, never an underflow).
    pub fn deduct(&mut self, value: u32)
        ensures
            final(self).0 == if old(self).0 >= value {
                old(self).0 - value
            } else {
                0int
            },
    {
        self.0 = if self.0 >= value {
            self.0 - value
        } else {
            0
        };
    }
}

/// The game's currency.
#[derive(Clone, Copy, PartialEq, Eq, Structural, Debug)]
pub struct CorpoPoints(pub u32);

/// The range/radius a given building/creep can affect.
#[derive(Clone, Copy, PartialEq, Eq, Structural, Debug)]
pub struct Range(pub u32);

/// The frame window of a sprite-sheet animation.
#[derive(Clone, Copy, PartialEq, Eq, Structural, Debug)]
pub struct AnimationIndices {
    pub first: usize,
    pub last: usize,
}

impl AnimationIndices {
    /// The frame after `index`: one step forward, wrapping from the last
    /// frame back to the first.
    pub fn advance(&self, index: usize) -> (next: usize)
        requires
            index <= self.last,
        ensures
            next == if index == self.last {
                self.first
            } else {
                (index + 1) as usize
            },
    {
        if index == self.last {
            self.first
        } else {
            index + 1
        }
    }
}

} // verus!
