//! Key bindings: the game's commands, the key-combo test that decides
//! whether a command is held, and the per-command press/release state
//! machine stepped once per input frame. The surrounding input layer only
//! reads the keyboard and hands over plain key codes.

use vstd::prelude::*;

verus! {

/// The commands a player can issue. Several key combos may map to one
/// command.
#[derive(Clone, Copy, PartialEq, Eq, Structural, Debug, Hash)]
pub enum FloraCommand {
    Pause,
    Left,
    Right,
    Up,
    Down,
    Copy,
    Paste,
    Debug,
    ResetCamera,
    SetPlaceDistributionTower,
    SetPlaceRadarTower,
}

/// Every key of the combo is currently held.
pub open spec fn combo_down(combo: Seq<u32>, pressed: Seq<u32>) -> bool {
    forall|t: int| 0 <= t < combo.len() ==> pressed.contains(#[trigger] combo[t])
}

/// The view of a list of combos as plain key-code sequences.
pub open spec fn combos_view(combos: Seq<Vec<u32>>) -> Seq<Seq<u32>> {
    combos.map_values(|c: Vec<u32>| c@)
}

/// Some combo of the command is fully held.
pub open spec fn any_combo_down(combos: Seq<Seq<u32>>, pressed: Seq<u32>) -> bool {
    exists|c: int| 0 <= c < combos.len() && combo_down(#[trigger] combos[c], pressed)
}

/// Is the key code `x` among the held keys?
fn key_held(pressed: &Vec<u32>, x: u32) -> (r: bool)
    ensures
        r == pressed@.contains(x),
{
    let mut i: usize = 0;
    while i < pressed.len()
        invariant
            i <= pressed@.len(),
            forall|t: int| 0 <= t < i ==> #[trigger] pressed@[t] != x,
        decreases pressed@.len() - i,
    {
        if pressed[i] == x {
            return true;
        }
        i += 1;
    }
    false
}

/// Are all keys of one combo held? An empty combo counts as held.
pub fn combo_is_down(combo: &Vec<u32>, pressed: &Vec<u32>) -> (r: bool)
    ensures
        r == combo_down(combo@, pressed@),
{
    let mut t: usize = 0;
    while t < combo.len()
        invariant
            t <= combo@.len(),
            forall|s: int| 0 <= s < t ==> pressed@.contains(#[trigger] combo@[s]),
        decreases combo@.len() - t,
    {
        if !key_held(pressed, combo[t]) {
            return false;
        }
        t += 1;
    }
    true
}

/// Is any combo of the command fully held?
pub fn command_is_down(combos: &Vec<Vec<u32>>, pressed: &Vec<u32>) -> (r: bool)
    ensures
        r == any_combo_down(combos_view(combos@), pressed@),
{
    let mut c: usize = 0;
    while c < combos.len()
        invariant
            c <= combos@.len(),
            forall|s: int| 0 <= s < c ==> !combo_down(#[trigger] combos_view(combos@)[s], pressed@),
        decreases combos@.len() - c,
    {
        if combo_is_down(&combos[c], pressed) {
            proof {
                assert(combo_down(combos_view(combos@)[c as int], pressed@));
            }
            return true;
        }
        c += 1;
    }
    false
}

/// The observable input state of one command, mirrored each frame from
/// the raw keyboard: held now, became held this frame, was let go this
/// frame.
#[derive(Clone, Copy, PartialEq, Eq, Structural, Debug)]
pub struct ButtonState {
    pub pressed: bool,
    pub just_pressed: bool,
    pub just_released: bool,
}

impl Default for ButtonState {
    /// A command starts fully released.
    fn default() -> (r: ButtonState)
        ensures
            r == (ButtonState { pressed: false, just_pressed: false, just_released: false }),
    {
        ButtonState { pressed: false, just_pressed: false, just_released: false }
    }
}

impl ButtonState {
    /// One input frame: given whether some combo of the command is held
    /// right now, the next observable state. A freshly held command is
    /// `just_pressed` for exactly one frame; one held across frames has
    /// its `just_pressed` cleared; letting go sets `just_released` for
    /// one frame; a command idle for two frames is fully reset.
    pub fn step(self, down: bool) -> (next: ButtonState)
        ensures
            down && self.pressed ==> next == (ButtonState {
                pressed: true,
                just_pressed: false,
                just_released: self.just_released,
            }),
            down && !self.pressed ==> next == (ButtonState {
                pressed: true,
                just_pressed: true,
                just_released: self.just_released,
            }),
            !down && self.pressed ==> next == (ButtonState {
                pressed: false,
                just_pressed: self.just_pressed,
                just_released: true,
            }),
            !down && !self.pressed ==> next == (ButtonState {
                pressed: false,
                just_pressed: false,
                just_released: false,
            }),
    {
        if down {
            ButtonState {
                pressed: true,
                just_pressed: !self.pressed,
                just_released: self.just_released,
            }
        } else if self.pressed {
            ButtonState { pressed: false, just_pressed: self.just_pressed, just_released: true }
        } else {
            ButtonState { pressed: false, just_pressed: false, just_released: false }
        }
    }
}

} // verus!
