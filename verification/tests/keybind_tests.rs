use flora_core::keybinds::{combo_is_down, command_is_down, ButtonState, FloraCommand};
use flora_core::AnimationIndices;

const KEY_CTRL: u32 = 1;
const KEY_C: u32 = 2;
const KEY_ESCAPE: u32 = 3;

#[test]
fn combo_needs_every_key() {
    let combo = vec![KEY_CTRL, KEY_C];
    assert!(combo_is_down(&combo, &vec![KEY_CTRL, KEY_C, KEY_ESCAPE]));
    assert!(!combo_is_down(&combo, &vec![KEY_CTRL]));
    assert!(!combo_is_down(&combo, &vec![]));
}

#[test]
fn any_of_several_combos_triggers_the_command() {
    // Copy is bound to either control key plus C.
    let combos = vec![vec![KEY_CTRL, KEY_C], vec![4, KEY_C]];
    assert!(command_is_down(&combos, &vec![4, KEY_C]));
    assert!(command_is_down(&combos, &vec![KEY_CTRL, KEY_C]));
    assert!(!command_is_down(&combos, &vec![KEY_C]));
    assert!(!command_is_down(&Vec::new(), &vec![KEY_C]));
}

#[test]
fn button_state_tracks_press_hold_release() {
    let idle = ButtonState::default();
    assert!(!idle.pressed && !idle.just_pressed && !idle.just_released);

    let pressed = idle.step(true);
    assert!(pressed.pressed && pressed.just_pressed);

    let held = pressed.step(true);
    assert!(held.pressed && !held.just_pressed);

    let released = held.step(false);
    assert!(!released.pressed && released.just_released);

    let reset = released.step(false);
    assert_eq!(reset, ButtonState::default());
}

#[test]
fn commands_compare_and_hash() {
    assert_eq!(FloraCommand::Copy, FloraCommand::Copy);
    assert_ne!(FloraCommand::Copy, FloraCommand::Paste);
}

#[test]
fn animation_advances_and_wraps() {
    let anim = AnimationIndices { first: 1, last: 17 };
    assert_eq!(anim.advance(1), 2);
    assert_eq!(anim.advance(16), 17);
    assert_eq!(anim.advance(17), 1);
}
