use gamecore::input::{Axis, Button, Key, PlayerInput, AXIS_THRESHOLD};

fn idle() -> PlayerInput {
    PlayerInput {
        left: false,
        right: false,
        up: false,
        down: false,
        jump: false,
        attack: false,
        slide: false,
    }
}

#[test]
fn new_input_asks_for_nothing() {
    assert_eq!(PlayerInput::new(), idle());
}

#[test]
fn first_press_sets_the_intent_of_each_key() {
    let cases = [
        (Key::Left, PlayerInput { left: true, ..idle() }),
        (Key::Right, PlayerInput { right: true, ..idle() }),
        (Key::Up, PlayerInput { up: true, ..idle() }),
        (Key::Down, PlayerInput { down: true, ..idle() }),
        (Key::LCtrl, PlayerInput { slide: true, ..idle() }),
        (Key::Space, PlayerInput { jump: true, ..idle() }),
        (Key::LShift, PlayerInput { attack: true, ..idle() }),
        (Key::Other, idle()),
    ];
    for (key, expected) in cases.iter() {
        let mut input = PlayerInput::new();
        input.key_down_event(*key, false);
        assert_eq!(input, *expected);
    }
}

#[test]
fn held_key_sets_its_flag_once_and_release_clears_it() {
    let mut input = PlayerInput::new();
    input.key_down_event(Key::Space, false);
    assert!(input.jump);
    // the jump is taken by the game, the key stays down
    input.jump = false;
    for _ in 0..25 {
        input.key_down_event(Key::Space, true);
        assert!(!input.jump);
    }
    input.key_down_event(Key::Space, false);
    assert!(input.jump);
    input.key_up_event(Key::Space, false);
    assert!(!input.jump);
    assert_eq!(input, idle());
}

#[test]
fn repeats_leave_a_held_direction_set() {
    let mut input = PlayerInput::new();
    input.key_down_event(Key::Left, false);
    for _ in 0..10 {
        input.key_down_event(Key::Left, true);
    }
    assert_eq!(input, PlayerInput { left: true, ..idle() });
    input.key_up_event(Key::Left, false);
    assert_eq!(input, idle());
}

#[test]
fn release_clears_the_intent_of_each_key_and_no_other() {
    let all = PlayerInput {
        left: true,
        right: true,
        up: true,
        down: true,
        jump: true,
        attack: true,
        slide: true,
    };
    let cases = [
        (Key::Left, PlayerInput { left: false, ..all }),
        (Key::Right, PlayerInput { right: false, ..all }),
        (Key::Up, PlayerInput { up: false, ..all }),
        (Key::Down, PlayerInput { down: false, ..all }),
        (Key::LCtrl, PlayerInput { slide: false, ..all }),
        (Key::Space, PlayerInput { jump: false, ..all }),
        (Key::LShift, PlayerInput { attack: false, ..all }),
        (Key::Other, all),
    ];
    for (key, expected) in cases.iter() {
        let mut input = all;
        input.key_up_event(*key, false);
        assert_eq!(input, *expected);
    }
}

#[test]
fn repeated_release_is_ignored() {
    let mut input = PlayerInput { right: true, ..idle() };
    input.key_up_event(Key::Right, true);
    assert_eq!(input, PlayerInput { right: true, ..idle() });
}

#[test]
fn controller_buttons_set_jump_attack_and_slide() {
    let mut input = PlayerInput::new();
    input.controller_button_down_event(Button::A);
    assert_eq!(input, PlayerInput { jump: true, ..idle() });
    input.controller_button_down_event(Button::X);
    assert_eq!(input, PlayerInput { jump: true, attack: true, ..idle() });
    input.controller_button_down_event(Button::B);
    assert_eq!(input, PlayerInput { jump: true, attack: true, slide: true, ..idle() });
    input.controller_button_down_event(Button::Other);
    assert_eq!(input, PlayerInput { jump: true, attack: true, slide: true, ..idle() });
}

#[test]
fn controller_button_release_changes_nothing() {
    let mut input = PlayerInput { jump: true, left: true, ..idle() };
    input.controller_button_up_event(Button::A);
    assert_eq!(input, PlayerInput { jump: true, left: true, ..idle() });
}

#[test]
fn horizontal_axis_decides_left_and_right() {
    assert_eq!(AXIS_THRESHOLD, 7500);
    let mut input = PlayerInput::new();
    input.controller_axis_event(Axis::LeftX, 7500);
    assert_eq!(input, idle());
    input.controller_axis_event(Axis::LeftX, 7501);
    assert_eq!(input, PlayerInput { right: true, ..idle() });
    input.controller_axis_event(Axis::LeftX, -7500);
    assert_eq!(input, idle());
    input.controller_axis_event(Axis::LeftX, -7501);
    assert_eq!(input, PlayerInput { left: true, ..idle() });
    input.controller_axis_event(Axis::LeftX, i16::MAX);
    assert_eq!(input, PlayerInput { right: true, ..idle() });
    input.controller_axis_event(Axis::LeftX, i16::MIN);
    assert_eq!(input, PlayerInput { left: true, ..idle() });
    input.controller_axis_event(Axis::LeftX, 0);
    assert_eq!(input, idle());
}

#[test]
fn vertical_axis_decides_down_only() {
    let mut input = PlayerInput { up: true, ..idle() };
    input.controller_axis_event(Axis::LeftY, 7501);
    assert_eq!(input, PlayerInput { up: true, down: true, ..idle() });
    input.controller_axis_event(Axis::LeftY, -20000);
    assert_eq!(input, PlayerInput { up: true, ..idle() });
    input.controller_axis_event(Axis::Other, 30000);
    assert_eq!(input, PlayerInput { up: true, ..idle() });
}

#[test]
fn axis_leaves_the_other_intents_alone() {
    let mut input = PlayerInput { jump: true, attack: true, slide: true, up: true, down: true, ..idle() };
    input.controller_axis_event(Axis::LeftX, 9000);
    assert_eq!(
        input,
        PlayerInput { jump: true, attack: true, slide: true, up: true, down: true, right: true, ..idle() }
    );
}
