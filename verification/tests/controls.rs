use stacker_engine::classic::PlayerActions;
use stacker_engine::controls::{control_action, inputs_from_keys};
use stacker_engine::{Action, Direction, Input};

#[test]
fn keys_become_inputs_in_control_order() {
    let mut pressed = [false; 8];
    let mut released = [false; 8];
    pressed[0] = true;
    pressed[5] = true;
    released[5] = true;
    released[6] = true;
    let inputs = inputs_from_keys(pressed, released);
    assert_eq!(
        inputs,
        vec![
            Input::Begin(Action::Hold),
            Input::Begin(Action::Move(Direction::Left)),
            Input::End(Action::Move(Direction::Left)),
            Input::End(Action::Softdrop),
        ]
    );
    assert!(inputs_from_keys([false; 8], [false; 8]).is_empty());
}

#[test]
fn control_order() {
    assert_eq!(control_action(0), Action::Hold);
    assert_eq!(control_action(1), Action::Flip);
    assert_eq!(control_action(2), Action::Rotate(Direction::Left));
    assert_eq!(control_action(3), Action::Rotate(Direction::Right));
    assert_eq!(control_action(4), Action::Harddrop);
    assert_eq!(control_action(5), Action::Move(Direction::Left));
    assert_eq!(control_action(6), Action::Softdrop);
    assert_eq!(control_action(7), Action::Move(Direction::Right));
}

#[test]
fn keys_set_classic_flags() {
    let mut actions = PlayerActions::new();
    actions.flip = true;
    let mut pressed = [false; 8];
    let mut released = [false; 8];
    pressed[4] = true;
    released[7] = true;
    released[0] = true;
    actions.record_keys(pressed, released);
    let mut expected = PlayerActions::new();
    expected.flip = true;
    expected.harddrop = true;
    expected.end_move_right = true;
    assert_eq!(actions, expected);
}
