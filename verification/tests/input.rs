use stacked_worlds::draw::Size;
use stacked_worlds::entity::Entity;
use stacked_worlds::input::{
    Button, GlobalInput, InputEvent, InputEvents, InputEventsToState, InputState, MouseInsideRoom,
    MouseState, SelectionBox, MOUSE_LEFT, MOUSE_RIGHT,
};
use stacked_worlds::scalar::Scalar;

fn s(x: f64) -> Scalar {
    Scalar::from_bits(x.to_bits())
}

fn update(state: &mut InputState, events: Vec<InputEvent>) {
    let mut waiting = InputEvents::new();
    for event in events {
        waiting.events.push_back(event);
    }
    InputEventsToState.run(&mut waiting, state);
    assert!(waiting.events.is_empty());
}

const SPACE: Button = Button::Keyboard(0x20);
const LEFT: Button = Button::Mouse(MOUSE_LEFT);
const RIGHT: Button = Button::Mouse(MOUSE_RIGHT);

#[test]
fn a_new_state_knows_nothing() {
    let mut state = InputState::new();
    assert!(!state.button_held(&SPACE));
    assert!(!state.button_pressed(&SPACE));
    assert!(!state.button_pressed_or_held(&SPACE));
    assert_eq!(state.mouse, MouseState::default());
    assert_eq!(state.selected_region, None);
    assert_eq!(state.room_focused, None);
    assert!(InputEvents::new().events.is_empty());
}

#[test]
fn a_press_is_seen_once_and_held_until_release() {
    let mut state = InputState::new();
    update(&mut state, vec![InputEvent::PressEvent(SPACE)]);
    assert!(state.button_held(&SPACE));
    assert!(state.button_pressed(&SPACE));
    assert!(!state.button_pressed(&SPACE));
    assert!(state.button_pressed_or_held(&SPACE));
    update(&mut state, vec![]);
    assert!(!state.button_pressed(&SPACE));
    assert!(state.button_pressed_or_held(&SPACE));
    update(&mut state, vec![InputEvent::ReleaseEvent(SPACE)]);
    assert!(!state.button_held(&SPACE));
    assert!(!state.button_pressed_or_held(&SPACE));
}

#[test]
fn a_short_press_is_not_missed() {
    let mut state = InputState::new();
    update(&mut state, vec![InputEvent::PressEvent(SPACE), InputEvent::ReleaseEvent(SPACE)]);
    assert!(!state.button_held(&SPACE));
    assert!(state.button_pressed_or_held(&SPACE));
    assert!(!state.button_pressed_or_held(&SPACE));
}

#[test]
fn presses_are_counted_per_button() {
    let mut state = InputState::new();
    update(
        &mut state,
        vec![
            InputEvent::PressEvent(RIGHT),
            InputEvent::PressEvent(SPACE),
            InputEvent::ReleaseEvent(SPACE),
            InputEvent::PressEvent(SPACE),
            InputEvent::PressEvent(Button::Controller(1, 2)),
            InputEvent::PressEvent(Button::Hat(1, 2, 3)),
        ],
    );
    assert!(state.button_pressed(&Button::Controller(1, 2)));
    assert!(!state.button_pressed(&Button::Controller(2, 1)));
    let unhandled = GlobalInput.run(&mut state);
    assert_eq!(unhandled, vec![(RIGHT, 1), (SPACE, 2), (Button::Hat(1, 2, 3), 1)]);
    assert!(GlobalInput.run(&mut state).is_empty());
    assert!(!state.button_pressed(&SPACE));
    assert!(state.button_held(&SPACE));
}

#[test]
fn the_mouse_drags_a_box_open() {
    let mut state = InputState::new();
    update(
        &mut state,
        vec![
            InputEvent::MotionEvent(s(10.0), s(20.0)),
            InputEvent::PressEvent(LEFT),
            InputEvent::MotionEvent(s(5.0), s(40.0)),
        ],
    );
    assert_eq!(state.mouse.position, (s(5.0), s(40.0)));
    assert_eq!(state.mouse.dragging_from, Some((s(10.0), s(20.0))));
    assert_eq!(
        state.mouse.selection_box(),
        Some(SelectionBox { x1: s(10.0), y1: s(20.0), x2: s(5.0), y2: s(40.0) })
    );
    assert_eq!(state.selected_region, None);
    update(
        &mut state,
        vec![InputEvent::MotionEvent(s(6.0), s(41.0)), InputEvent::ReleaseEvent(LEFT)],
    );
    assert_eq!(
        state.selected_region,
        Some(SelectionBox { x1: s(10.0), y1: s(20.0), x2: s(6.0), y2: s(41.0) })
    );
    assert_eq!(state.mouse.dragging_from, None);
    assert_eq!(state.mouse.selection_box(), None);
    // The selection lasts for one update.
    update(&mut state, vec![]);
    assert_eq!(state.selected_region, None);
}

#[test]
fn other_buttons_do_not_drag() {
    let mut state = InputState::new();
    update(&mut state, vec![InputEvent::PressEvent(RIGHT), InputEvent::ReleaseEvent(RIGHT)]);
    assert_eq!(state.mouse.dragging_from, None);
    assert_eq!(state.selected_region, None);
    // Letting go of the left button without a drag selects nothing.
    update(&mut state, vec![InputEvent::ReleaseEvent(LEFT)]);
    assert_eq!(state.selected_region, None);
}

#[test]
fn the_mouse_is_in_a_room_up_to_its_far_edges() {
    let size = Size { width: s(100.0), height: s(50.0) };
    assert!(MouseInsideRoom.contains((s(0.0), s(0.0)), &size));
    assert!(MouseInsideRoom.contains((s(-0.0), s(49.9)), &size));
    assert!(MouseInsideRoom.contains((s(99.9), s(0.0)), &size));
    assert!(!MouseInsideRoom.contains((s(100.0), s(0.0)), &size));
    assert!(!MouseInsideRoom.contains((s(0.0), s(50.0)), &size));
    assert!(!MouseInsideRoom.contains((s(-0.1), s(10.0)), &size));
    assert!(!MouseInsideRoom.contains((s(10.0), s(-0.1)), &size));
    assert!(!MouseInsideRoom.contains((s(f64::NAN), s(10.0)), &size));
}

#[test]
fn the_last_room_under_the_mouse_has_the_focus() {
    let size = Size { width: s(100.0), height: s(50.0) };
    let room = |id: u32, x: f64, y: f64| (Entity::new(id, 1), (s(x), s(y)), size);
    let mut state = InputState::new();
    update(&mut state, vec![InputEvent::PressEvent(SPACE)]);
    MouseInsideRoom.run(&vec![room(1, 10.0, 10.0), room(2, 20.0, 20.0), room(3, -5.0, 0.0)], &mut state);
    assert_eq!(state.room_focused, Some(Entity::new(2, 1)));
    assert!(state.button_held(&SPACE));
    MouseInsideRoom.run(&vec![room(1, 200.0, 10.0)], &mut state);
    assert_eq!(state.room_focused, None);
    MouseInsideRoom.run(&vec![], &mut state);
    assert_eq!(state.room_focused, None);
}
