//! What the player asks for, as the controls say it.

use vstd::prelude::*;
use std::collections::VecDeque;
use crate::draw::Size;
use crate::entity::{Entity, Key};
use crate::scalar::Scalar;
use crate::table::Table;

verus! {

/// A button of an input device, by the numbers under which the device knows
/// it.
#[derive(Clone, Copy, Debug, PartialEq, Eq, Hash, Structural)]
pub enum Button {
    /// A key of the keyboard, by its code.
    Keyboard(i32),
    /// A button of the mouse, by its number.
    Mouse(u32),
    /// A button of a controller: the controller and the button.
    Controller(u32, u8),
    /// A hat of a controller: the controller, the hat and its state.
    Hat(u32, u8, u8),
}

/// The number of the left button of the mouse.
pub const MOUSE_LEFT: u32 = 1;

/// The number of the right button of the mouse.
pub const MOUSE_RIGHT: u32 = 2;

impl Key for Button {
    fn same(&self, other: &Self) -> (r: bool) {
        match (*self, *other) {
            (Button::Keyboard(a), Button::Keyboard(b)) => a == b,
            (Button::Mouse(a), Button::Mouse(b)) => a == b,
            (Button::Controller(a, b), Button::Controller(c, d)) => a == c && b == d,
            (Button::Hat(a, b, c), Button::Hat(d, e, f)) => a == d && b == e && c == f,
            _ => false,
        }
    }
}

/// What an input device reports.
#[derive(Clone, Copy, Debug, PartialEq, Eq)]
pub enum InputEvent {
    PressEvent(Button),
    ReleaseEvent(Button),
    MotionEvent(Scalar, Scalar),
}

/// Where the mouse is, and where it was when the left button went down, as
/// long as that button is held.
#[derive(Clone, Copy, Debug, PartialEq, Eq)]
pub struct MouseState {
    pub position: (Scalar, Scalar),
    pub dragging_from: Option<(Scalar, Scalar)>,
}

impl Default for MouseState {
    fn default() -> (m: MouseState)
        ensures
            m.position.0.bits == 0,
            m.position.1.bits == 0,
            m.dragging_from.is_none(),
    {
        MouseState { position: (Scalar { bits: 0 }, Scalar { bits: 0 }), dragging_from: None }
    }
}

/// The box that the mouse drags open: from the point `(x1, y1)`, where the
/// drag began, to the point `(x2, y2)`, where the mouse is.
#[derive(Clone, Copy, Debug, PartialEq, Eq, Structural)]
pub struct SelectionBox {
    pub x1: Scalar,
    pub y1: Scalar,
    pub x2: Scalar,
    pub y2: Scalar,
}

impl MouseState {
    /// The box that is being dragged open, if the mouse drags.
    pub open spec fn dragged_box(self) -> Option<SelectionBox> {
        match self.dragging_from {
            Some(from) => Some(
                SelectionBox { x1: from.0, y1: from.1, x2: self.position.0, y2: self.position.1 },
            ),
            None => None,
        }
    }

    /// The box that is being dragged open, if the mouse drags.
    pub fn selection_box(&self) -> (r: Option<SelectionBox>)
        ensures
            r == self.dragged_box(),
    {
        match self.dragging_from {
            Some(dragging_from) => Some(
                SelectionBox {
                    x1: dragging_from.0,
                    y1: dragging_from.1,
                    x2: self.position.0,
                    y2: self.position.1,
                },
            ),
            None => None,
        }
    }
}

/// The reports of the input devices that wait to be looked at.
pub struct InputEvents {
    pub events: VecDeque<InputEvent>,
}

impl InputEvents {
    /// No reports.
    pub fn new() -> (e: Self)
        ensures
            e.events@ == Seq::<InputEvent>::empty(),
    {
        InputEvents { events: VecDeque::new() }
    }
}

/// What the input state holds.
pub struct InputStateView {
    /// The buttons that are down.
    pub held: Set<Button>,
    /// How often each button went down in the current update, for the
    /// buttons whose presses were not used yet.
    pub pressed: Map<Button, i32>,
    /// The mouse.
    pub mouse: MouseState,
    /// The box that the mouse dragged open and let go of in this update.
    pub selected_region: Option<SelectionBox>,
    /// The room under the mouse.
    pub room_focused: Option<Entity>,
}

impl InputStateView {
    /// The count of presses after one more.
    pub open spec fn one_more(count: i32) -> i32 {
        if count < i32::MAX {
            (count + 1) as i32
        } else {
            count
        }
    }

    /// The state after `event`.
    pub open spec fn after_event(self, event: InputEvent) -> InputStateView {
        match event {
            InputEvent::PressEvent(button) => InputStateView {
                held: self.held.insert(button),
                pressed: self.pressed.insert(
                    button,
                    Self::one_more(
                        if self.pressed.dom().contains(button) {
                            self.pressed[button]
                        } else {
                            0
                        },
                    ),
                ),
                mouse: if button == Button::Mouse(MOUSE_LEFT) {
                    MouseState { dragging_from: Some(self.mouse.position), ..self.mouse }
                } else {
                    self.mouse
                },
                ..self
            },
            InputEvent::ReleaseEvent(button) => InputStateView {
                held: self.held.remove(button),
                selected_region: if button == Button::Mouse(MOUSE_LEFT) {
                    self.mouse.dragged_box()
                } else {
                    self.selected_region
                },
                mouse: if button == Button::Mouse(MOUSE_LEFT) {
                    MouseState { dragging_from: None, ..self.mouse }
                } else {
                    self.mouse
                },
                ..self
            },
            InputEvent::MotionEvent(x, y) => InputStateView {
                mouse: MouseState { position: (x, y), ..self.mouse },
                ..self
            },
        }
    }

    /// The state after the events of `events`, first to last.
    pub open spec fn after_events(self, events: Seq<InputEvent>) -> InputStateView
        decreases events.len(),
    {
        if events.len() == 0 {
            self
        } else {
            self.after_events(events.drop_last()).after_event(events.last())
        }
    }

    /// The state at the start of an update, before its events are looked at:
    /// the presses of the last update and its selection are forgotten.
    pub open spec fn at_update_start(self) -> InputStateView {
        InputStateView { pressed: Map::empty(), selected_region: None, ..self }
    }
}

/// What is known of the input devices.
pub struct InputState {
    button_held: Table<Button, ()>,
    button_pressed: Table<Button, i32>,
    /// The mouse.
    pub mouse: MouseState,
    /// The box that the mouse dragged open and let go of in this update.
    pub selected_region: Option<SelectionBox>,
    /// The room under the mouse.
    pub room_focused: Option<Entity>,
}

impl InputState {
    /// What the state holds.
    pub closed spec fn view(&self) -> InputStateView {
        InputStateView {
            held: self.button_held@.dom(),
            pressed: self.button_pressed@,
            mouse: self.mouse,
            selected_region: self.selected_region,
            room_focused: self.room_focused,
        }
    }

    /// Every button is held once and counted once.
    pub closed spec fn wf(&self) -> bool {
        self.button_held.wf() && self.button_pressed.wf()
    }

    /// Nothing held, nothing pressed, the mouse at the origin.
    pub fn new() -> (state: Self)
        ensures
            state.wf(),
            state@.held == Set::<Button>::empty(),
            state@.pressed == Map::<Button, i32>::empty(),
            state@.mouse.position.0.bits == 0,
            state@.mouse.position.1.bits == 0,
            state@.mouse.dragging_from.is_none(),
            state@.selected_region.is_none(),
            state@.room_focused.is_none(),
    {
        let state = InputState {
            button_held: Table::new(),
            button_pressed: Table::new(),
            mouse: MouseState::default(),
            selected_region: None,
            room_focused: None,
        };
        assert(state@.held =~= Set::<Button>::empty());
        state
    }

    /// Whether `button` is down.
    pub fn button_held(&self, button: &Button) -> (r: bool)
        requires
            self.wf(),
        ensures
            r == self@.held.contains(*button),
    {
        self.button_held.contains_key(button)
    }

    /// Whether `button` went down in this update and its presses were not
    /// used yet. The presses are used up by the question.
    pub fn button_pressed(&mut self, button: &Button) -> (r: bool)
        requires
            old(self).wf(),
        ensures
            final(self).wf(),
            r == old(self)@.pressed.dom().contains(*button),
            final(self)@ == (InputStateView {
                pressed: old(self)@.pressed.remove(*button),
                ..old(self)@
            }),
    {
        self.button_pressed.remove(button).is_some()
    }

    /// Whether `button` went down in this update or is down. Presses are
    /// used up by the question.
    pub fn button_pressed_or_held(&mut self, button: &Button) -> (r: bool)
        requires
            old(self).wf(),
        ensures
            final(self).wf(),
            r == (old(self)@.pressed.dom().contains(*button) || old(self)@.held.contains(*button)),
            final(self)@ == (InputStateView {
                pressed: old(self)@.pressed.remove(*button),
                ..old(self)@
            }),
    {
        match self.button_pressed.remove(button) {
            Some(_) => true,
            None => self.button_held.contains_key(button),
        }
    }

    fn apply(&mut self, event: InputEvent)
        requires
            old(self).wf(),
        ensures
            final(self).wf(),
            final(self)@ == old(self)@.after_event(event),
    {
        match event {
            InputEvent::PressEvent(button) => {
                self.button_held.insert(button, ());
                if button.same(&Button::Mouse(MOUSE_LEFT)) {
                    self.mouse.dragging_from = Some(self.mouse.position);
                }
                let count = match self.button_pressed.get(&button) {
                    Some(count) => *count,
                    None => 0,
                };
                let count = if count < i32::MAX {
                    count + 1
                } else {
                    count
                };
                self.button_pressed.insert(button, count);
                proof {
                    assert(self@.held =~= old(self)@.held.insert(button));
                }
            },
            InputEvent::ReleaseEvent(button) => {
                self.button_held.remove(&button);
                if button.same(&Button::Mouse(MOUSE_LEFT)) {
                    self.selected_region = self.mouse.selection_box();
                    self.mouse.dragging_from = None;
                }
                proof {
                    assert(self@.held =~= old(self)@.held.remove(button));
                }
            },
            InputEvent::MotionEvent(x, y) => {
                self.mouse.position = (x, y);
            },
        }
    }
}

/// Brings the input state up to date with the reports of the devices.
pub struct InputEventsToState;

impl InputEventsToState {
    /// Forgets the presses and the selection of the last update, then takes
    /// in every waiting report, oldest first. No report is left waiting.
    pub fn run(&mut self, input_events: &mut InputEvents, input_state: &mut InputState)
        requires
            old(input_state).wf(),
        ensures
            final(input_state).wf(),
            final(input_state)@ == old(input_state)@.at_update_start().after_events(
                old(input_events).events@,
            ),
            final(input_events).events@ == Seq::<InputEvent>::empty(),
    {
        input_state.button_pressed.clear();
        input_state.selected_region = None;
        let ghost start = input_state@;
        let ghost events = input_events.events@;
        let ghost mut taken: int = 0;
        proof {
            assert(events.take(0) =~= Seq::<InputEvent>::empty());
            assert(events.subrange(0, events.len() as int) =~= events);
        }
        loop
            invariant
                0 <= taken <= events.len(),
                events == old(input_events).events@,
                input_events.events@ == events.subrange(taken, events.len() as int),
                input_state.wf(),
                input_state@ == start.after_events(events.take(taken)),
            ensures
                input_events.events@ == Seq::<InputEvent>::empty(),
                input_state.wf(),
                input_state@ == start.after_events(events),
            decreases input_events.events@.len(),
        {
            match input_events.events.pop_front() {
                Some(event) => {
                    proof {
                        let longer = events.take(taken + 1);
                        assert(longer.drop_last() =~= events.take(taken));
                        assert(longer.last() == event);
                        assert(events.subrange(taken, events.len() as int).subrange(
                            1,
                            events.len() - taken,
                        ) =~= events.subrange(taken + 1, events.len() as int));
                        taken = taken + 1;
                    }
                    input_state.apply(event);
                },
                None => {
                    proof {
                        assert(events.take(taken) =~= events);
                    }
                    break ;
                },
            }
        }
    }
}

/// Looks at the presses that nothing else used.
pub struct GlobalInput;

impl GlobalInput {
    /// Takes every press that is left out of the state and hands them back:
    /// each button that was pressed, once, with its count.
    pub fn run(&mut self, input_state: &mut InputState) -> (unhandled: Vec<(Button, i32)>)
        requires
            old(input_state).wf(),
        ensures
            final(input_state).wf(),
            final(input_state)@ == (InputStateView {
                pressed: Map::<Button, i32>::empty(),
                ..old(input_state)@
            }),
            unhandled@.len() == old(input_state)@.pressed.dom().len(),
            forall|i: int|
                0 <= i < unhandled@.len() ==> old(input_state)@.pressed.dom().contains(
                    (#[trigger] unhandled@[i]).0,
                ) && unhandled@[i].1 == old(input_state)@.pressed[unhandled@[i].0],
            forall|button: Button|
                old(input_state)@.pressed.dom().contains(button) ==> exists|i: int|
                    0 <= i < unhandled@.len() && (#[trigger] unhandled@[i]).0 == button,
    {
        let mut unhandled: Vec<(Button, i32)> = Vec::new();
        let n = input_state.button_pressed.len();
        let ghost order = input_state.button_pressed.order();
        let ghost pressed = input_state.button_pressed@;
        proof {
            input_state.button_pressed.lemma_order();
            order.unique_seq_to_set();
        }
        let mut i: usize = 0;
        while i < n
            invariant
                i <= n,
                n == order.len(),
                input_state.wf(),
                *input_state == *old(input_state),
                order == input_state.button_pressed.order(),
                pressed == input_state.button_pressed@,
                unhandled@.len() == i,
                forall|j: int|
                    0 <= j < i ==> (#[trigger] unhandled@[j]).0 == order[j] && pressed.dom().contains(
                        order[j],
                    ) && unhandled@[j].1 == pressed[order[j]],
            decreases n - i,
        {
            let button = input_state.button_pressed.key_at(i);
            let count = *input_state.button_pressed.value_at(i);
            unhandled.push((button, count));
            i += 1;
        }
        proof {
            assert forall|button: Button| pressed.dom().contains(button) implies exists|i: int|
                0 <= i < unhandled@.len() && (#[trigger] unhandled@[i]).0 == button by {
                let j = order.index_of(button);
                assert(0 <= j < order.len() && order[j] == button);
                assert(unhandled@[j].0 == button);
            }
        }
        input_state.button_pressed.clear();
        unhandled
    }
}

/// Finds the room under the mouse.
pub struct MouseInsideRoom;

impl MouseInsideRoom {
    /// The point, given from the corner of a room, lies in the room: not
    /// before the corner, and before the far edges.
    pub open spec fn inside(relative: (Scalar, Scalar), size: Size) -> bool {
        let zero = Scalar { bits: 0 };
        &&& (zero.less(relative.0) || relative.0.equal_value(zero))
        &&& (zero.less(relative.1) || relative.1.equal_value(zero))
        &&& relative.0.less(size.width)
        &&& relative.1.less(size.height)
    }

    /// The last of the first `n` rooms that the mouse is in.
    pub open spec fn focused(rooms: Seq<(Entity, (Scalar, Scalar), Size)>, n: int) -> Option<
        Entity,
    >
        decreases n,
    {
        if n <= 0 {
            None
        } else if Self::inside(rooms[n - 1].1, rooms[n - 1].2) {
            Some(rooms[n - 1].0)
        } else {
            Self::focused(rooms, n - 1)
        }
    }

    /// Whether the mouse, at `relative` from the corner of a room of the
    /// given size, is in the room.
    pub fn contains(&self, relative: (Scalar, Scalar), size: &Size) -> (r: bool)
        ensures
            r == Self::inside(relative, *size),
    {
        let zero = Scalar::zero();
        relative.0.ge(&zero) && relative.1.ge(&zero) && relative.0.lt(&size.width)
            && relative.1.lt(&size.height)
    }

    /// Sets the focused room to the last room that the mouse is in, or to
    /// none. Each room comes with the place of the mouse as seen from its
    /// corner, and with its size.
    pub fn run(&mut self, rooms: &Vec<(Entity, (Scalar, Scalar), Size)>, input_state: &mut InputState)
        ensures
            final(input_state).wf() == old(input_state).wf(),
            final(input_state)@ == (InputStateView {
                room_focused: Self::focused(rooms@, rooms@.len() as int),
                ..old(input_state)@
            }),
    {
        input_state.room_focused = None;
        let mut i: usize = 0;
        while i < rooms.len()
            invariant
                i <= rooms@.len(),
                input_state.wf() == old(input_state).wf(),
                input_state@ == (InputStateView {
                    room_focused: Self::focused(rooms@, i as int),
                    ..old(input_state)@
                }),
            decreases rooms@.len() - i,
        {
            if self.contains(rooms[i].1, &rooms[i].2) {
                input_state.room_focused = Some(rooms[i].0);
            }
            i += 1;
        }
    }
}

/// The direction in which the player steers.
#[derive(Clone, Copy, Debug, PartialEq, Eq, Structural)]
pub enum Movement {
    Idle,
    Left,
    Right,
}

impl Default for Movement {
    fn default() -> (m: Movement)
        ensures
            m == Movement::Idle,
    {
        Movement::Idle
    }
}

/// What the player asks of the entity that it controls.
#[derive(Clone, Copy, Debug, PartialEq, Eq, Structural)]
pub struct PlayerController {
    pub moving: Movement,
    pub jumping: bool,
    pub hooking: bool,
    pub hook_established: bool,
    pub shifting: bool,
}

impl Default for PlayerController {
    fn default() -> (c: PlayerController)
        ensures
            c.moving == Movement::Idle,
            !c.jumping,
            !c.hooking,
            !c.hook_established,
            !c.shifting,
    {
        PlayerController {
            moving: Movement::Idle,
            jumping: false,
            hooking: false,
            hook_established: false,
            shifting: false,
        }
    }
}

/// The controls of the player, as they stand in one update.
#[derive(Clone, Copy, Debug, PartialEq, Eq, Structural)]
pub struct Controls {
    pub moving_left: bool,
    pub moving_right: bool,
    pub jumping: bool,
    pub shifting: bool,
    pub hooking: bool,
}

impl Controls {
    /// The direction that the two steering controls give together: the one
    /// that is held alone, and none when both or neither are held.
    pub open spec fn steering(self) -> Movement {
        if self.moving_left && !self.moving_right {
            Movement::Left
        } else if self.moving_right && !self.moving_left {
            Movement::Right
        } else {
            Movement::Idle
        }
    }

    /// The controller as the controls set it. Whether a hook is established
    /// is not for the controls to say.
    pub open spec fn applied_to(self, controller: PlayerController) -> PlayerController {
        PlayerController {
            moving: self.steering(),
            jumping: self.jumping,
            hooking: self.hooking,
            shifting: self.shifting,
            hook_established: controller.hook_established,
        }
    }

    /// The direction that the two steering controls give together.
    pub fn movement(&self) -> (m: Movement)
        ensures
            m == self.steering(),
    {
        match (self.moving_left, self.moving_right) {
            (true, false) => Movement::Left,
            (false, true) => Movement::Right,
            (true, true) => Movement::Idle,
            (false, false) => Movement::Idle,
        }
    }
}

/// Hands the controls to the entities that the player controls.
pub struct PlayerControllerInput;

impl PlayerControllerInput {
    /// Sets every controller as the controls say.
    pub fn run(&mut self, player_controllers: &mut Vec<PlayerController>, controls: &Controls)
        ensures
            final(player_controllers)@.len() == old(player_controllers)@.len(),
            forall|i: int|
                0 <= i < old(player_controllers)@.len() ==> #[trigger] final(player_controllers)@[i]
                    == controls.applied_to(old(player_controllers)@[i]),
    {
        let movement = controls.movement();
        let n = player_controllers.len();
        let mut i: usize = 0;
        while i < n
            invariant
                i <= n,
                n == player_controllers@.len(),
                n == old(player_controllers)@.len(),
                movement == controls.steering(),
                forall|j: int|
                    0 <= j < i ==> #[trigger] player_controllers@[j] == controls.applied_to(
                        old(player_controllers)@[j],
                    ),
                forall|j: int|
                    i <= j < n ==> #[trigger] player_controllers@[j] == old(player_controllers)@[j],
            decreases n - i,
        {
            let player_controller = &mut player_controllers[i];
            player_controller.moving = movement;
            player_controller.jumping = controls.jumping;
            player_controller.hooking = controls.hooking;
            player_controller.shifting = controls.shifting;
            i += 1;
        }
    }
}

} // verus!
