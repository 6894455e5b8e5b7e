//! The four driving inputs of a vehicle and the key events that set them.
use vstd::prelude::*;

verus! {

/// Who drives a vehicle.
#[derive(Debug, Copy, Clone, PartialEq, Eq, Structural)]
pub enum ControlType {
    Keyboard,
    NoControl,
    Ai,
}

/// A key going down or up.
#[derive(Debug, Copy, Clone, PartialEq, Eq, Structural)]
pub enum KeyEvent {
    UpPressed,
    UpReleased,
    RightPressed,
    RightReleased,
    DownPressed,
    DownReleased,
    LeftPressed,
    LeftReleased,
}

/// The inputs of one vehicle: throttle (`up`), brake (`down`) and the two
/// steering directions.
#[derive(Debug, Clone, Copy, PartialEq, Eq, Structural)]
pub struct Controls {
    pub control_type: ControlType,
    pub up: bool,
    pub left: bool,
    pub right: bool,
    pub down: bool,
}

/// The controls after a key event: the event's input is set or cleared,
/// the others stay.
pub open spec fn after_key(controls: Controls, event: KeyEvent) -> Controls {
    match event {
        KeyEvent::UpPressed => Controls { up: true, ..controls },
        KeyEvent::UpReleased => Controls { up: false, ..controls },
        KeyEvent::RightPressed => Controls { right: true, ..controls },
        KeyEvent::RightReleased => Controls { right: false, ..controls },
        KeyEvent::DownPressed => Controls { down: true, ..controls },
        KeyEvent::DownReleased => Controls { down: false, ..controls },
        KeyEvent::LeftPressed => Controls { left: true, ..controls },
        KeyEvent::LeftReleased => Controls { left: false, ..controls },
    }
}

impl Controls {
    /// Controls of the given kind with nothing pressed.
    pub fn new(control_type: ControlType) -> (controls: Self)
        ensures
            controls == (Controls { control_type, up: false, left: false, right: false, down: false }),
    {
        Controls { control_type, up: false, right: false, down: false, left: false }
    }

    /// Applies a key event.
    pub fn handle_key_input(&mut self, event: KeyEvent)
        ensures
            *final(self) == after_key(*old(self), event),
    {
        match event {
            KeyEvent::UpPressed => self.set_up_pressed(),
            KeyEvent::UpReleased => self.set_up_released(),
            KeyEvent::RightPressed => self.set_right_pressed(),
            KeyEvent::RightReleased => self.set_right_released(),
            KeyEvent::DownPressed => self.set_down_pressed(),
            KeyEvent::DownReleased => self.set_down_released(),
            KeyEvent::LeftPressed => self.set_left_pressed(),
            KeyEvent::LeftReleased => self.set_left_released(),
        }
    }

    /// Holds the throttle down.
    pub fn set_up_pressed(&mut self)
        ensures
            *final(self) == after_key(*old(self), KeyEvent::UpPressed),
    {
        self.up = true
    }

    /// Lets the throttle go.
    pub fn set_up_released(&mut self)
        ensures
            *final(self) == after_key(*old(self), KeyEvent::UpReleased),
    {
        self.up = false
    }

    /// Steers right.
    pub fn set_right_pressed(&mut self)
        ensures
            *final(self) == after_key(*old(self), KeyEvent::RightPressed),
    {
        self.right = true
    }

    /// Stops steering right.
    pub fn set_right_released(&mut self)
        ensures
            *final(self) == after_key(*old(self), KeyEvent::RightReleased),
    {
        self.right = false
    }

    /// Holds the brake down.
    pub fn set_down_pressed(&mut self)
        ensures
            *final(self) == after_key(*old(self), KeyEvent::DownPressed),
    {
        self.down = true
    }

    /// Lets the brake go.
    pub fn set_down_released(&mut self)
        ensures
            *final(self) == after_key(*old(self), KeyEvent::DownReleased),
    {
        self.down = false
    }

    /// Steers left.
    pub fn set_left_pressed(&mut self)
        ensures
            *final(self) == after_key(*old(self), KeyEvent::LeftPressed),
    {
        self.left = true
    }

    /// Stops steering left.
    pub fn set_left_released(&mut self)
        ensures
            *final(self) == after_key(*old(self), KeyEvent::LeftReleased),
    {
        self.left = false
    }

    /// Whether the throttle is held down.
    pub fn up(&self) -> (pressed: bool)
        ensures
            pressed == self.up,
    {
        self.up
    }

    /// Whether the vehicle is steered right.
    pub fn right(&self) -> (pressed: bool)
        ensures
            pressed == self.right,
    {
        self.right
    }

    /// Whether the brake is held down.
    pub fn down(&self) -> (pressed: bool)
        ensures
            pressed == self.down,
    {
        self.down
    }

    /// Whether the vehicle is steered left.
    pub fn left(&self) -> (pressed: bool)
        ensures
            pressed == self.left,
    {
        self.left
    }

    /// Who drives.
    pub fn control_type(&self) -> (kind: ControlType)
        ensures
            kind == self.control_type,
    {
        self.control_type
    }
}

impl Default for Controls {
    /// Uncontrolled traffic: the throttle held down, nothing else.
    fn default() -> (controls: Self)
        ensures
            controls == (Controls {
                control_type: ControlType::NoControl,
                up: true,
                left: false,
                right: false,
                down: false,
            }),
    {
        Controls { control_type: ControlType::NoControl, up: true, right: false, down: false, left: false }
    }
}

/// The controls that uncontrolled traffic drives with.
pub open spec fn traffic_controls() -> Controls {
    Controls { control_type: ControlType::NoControl, up: true, left: false, right: false, down: false }
}

/// A key event touches one input only, and a press followed by its release
/// leaves that input released whatever it was before.
pub proof fn lemma_key_events(controls: Controls)
    ensures
        after_key(after_key(controls, KeyEvent::UpPressed), KeyEvent::UpReleased) == (Controls {
            up: false,
            ..controls
        }),
        after_key(after_key(controls, KeyEvent::DownPressed), KeyEvent::DownReleased) == (Controls {
            down: false,
            ..controls
        }),
        after_key(after_key(controls, KeyEvent::LeftPressed), KeyEvent::LeftReleased) == (Controls {
            left: false,
            ..controls
        }),
        after_key(after_key(controls, KeyEvent::RightPressed), KeyEvent::RightReleased)
            == (Controls { right: false, ..controls }),
{
}

} // verus!
