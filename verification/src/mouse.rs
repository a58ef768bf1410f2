//! Mouse button state: which buttons are held, and which went down or up
//! during the current frame. (Pointer position and wheel movement are kept
//! by the caller.)
use vstd::prelude::*;

verus! {

#[derive(Debug, Clone, Copy, PartialEq, Eq, Structural)]
pub struct MouseButtons {
    pub left_button: bool,
    pub right_button: bool,
    pub middle_button: bool,
    pub left_just_pressed: bool,
    pub right_just_pressed: bool,
    pub left_just_released: bool,
    pub right_just_released: bool,
}

impl MouseButtons {
    /// The state after the left button goes down.
    pub open spec fn pressed_left(self) -> Self {
        MouseButtons {
            left_button: true,
            left_just_pressed: self.left_just_pressed || !self.left_button,
            ..self
        }
    }

    /// The state after the left button goes up.
    pub open spec fn released_left(self) -> Self {
        MouseButtons { left_button: false, left_just_released: true, ..self }
    }

    /// The state after the right button goes down.
    pub open spec fn pressed_right(self) -> Self {
        MouseButtons {
            right_button: true,
            right_just_pressed: self.right_just_pressed || !self.right_button,
            ..self
        }
    }

    /// The state after the right button goes up.
    pub open spec fn released_right(self) -> Self {
        MouseButtons { right_button: false, right_just_released: true, ..self }
    }

    /// The state after the end of a frame.
    pub open spec fn frame_cleared(self) -> Self {
        MouseButtons {
            left_just_pressed: false,
            right_just_pressed: false,
            left_just_released: false,
            right_just_released: false,
            ..self
        }
    }

    /// No button held, no event.
    pub fn new() -> (m: Self)
        ensures
            !m.left_button && !m.right_button && !m.middle_button,
            !m.left_just_pressed && !m.right_just_pressed,
            !m.left_just_released && !m.right_just_released,
    {
        Self {
            left_button: false,
            right_button: false,
            middle_button: false,
            left_just_pressed: false,
            right_just_pressed: false,
            left_just_released: false,
            right_just_released: false,
        }
    }

    /// The left button goes down; it counts as just pressed when it was up.
    pub fn press_left(&mut self)
        ensures
            *final(self) == old(self).pressed_left(),
    {
        if !self.left_button {
            self.left_just_pressed = true;
        }
        self.left_button = true;
    }

    /// The left button goes up and counts as just released.
    pub fn release_left(&mut self)
        ensures
            *final(self) == old(self).released_left(),
    {
        self.left_button = false;
        self.left_just_released = true;
    }

    /// The right button goes down; it counts as just pressed when it was up.
    pub fn press_right(&mut self)
        ensures
            *final(self) == old(self).pressed_right(),
    {
        if !self.right_button {
            self.right_just_pressed = true;
        }
        self.right_button = true;
    }

    /// The right button goes up and counts as just released.
    pub fn release_right(&mut self)
        ensures
            *final(self) == old(self).released_right(),
    {
        self.right_button = false;
        self.right_just_released = true;
    }

    /// The end of a frame forgets the per-frame events; held buttons stay.
    pub fn clear_frame_state(&mut self)
        ensures
            *final(self) == old(self).frame_cleared(),
    {
        self.left_just_pressed = false;
        self.right_just_pressed = false;
        self.left_just_released = false;
        self.right_just_released = false;
    }
}

/// A pressed button is held and a released one is not; a button held across
/// a frame boundary is not "just pressed" again; the end of a frame keeps
/// the held buttons.
pub proof fn law_mouse_buttons(m: MouseButtons)
    ensures
        m.pressed_left().left_button,
        !m.released_left().left_button && m.released_left().left_just_released,
        m.pressed_right().right_button,
        !m.released_right().right_button && m.released_right().right_just_released,
        !m.left_button ==> m.pressed_left().left_just_pressed,
        !m.pressed_left().frame_cleared().pressed_left().left_just_pressed,
        !m.pressed_right().frame_cleared().pressed_right().right_just_pressed,
        m.frame_cleared().left_button == m.left_button,
        m.frame_cleared().right_button == m.right_button,
        m.pressed_left().right_button == m.right_button,
{
}

/// A button event touches only that button: pressing one keeps every
/// release already seen this frame, releasing one keeps every press
/// already seen, and neither changes the other button or the middle one.
pub proof fn law_mouse_buttons_independent(m: MouseButtons)
    ensures
        m.pressed_left().left_just_released == m.left_just_released,
        m.pressed_left().right_just_released == m.right_just_released,
        m.pressed_left().right_just_pressed == m.right_just_pressed,
        m.released_left().left_just_pressed == m.left_just_pressed,
        m.released_left().right_button == m.right_button,
        m.released_left().right_just_pressed == m.right_just_pressed,
        m.pressed_right().right_just_released == m.right_just_released,
        m.pressed_right().left_button == m.left_button,
        m.pressed_right().left_just_released == m.left_just_released,
        m.pressed_right().left_just_pressed == m.left_just_pressed,
        m.released_right().right_just_pressed == m.right_just_pressed,
        m.released_right().left_button == m.left_button,
        m.released_right().left_just_pressed == m.left_just_pressed,
        m.pressed_left().middle_button == m.middle_button,
        m.released_left().middle_button == m.middle_button,
        m.pressed_right().middle_button == m.middle_button,
        m.released_right().middle_button == m.middle_button,
        m.left_button ==> m.pressed_left().left_just_pressed == m.left_just_pressed,
        m.right_button ==> m.pressed_right().right_just_pressed == m.right_just_pressed,
        !m.right_button ==> m.pressed_right().right_just_pressed,
{
}

} // verus!
