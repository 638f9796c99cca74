//! How mouse buttons and touches steer the camera controller: which drag
//! mode is active, whether a drag is in progress, and which fingers touch
//! the screen.
//!
//! The positions of the pointer and the camera motion they cause are
//! floating point and are computed by the caller.

use vstd::prelude::*;
use crate::components::CamMode;
use std::collections::HashSet;

verus! {

broadcast use vstd::std_specs::hash::group_hash_axioms;

/// A mouse button.
#[derive(PartialEq, Eq, Structural, Debug, Clone, Copy)]
pub enum PointerButton {
    Left,
    Right,
    Middle,
    Back,
    Forward,
    Other(u16),
}

/// The state of a [`PointerControl`].
pub struct PointerModel {
    pub mode: CamMode,
    /// A drag is in progress.
    pub pressed: bool,
    /// The last pointer position may be used to measure the next move.
    pub prev_pos_valid: bool,
    /// The ids of the fingers that touch the screen.
    pub touches: Set<u64>,
}

/// The discrete part of the camera controller: drag mode, whether a drag is
/// in progress, and the fingers on the screen.
pub struct PointerControl {
    mode: CamMode,
    pressed: bool,
    prev_pos_valid: bool,
    touches: HashSet<u64>,
}

impl View for PointerControl {
    type V = PointerModel;

    closed spec fn view(&self) -> PointerModel {
        PointerModel {
            mode: self.mode,
            pressed: self.pressed,
            prev_pos_valid: self.prev_pos_valid,
            touches: self.touches@,
        }
    }
}

/// The effect of pressing a mouse button: the left one rotates, the right
/// one translates, any other ends the drag and leaves the mode.
pub open spec fn mouse_pressed_spec(s: PointerModel, button: PointerButton) -> PointerModel {
    match button {
        PointerButton::Left => PointerModel { mode: CamMode::Rotation, pressed: true, ..s },
        PointerButton::Right => PointerModel { mode: CamMode::Translation, pressed: true, ..s },
        _ => PointerModel { pressed: false, ..s },
    }
}

/// The effect of a finger moving: with one finger on the screen the camera
/// rotates, with two it translates (and zooms), otherwise the move is
/// ignored. Where it is not ignored the finger counts as touching. Returns
/// the mode of the motion, if any.
pub open spec fn touch_moved_spec(s: PointerModel, id: u64) -> (PointerModel, Option<CamMode>) {
    if s.touches.len() == 1 {
        (PointerModel { mode: CamMode::Rotation, touches: s.touches.insert(id), ..s }, Some(CamMode::Rotation))
    } else if s.touches.len() == 2 {
        (PointerModel { mode: CamMode::Translation, touches: s.touches.insert(id), ..s }, Some(CamMode::Translation))
    } else {
        (s, None)
    }
}

impl PointerControl {
    /// Rotation mode, no drag, no finger on the screen.
    pub fn new() -> (r: Self)
        ensures
            r@ == (PointerModel {
                mode: CamMode::Rotation,
                pressed: false,
                prev_pos_valid: false,
                touches: Set::empty(),
            }),
    {
        PointerControl { mode: CamMode::Rotation, pressed: false, prev_pos_valid: false, touches: HashSet::new() }
    }

    /// The drag mode.
    pub fn mode(&self) -> (r: CamMode)
        ensures
            r == self@.mode,
    {
        self.mode
    }

    /// Whether a drag is in progress.
    pub fn is_pressed(&self) -> (r: bool)
        ensures
            r == self@.pressed,
    {
        self.pressed
    }

    /// Whether the last pointer position may be used to measure the next
    /// move.
    pub fn prev_pos_valid(&self) -> (r: bool)
        ensures
            r == self@.prev_pos_valid,
    {
        self.prev_pos_valid
    }

    /// Records whether the last pointer position may be used, as the
    /// caller's motion handling decides.
    pub fn set_prev_pos_valid(&mut self, valid: bool)
        ensures
            final(self)@ == (PointerModel { prev_pos_valid: valid, ..old(self)@ }),
    {
        self.prev_pos_valid = valid;
    }

    /// The number of fingers on the screen.
    pub fn nr_active_touches(&self) -> (r: usize)
        ensures
            r == self@.touches.len(),
    {
        self.touches.len()
    }

    /// A mouse button was pressed.
    pub fn mouse_pressed(&mut self, button: PointerButton)
        ensures
            final(self)@ == mouse_pressed_spec(old(self)@, button),
            button == PointerButton::Left ==> final(self)@.mode == CamMode::Rotation && final(self)@.pressed,
            button == PointerButton::Right ==> final(self)@.mode == CamMode::Translation && final(self)@.pressed,
    {
        match button {
            PointerButton::Left => {
                self.mode = CamMode::Rotation;
                self.pressed = true;
            },
            PointerButton::Right => {
                self.mode = CamMode::Translation;
                self.pressed = true;
            },
            _ => {
                self.pressed = false;
            },
        }
    }

    /// The mouse button was released: the drag ends.
    pub fn mouse_released(&mut self)
        ensures
            final(self)@ == (PointerModel { pressed: false, prev_pos_valid: false, ..old(self)@ }),
    {
        self.pressed = false;
        self.prev_pos_valid = false;
    }

    /// Finger `id` touched the screen: a drag is in progress, and the last
    /// position no longer applies.
    pub fn touch_pressed(&mut self, id: u64)
        ensures
            final(self)@ == (PointerModel {
                pressed: true,
                prev_pos_valid: false,
                touches: old(self)@.touches.insert(id),
                ..old(self)@
            }),
    {
        self.touches.insert(id);
        self.pressed = true;
        self.prev_pos_valid = false;
    }

    /// Finger `id` left the screen: the last position no longer applies,
    /// and with no finger left the drag ends.
    pub fn touch_released(&mut self, id: u64)
        ensures
            final(self)@ == (PointerModel {
                pressed: if old(self)@.touches.remove(id).is_empty() { false } else { old(self)@.pressed },
                prev_pos_valid: false,
                touches: old(self)@.touches.remove(id),
                ..old(self)@
            }),
    {
        self.touches.remove(&id);
        if self.touches.is_empty() {
            self.pressed = false;
        }
        self.prev_pos_valid = false;
    }

    /// All fingers are taken off the screen: the drag ends.
    pub fn reset_all_touch_presses(&mut self)
        ensures
            final(self)@ == (PointerModel {
                pressed: false,
                prev_pos_valid: false,
                touches: Set::empty(),
                ..old(self)@
            }),
    {
        self.touches.clear();
        self.pressed = false;
        self.prev_pos_valid = false;
    }

    /// Finger `id` moved: sets the mode of the camera motion it causes and
    /// returns it, or `None` where the move is ignored.
    pub fn touch_moved(&mut self, id: u64) -> (r: Option<CamMode>)
        ensures
            (final(self)@, r) == touch_moved_spec(old(self)@, id),
            old(self)@.touches.len() == 1 ==> r == Some(CamMode::Rotation) && final(self)@.mode == CamMode::Rotation,
            old(self)@.touches.len() == 2 ==> r == Some(CamMode::Translation) && final(self)@.mode
                == CamMode::Translation,
    {
        let n = self.touches.len();
        if n == 1 {
            self.mode = CamMode::Rotation;
            self.touches.insert(id);
            Some(CamMode::Rotation)
        } else if n == 2 {
            self.touches.insert(id);
            self.mode = CamMode::Translation;
            Some(CamMode::Translation)
        } else {
            None
        }
    }
}

/// The number of fingers on the screen decides the drag, whatever the mode
/// was before: one finger rotates, two translate, and with any other number
/// the move is ignored and nothing changes. Where the move is not ignored,
/// the finger counts as touching, and the drag state is left as it was.
pub proof fn law_finger_count_chooses_the_drag(s: PointerModel, id: u64)
    ensures
        s.touches.len() == 1 ==> ({
            let (t, r) = touch_moved_spec(s, id);
            &&& r == Some(CamMode::Rotation)
            &&& t.mode == CamMode::Rotation
            &&& t.touches == s.touches.insert(id)
            &&& t.pressed == s.pressed && t.prev_pos_valid == s.prev_pos_valid
        }),
        s.touches.len() == 2 ==> ({
            let (t, r) = touch_moved_spec(s, id);
            &&& r == Some(CamMode::Translation)
            &&& t.mode == CamMode::Translation
            &&& t.touches == s.touches.insert(id)
            &&& t.pressed == s.pressed && t.prev_pos_valid == s.prev_pos_valid
        }),
        s.touches.len() != 1 && s.touches.len() != 2 ==> touch_moved_spec(s, id) == (s, None::<CamMode>),
{
}

/// The left button drags in rotation and the right one in translation, each
/// starting a drag; any other button ends the drag and keeps the mode. The
/// fingers on the screen are not touched.
pub proof fn law_mouse_buttons_choose_the_drag(s: PointerModel, button: PointerButton)
    ensures
        button == PointerButton::Left ==> mouse_pressed_spec(s, button).mode == CamMode::Rotation
            && mouse_pressed_spec(s, button).pressed,
        button == PointerButton::Right ==> mouse_pressed_spec(s, button).mode == CamMode::Translation
            && mouse_pressed_spec(s, button).pressed,
        button != PointerButton::Left && button != PointerButton::Right ==> mouse_pressed_spec(s, button).mode
            == s.mode && !mouse_pressed_spec(s, button).pressed,
        mouse_pressed_spec(s, button).touches == s.touches,
        mouse_pressed_spec(s, button).prev_pos_valid == s.prev_pos_valid,
{
}

} // verus!
