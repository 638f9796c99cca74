use gloss_renderer::camera_input::{PointerButton, PointerControl};
use gloss_renderer::components::CamMode;

#[test]
fn mouse_buttons_choose_the_drag_mode() {
    let mut c = PointerControl::new();
    assert_eq!(c.mode(), CamMode::Rotation);
    assert!(!c.is_pressed());
    c.mouse_pressed(PointerButton::Right);
    assert_eq!(c.mode(), CamMode::Translation);
    assert!(c.is_pressed());
    c.mouse_pressed(PointerButton::Middle);
    assert_eq!(c.mode(), CamMode::Translation);
    assert!(!c.is_pressed());
    c.mouse_pressed(PointerButton::Left);
    assert_eq!(c.mode(), CamMode::Rotation);
    assert!(c.is_pressed());
    c.set_prev_pos_valid(true);
    c.mouse_released();
    assert!(!c.is_pressed());
    assert!(!c.prev_pos_valid());
}

#[test]
fn one_finger_rotates_two_translate() {
    let mut c = PointerControl::new();
    assert_eq!(c.touch_moved(5), None);
    c.touch_pressed(5);
    assert!(c.is_pressed());
    assert_eq!(c.touch_moved(5), Some(CamMode::Rotation));
    c.touch_pressed(6);
    assert_eq!(c.nr_active_touches(), 2);
    assert_eq!(c.touch_moved(6), Some(CamMode::Translation));
    assert_eq!(c.mode(), CamMode::Translation);
    c.touch_pressed(7);
    assert_eq!(c.touch_moved(7), None);
}

#[test]
fn last_finger_released_ends_the_drag() {
    let mut c = PointerControl::new();
    c.touch_pressed(1);
    c.touch_pressed(2);
    c.touch_released(1);
    assert!(c.is_pressed());
    c.touch_released(2);
    assert!(!c.is_pressed());
    assert_eq!(c.nr_active_touches(), 0);
    c.touch_pressed(3);
    c.reset_all_touch_presses();
    assert!(!c.is_pressed());
    assert_eq!(c.nr_active_touches(), 0);
}
