use lumina::mouse::{Mouse, MouseButton};

#[test]
fn motion_reads_once() {
    let mut m = Mouse::new();
    m.change_motion(10, 20, 3, -4);
    assert_eq!(m.get_mouse_x(), 10);
    assert_eq!(m.get_mouse_y(), 20);
    assert_eq!(m.get_dx(), 3);
    assert_eq!(m.get_dx(), 0);
    assert_eq!(m.get_dy(), -4);
    assert_eq!(m.get_dy(), 0);
    assert_eq!(m.get_scroll_dx(), 0);
    assert_eq!(m.get_scroll_dy(), 0);
}

#[test]
fn buttons_go_down_and_change() {
    let mut m = Mouse::new();
    assert!(!m.get_button(MouseButton::Right));
    assert!(!m.button_changed(MouseButton::Right));
    m.change_button(3);
    assert!(m.get_button(MouseButton::Right));
    assert!(m.button_changed(MouseButton::Right));
    assert!(m.button_changed(MouseButton::Right));
    assert!(!m.button_went_up(MouseButton::Right));
    assert!(!m.get_button(MouseButton::Left));
    assert!(!m.button_went_up(MouseButton::Left));
}

#[test]
fn button_numbers() {
    let m = Mouse::new();
    assert_eq!(m.from_u32(&1), Some(MouseButton::Left));
    assert_eq!(m.from_u32(&5), Some(MouseButton::Side2));
    assert_eq!(m.from_u32(&6), None);
    assert_eq!(MouseButton::Side1.number(), 4);
}
