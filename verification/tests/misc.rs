use lumina::atlas::Atlas;
use lumina::camera::CameraDirection;
use lumina::light::LightType;
use lumina::padding::IntPadding;
use lumina::window::Window;

#[test]
fn light_type_numbers() {
    assert_eq!(LightType::SPOT.number(), 2);
    assert_eq!(LightType::from_number(1), Some(LightType::POINT));
    assert_eq!(LightType::from_number(3), None);
}

#[test]
fn camera_steps() {
    assert_eq!(CameraDirection::FORWARD.step(), (0, 0, 1));
    assert_eq!(CameraDirection::UP.step(), (0, -1, 0));
    assert_eq!(CameraDirection::LEFT.step(), (-1, 0, 0));
    assert_eq!(CameraDirection::NONE.step(), (0, 0, 0));
}

#[test]
fn padded_int_defaults_to_zero() {
    let p = IntPadding::default();
    assert_eq!(p.int_val, 0);
    assert_eq!(p.padding, [0, 0, 0]);
}

#[test]
fn empty_atlas() {
    let a = Atlas::new();
    assert_eq!(a.texture_width, 0);
    assert!(a.images.is_empty());
    assert_eq!(a.image_quantity, 0);
}

#[test]
fn window_resizes() {
    let mut w = Window::new("Lumina", 1280, 720);
    assert_eq!(w.get_extent(), (1280, 720));
    assert!(!w.was_window_resized());
    Window::framebuffer_resize_callback(&mut w, 800, 600);
    assert!(w.was_window_resized());
    assert_eq!(w.get_extent(), (800, 600));
    w.reset_window_resized_flag();
    assert!(!w.was_window_resized());
}
