use sw_render::color::Color;
use sw_render::space::ScreenPoint;

#[test]
fn screen_point_holds_coordinates() {
    let p = ScreenPoint::new(-3, 17);
    assert_eq!((p.x, p.y), (-3, 17));
}

#[test]
fn colour_packs_to_pixel_word() {
    assert_eq!(Color::new(0xAB, 0xCD, 0xEF).to_pixel(), 0x00AB_CDEF);
    assert_eq!(Color::new(0, 0, 0).to_pixel(), 0);
}
