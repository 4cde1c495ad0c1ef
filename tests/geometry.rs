use edmcoverlay::geometry::{channel16, erase_bounds, pixel_with_alpha, scale_h, scale_w, scale_x, scale_y};
use edmcoverlay::graphics_data::{Color, Marker, VectorElement};

fn point(x: usize, y: usize) -> VectorElement {
    VectorElement { x, y, marker: Marker::Cross, color: Color { red: 1, green: 2, blue: 3 }, text: String::new() }
}

#[test]
fn scaling_to_window() {
    assert_eq!(scale_w(1280, 640), 640);
    assert_eq!(scale_h(1024, 768), 768);
    assert_eq!(scale_w(100, 1920), 150);
    assert_eq!(scale_x(100, 1920), 170);
    assert_eq!(scale_y(512, 1080), 580);
    assert_eq!(scale_x(0, 1920), 20);
}

#[test]
fn channels_and_alpha() {
    assert_eq!(channel16(255), 65535);
    assert_eq!(channel16(1), 257);
    assert_eq!(channel16(0), 0);
    assert_eq!(pixel_with_alpha(0x12_34_56_78, 0xff), 0xff_34_56_78);
    assert_eq!(pixel_with_alpha(0xab_cd_ef_01_23_45_67, 0), 0x01_23_45_67 & 0x00ff_ffff);
}

#[test]
fn polyline_erase_box() {
    assert_eq!(erase_bounds(&vec![]), (0, 0, 0, 0));
    assert_eq!(erase_bounds(&vec![point(10, 300), point(250, 20), point(5, 7)]), (5, 250, 7, 300));
    assert_eq!(erase_bounds(&vec![point(40, 60)]), (40, 40, 60, 60));
}
