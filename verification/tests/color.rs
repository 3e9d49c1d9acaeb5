use controller::settings::esp::Color;

#[test]
fn color_bytes_are_little_endian() {
    let c = Color::from_u32(0x11223344);
    assert_eq!(c.as_u8(), [0x44, 0x33, 0x22, 0x11]);
    assert_eq!(Color::from_u8([0x44, 0x33, 0x22, 0x11]), c);
}

#[test]
fn set_alpha_keeps_the_other_channels() {
    let mut c = Color::from_u8([10, 20, 30, 40]);
    c.set_alpha_u8(200);
    assert_eq!(c.as_u8(), [10, 20, 30, 200]);
}
