use proyecto3::color::Color;

#[test]
fn new_keeps_the_channels() {
    let c = Color::new(1, 2, 3);
    assert_eq!((c.r, c.g, c.b), (1, 2, 3));
}

#[test]
fn black_is_all_zero() {
    let c = Color::black();
    assert_eq!((c.r, c.g, c.b), (0, 0, 0));
    assert_eq!(c.to_u32(), 0);
}

#[test]
fn to_u32_packs_red_green_blue() {
    assert_eq!(Color::new(0x12, 0x34, 0x56).to_u32(), 0x123456);
    assert_eq!(Color::new(255, 255, 255).to_u32(), 0xFFFFFF);
    assert_eq!(Color::new(255, 0, 0).to_u32(), 0xFF0000);
    assert_eq!(Color::new(0, 255, 0).to_u32(), 0x00FF00);
    assert_eq!(Color::new(0, 0, 255).to_u32(), 0x0000FF);
}

#[test]
fn to_u32_tells_colours_apart() {
    let a = Color::new(1, 0, 0).to_u32();
    let b = Color::new(0, 1, 0).to_u32();
    let c = Color::new(0, 0, 1).to_u32();
    assert_ne!(a, b);
    assert_ne!(b, c);
    assert_ne!(a, c);
}

#[test]
fn colours_compare_by_channel() {
    assert_eq!(Color::new(9, 8, 7), Color::new(9, 8, 7));
    assert_ne!(Color::new(9, 8, 7), Color::new(9, 8, 6));
}
