use bog::color::Color;
use bog::packed_color::Color as PackedColor;

#[test]
fn color_color_converts_to_u32() {
    let color = Color { r: 0x11, g: 0x22, b: 0x33, a: 0x44 };
    let num = color.to_u32();

    assert_eq!(num, 0x11223344);
}

#[test]
fn color_color_converts_from_u32() {
    let num: u32 = 0x11223344;
    let color = Color::from_u32(num);

    assert_eq!(color, Color { r: 0x11, g: 0x22, b: 0x33, a: 0x44 });
}

#[test]
fn lib_color_converts_to_u32() {
    let color = PackedColor { r: 0x11, g: 0x22, b: 0x33, a: 0x44 };
    let num = color.to_u32();

    assert_eq!(num, 0x11223344);
}

#[test]
fn lib_color_converts_from_u32() {
    let num: u32 = 0x11223344;
    let color = PackedColor::from_u32(num);

    assert_eq!(color, PackedColor { r: 0x11, g: 0x22, b: 0x33, a: 0x44 });
}

#[test]
fn color_round_trips_through_u32() {
    for n in [0u32, 1, 0xff, 0xdead_beef, 0x8000_0001, u32::MAX] {
        assert_eq!(Color::from_u32(n).to_u32(), n);
        assert_eq!(PackedColor::from_u32(n).to_u32(), n);
    }
    let c = Color::new(0xfe, 0x01, 0x80, 0x7f);
    assert_eq!(Color::from_u32(c.to_u32()), c);
}

#[test]
fn color_channel_builders_replace_one_channel() {
    let c = Color::new(1, 2, 3, 4);
    assert_eq!(c.with_red(9), Color::new(9, 2, 3, 4));
    assert_eq!(c.with_green(9), Color::new(1, 9, 3, 4));
    assert_eq!(c.with_blue(9), Color::new(1, 2, 9, 4));
    assert_eq!(c.with_alpha(9), Color::new(1, 2, 3, 9));
    assert_eq!(Color::none().to_u32(), 0);
    assert_eq!(PackedColor::none().to_u32(), 0);
    assert_eq!(Color::new(0xff, 0, 0, 0xff).to_u32(), 0xff0000ff);
}
