use itasha_installer::theme::{hex, Rgb};

#[test]
fn hex_reads_brand_colours() {
    assert_eq!(hex("#34E0D0"), Rgb { r: 0x34, g: 0xE0, b: 0xD0 });
    assert_eq!(hex("  ##34e0d0 "), Rgb { r: 0x34, g: 0xE0, b: 0xD0 });
    assert_eq!(hex("ff0000"), Rgb { r: 0xFF, g: 0, b: 0 });
}

#[test]
fn hex_falls_back_per_channel_to_violet() {
    assert_eq!(hex(""), Rgb { r: 0xB4, g: 0x8C, b: 0xE8 });
    assert_eq!(hex("#12"), Rgb { r: 0x12, g: 0x8C, b: 0xE8 });
    assert_eq!(hex("#12zz56"), Rgb { r: 0x12, g: 0x8C, b: 0x56 });
    // `u8::from_str_radix` takes a leading `+`.
    assert_eq!(hex("#+f+f+f"), Rgb { r: 0x0F, g: 0x0F, b: 0x0F });
    // Channels are read by byte: a two-byte character shifts the rest.
    assert_eq!(hex("é12345"), Rgb { r: 0xB4, g: 0x12, b: 0x34 });
}

#[test]
fn icon_has_a_voice_frame_and_centre_dot() {
    let v = Rgb { r: 0x34, g: 0xE0, b: 0xD0 };
    let rgba = itasha_installer::theme::icon_rgba(v);
    assert_eq!(rgba.len(), 64 * 64 * 4);
    let px = |x: usize, y: usize| {
        let i = (y * 64 + x) * 4;
        (rgba[i], rgba[i + 1], rgba[i + 2], rgba[i + 3])
    };
    assert_eq!(px(0, 0), (7, 10, 12, 255));
    assert_eq!(px(8, 8), (0x34, 0xE0, 0xD0, 255));
    assert_eq!(px(55, 30), (0x34, 0xE0, 0xD0, 255));
    assert_eq!(px(56, 30), (7, 10, 12, 255));
    assert_eq!(px(20, 20), (12, 16, 19, 255));
    assert_eq!(px(32, 32), (0x34, 0xE0, 0xD0, 255));
    assert_eq!(px(35, 34), (0x34, 0xE0, 0xD0, 255));
    assert_eq!(px(36, 32), (0x34, 0xE0, 0xD0, 255));
    assert_eq!(px(37, 32), (12, 16, 19, 255));
}
