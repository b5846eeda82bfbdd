use pixelflut::pixelflut_gstreamer::encoding_helpers::{
    hex3_2le, hex4_2le, itoa_cooard_x2, itoa_coord, itoa_coord_simd, write_px_rgba,
};

#[test]
fn encoding_helpers_test_encoding_helpers() {
    assert_eq!(hex4_2le(0xAABBCCDD), *b"ddccbbaa");

    let (out, len) = itoa_coord_simd(65300);
    assert_eq!(out[..len as usize], *b"65300");
    assert_eq!(len, 5);

    let (out, len) = itoa_coord_simd(1);
    assert_eq!(out[..len as usize], *b"1");
    assert_eq!(len, 1);
}

#[test]
fn test_atoi_x2() {
    for (a, b) in [(12345, 23456), (300, 300), (10, 200), (310, 30), (0, 1)] {
        let (encoded, len) = itoa_cooard_x2(a, b);
        let encoded_b = &encoded[..len as usize];
        assert_eq!(encoded_b, format!("{a} {b}").as_bytes(), "a: {a}, b: {b}")
    }
}

#[test]
fn test_encode_px_command() {
    let mut out = [0u8; 128];
    // Note: we have little-endian
    let l = write_px_rgba(&mut out, 0, 230, 5000, 0xbbaaff);
    assert_eq!(
        String::from_utf8_lossy(&out[..l as usize]),
        "PX 230 5000 ffaabbff\r\n"
    );

    let l = write_px_rgba(&mut out, 0, 0, 1, 0xbbaaff);
    assert_eq!(
        String::from_utf8_lossy(&out[..l as usize]),
        "PX 0 1 ffaabbff\r\n"
    );

    for x in 0..1920 {
        for y in 0..1080 {
            write_px_rgba(&mut out, 0, x, y, 0xbbaaff);
        }
    }
}

#[test]
fn hex4_2le_writes_low_nibble_first() {
    assert_eq!(hex4_2le(0x12345678), *b"87654321");
    assert_eq!(hex4_2le(0), *b"00000000");
    assert_eq!(hex4_2le(0xffffffff), *b"ffffffff");
}

#[test]
fn hex3_2le_ignores_the_fourth_byte() {
    assert_eq!(hex3_2le(0xAB123456), *b"654321\0\0");
}

#[test]
fn itoa_coord_is_zero_padded() {
    assert_eq!(itoa_coord(0), *b"00000");
    assert_eq!(itoa_coord(42), *b"00042");
    assert_eq!(itoa_coord(65535), *b"65535");
}

#[test]
fn itoa_coord_simd_matches_std_formatting() {
    for n in 0..=u16::MAX {
        let (out, len) = itoa_coord_simd(n);
        let text = n.to_string();
        assert_eq!(&out[..len as usize], text.as_bytes());
        assert!(out[len as usize..].iter().all(|&b| b == 0));
    }
}

#[test]
fn itoa_x2_tail_lanes() {
    let (encoded, len) = itoa_cooard_x2(0, 1);
    assert_eq!(len, 3);
    assert_eq!(&encoded, b"0 1   00000   00");
    let (encoded, len) = itoa_cooard_x2(12345, 23456);
    assert_eq!(len, 11);
    assert_eq!(&encoded, b"12345 23456   12");
}

#[test]
fn itoa_x2_matches_std_formatting() {
    for a in (0..=u16::MAX).step_by(97) {
        for b in (0..=u16::MAX).step_by(89) {
            let (encoded, len) = itoa_cooard_x2(a, b);
            assert_eq!(&encoded[..len as usize], format!("{a} {b}").as_bytes());
        }
    }
}

#[test]
fn write_px_rgba_writes_at_the_position_only() {
    let mut out = [b'#'; 40];
    let l = write_px_rgba(&mut out, 5, 65535, 65535, 0x01020304);
    assert_eq!(l, 25);
    assert_eq!(&out[..5], b"#####");
    assert_eq!(&out[5..30], b"PX 65535 65535 403020ff\r\n");
    assert_eq!(&out[30..], b"##########");
}
