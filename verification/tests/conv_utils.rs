use pixelflut::pixelflut_gstreamer::conv_utils::{
    hex4_2le, itoa_coord, itoa_coord_simd, itoa_coord_simd2_avx512, itoa_coord_simd2_sse,
    itoa_coord_simd_l,
};

#[test]
fn conv_utils_test_encoding_helpers() {
    assert_eq!(hex4_2le(0xAABBCCDD), *b"ddccbbaa");
    assert_eq!(itoa_coord(10050), *b"10050");
    assert_eq!(itoa_coord_simd(10050), *b"10050");

    let mut out = [0u8; 8];
    let len = itoa_coord_simd_l(65300, &mut out);
    assert_eq!(out[..len as usize], *b"65300");
    assert_eq!(len, 5);
}

#[test]
fn simd_encoding_helpers() {
    let mut out = [0u8; 32];
    let n1 = 60322;
    let n2 = 65321;
    let len = itoa_coord_simd2_sse(n1, n2, &mut out);
    let out2 = String::from_utf8_lossy(&out[..len.into()]);
    assert_eq!(format!("{n1} {n2}"), out2);
}

#[test]
fn conv_hex4_2le_writes_high_nibble_first() {
    assert_eq!(hex4_2le(0x12345678), *b"78563412");
}

#[test]
fn itoa_coord_simd_l_strips_leading_zeroes() {
    let mut out = [b'#'; 8];
    let len = itoa_coord_simd_l(12345, &mut out);
    assert_eq!(len, 5);
    assert_eq!(&out, b"12345\0\0\0");
    let len = itoa_coord_simd_l(500, &mut out);
    assert_eq!(len, 3);
    assert_eq!(&out, b"500\0\0\0\0\0");
    let len = itoa_coord_simd_l(1, &mut out);
    assert_eq!(len, 1);
    assert_eq!(&out, b"1\0\0\0\0\0\0\0");
    let len = itoa_coord_simd_l(0, &mut out);
    assert_eq!(len, 1);
    assert_eq!(&out, b"0\0\0\0\0\0\0\0");
    for n in 0..=u16::MAX {
        let len = itoa_coord_simd_l(n, &mut out);
        assert_eq!(&out[..len as usize], n.to_string().as_bytes());
    }
}

#[test]
fn itoa_coord_simd2_sse_writes_both_numbers() {
    let mut out = [b'#'; 20];
    let len = itoa_coord_simd2_sse(5, 7, &mut out);
    assert_eq!(len, 3);
    assert_eq!(&out[..16], b"5 7\0\0\0\0\0\0\0\0\0\0\0\0\0");
    assert_eq!(&out[16..], b"####");
    let len = itoa_coord_simd2_sse(1234, 5678, &mut out);
    assert_eq!(len, 9);
    assert_eq!(&out[..16], b"1234 5678\0\0\0\0\0\0\0");
    let len = itoa_coord_simd2_sse(65535, 0, &mut out);
    assert_eq!(len, 7);
    assert_eq!(&out[..16], b"65535 0\0\0\0\0\0\0\0\0\0");
    for (a, b) in [(0u16, 0u16), (9, 10), (99, 100), (10000, 9999), (65535, 65535)] {
        let len = itoa_coord_simd2_sse(a, b, &mut out);
        assert_eq!(&out[..len as usize], format!("{a} {b}").as_bytes());
    }
}

#[test]
fn itoa_coord_simd2_avx512_packs_the_digits() {
    let mut out = [b'#'; 16];
    let len = itoa_coord_simd2_avx512(12345, 0, &mut out);
    assert_eq!(len, 5);
    assert_eq!(&out, b"12345\0\0\0\0\0\0\0\0\0\0\0");
    let len = itoa_coord_simd2_avx512(7, 1500, &mut out);
    assert_eq!(len, 5);
    assert_eq!(&out, b"71500\0\0\0\0\0\0\0\0\0\0\0");
}
