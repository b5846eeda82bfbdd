use pixelflut::pixelflut_base::blit_image::{blit_image, ImageInfo};
use pixelflut::pixelflut_base::blit_image_ng::{calc_pixelflut_frame_size, encode_image, ImageData};
use pixelflut::pixelflut_base::pixelflut_builder::{Color, PixelflutBuilder};

#[test]
fn base_builder_cmd_px_writes_an_opaque_rgb_command() {
    let mut buf = vec![0u8; 100];
    let mut b = PixelflutBuilder::with_capacity(&mut buf, 4);
    assert!(b.check_capacity(4));
    assert!(!b.check_capacity(5));
    b.cmd_px(1, 2, Color { r: 0x11, g: 0x22, b: 0x33, a: 0x44 });
    assert_eq!(b.as_slice(), b"PX 1 2 112233ff\r\n");
    b.cmd_px(65535, 0, Color { r: 0xab, g: 0, b: 0, a: 0 });
    assert_eq!(b.as_slice(), b"PX 1 2 112233ff\r\nPX 65535 0 ba0000ff\r\n");
    assert!(b.check_capacity(2));
    assert!(!b.check_capacity(3));
}

#[test]
fn base_builder_cmd_pxb_writes_binary() {
    let mut buf = vec![0u8; 50];
    let mut b = PixelflutBuilder::with_xy_capacity(&mut buf, 1, 2);
    b.cmd_pxb(0x0102, 0x0304, Color { r: 5, g: 6, b: 7, a: 8 });
    assert_eq!(b.as_slice(), &[b'P', b'B', 2, 1, 4, 3, 5, 6, 7, 8]);
}

#[test]
fn base_builder_required_size() {
    assert_eq!(PixelflutBuilder::required_size(0, 0), 25);
    assert_eq!(PixelflutBuilder::required_size(1920, 1080), 1920 * 1080 * 25 + 25);
}

#[test]
fn blit_image_writes_one_command_per_pixel_in_row_order() {
    // 2x2 image, one pixel of stride between rows.
    let image: Vec<u8> = vec![
        1, 2, 3, 4, 5, 6, 7, 8, 0xee, 0xee, 0xee, 0xee, // row 0 + stride
        9, 10, 11, 12, 13, 14, 15, 16, // row 1
    ];
    let info = ImageInfo { width: 2, height: 2, stride: 1 };
    let mut buf = vec![0u8; PixelflutBuilder::required_size(2, 2)];
    let mut b = PixelflutBuilder::with_xy_capacity(&mut buf, 2, 2);
    blit_image(&mut b, &image, &info, 10, 65535);
    assert_eq!(
        std::str::from_utf8(b.as_slice()).unwrap(),
        "PX 10 65535 102030ff\r\nPX 11 65535 506070ff\r\nPX 10 0 90a0b0ff\r\nPX 11 0 d0e0f0ff\r\n"
    );
}

#[test]
fn blit_empty_image_writes_nothing() {
    let info = ImageInfo::default();
    let mut buf = vec![0u8; 25];
    let mut b = PixelflutBuilder::with_capacity(&mut buf, 0);
    blit_image(&mut b, &[], &info, 0, 0);
    assert_eq!(b.as_slice(), b"");
}

#[test]
fn frame_size_of_full_hd() {
    assert_eq!(calc_pixelflut_frame_size(1920, 1080), 192 * 108 * 17 + 1920 * 1080 * 16 + 128);
    assert_eq!(calc_pixelflut_frame_size(1, 1), 17 + 100 * 16 + 128);
    assert_eq!(calc_pixelflut_frame_size(0, 0), 128);
}

fn expected_chunk(out: &mut Vec<u8>, cx: usize, cy: usize, pixels: &[u32], chunk: usize) {
    out.extend_from_slice(format!("OFFSET {cx} {cy}\n").as_bytes());
    for j in 0..81 {
        let v = pixels[81 * chunk + j];
        let b = v.to_le_bytes();
        let hex: String = b
            .iter()
            .map(|byte| format!("{:x}{:x}", byte & 0xf, byte >> 4))
            .collect();
        out.extend_from_slice(format!("PX {} {} {}\n", j % 9, j / 9, hex).as_bytes());
    }
}

#[test]
fn encode_image_writes_nine_by_nine_pixels_per_chunk() {
    let width = 20;
    let height = 10;
    let pixels: Vec<u32> = (0..200u32).map(|i| i.wrapping_mul(0x01020304)).collect();
    let size = calc_pixelflut_frame_size(width, height);
    let mut out = vec![b'#'; size];
    let len = encode_image(ImageData { pixel_data: &pixels, width, height }, &mut out);
    let mut expected = Vec::new();
    expected_chunk(&mut expected, 0, 0, &pixels, 0);
    expected_chunk(&mut expected, 1, 0, &pixels, 1);
    assert_eq!(len, expected.len());
    assert_eq!(&out[..len], expected.as_slice());
    assert!(out[len..].iter().all(|&b| b == b'#'));
}

#[test]
fn encode_image_of_a_small_image_writes_nothing() {
    let pixels: Vec<u32> = vec![1; 81];
    let mut out = vec![0u8; calc_pixelflut_frame_size(9, 9)];
    let len = encode_image(ImageData { pixel_data: &pixels, width: 9, height: 9 }, &mut out);
    assert_eq!(len, 0);
}
