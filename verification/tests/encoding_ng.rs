use pixelflut::pixelflut_gstreamer::encoding_ng::{
    encode_offset_command, encode_px_command_lite_gray, encode_px_command_lite_rgb,
    encode_px_command_lite_rgba, Coord, MiniCoord, RgbaValue,
};
use rayon::iter::{IntoParallelIterator, ParallelIterator};

fn helper_encode_offset_command(x: Coord, y: Coord) -> Vec<u8> {
    let mut r = vec![0u8; 128];
    let len = encode_offset_command(x, y, &mut r, 0);
    r.truncate(len);
    r
}

fn reference_encode_offset_command(x: Coord, y: Coord) -> Vec<u8> {
    let mut r = Vec::with_capacity(32);
    r.extend_from_slice(b"OFFSET ");
    r.extend_from_slice(x.to_string().as_bytes());
    r.push(b' ');
    r.extend_from_slice(y.to_string().as_bytes());
    r.push(b'\n');
    r
}

fn helper_encode_px_command_lite_rgba(x: MiniCoord, y: MiniCoord, value: RgbaValue) -> Vec<u8> {
    let mut r = [0u8; 16];
    for (i, b) in r.iter_mut().enumerate() {
        *b = i as u8;
    }
    let len: usize = encode_px_command_lite_rgba(x, y, value, &mut r).into();
    r[..len].to_vec()
}

#[test]
pub fn encode_tests_basic() {
    assert_eq!(
        helper_encode_offset_command(123, 4321).as_slice(),
        b"OFFSET 123 4321\n"
    );
    assert_eq!(
        helper_encode_offset_command(1234, 4321).as_slice(),
        b"OFFSET 1234 4321\n"
    );
    assert_eq!(
        helper_encode_offset_command(1, 9999).as_slice(),
        b"OFFSET 1 9999\n"
    );
    assert_eq!(
        helper_encode_px_command_lite_rgba(1, 2, 0xcc23aa).as_slice(),
        b"PX 1 2 aa32cc00\n"
    );
}

#[test]
pub fn encode_offset_exhaustive() {
    (0..=9999u16).into_par_iter().for_each(|x| {
        let mut buf = [0u8; 17];
        for y in 0..=9999 {
            let reference = reference_encode_offset_command(x, y);
            let len = encode_offset_command(x, y, &mut buf, 0);
            assert_eq!(reference.as_slice(), &buf[..len]);
        }
    });
}

#[test]
fn offset_command_pads_with_spaces_and_keeps_four_digits() {
    let mut buf = [b'#'; 20];
    let len = encode_offset_command(1, 2, &mut buf, 2);
    assert_eq!(len, 11);
    assert_eq!(&buf, b"##OFFSET 1 2\n     ##");
    let len = encode_offset_command(12345, 60000, &mut buf, 0);
    assert_eq!(&buf[..len], b"OFFSET 2345 0\n");
}

#[test]
fn px_command_lite_rgb_and_gray() {
    let mut r = [7u8; 16];
    let len: usize = encode_px_command_lite_rgb(3, 4, 0xff102030, &mut r).into();
    assert_eq!(len, 14);
    assert_eq!(&r, b"PX 3 4 030201\n\0\0");
    let mut r = [7u8; 16];
    let len: usize = encode_px_command_lite_gray(b'5', b'6', 0xa7, &mut r).into();
    assert_eq!(len, 10);
    assert_eq!(&r, b"PX 5 6 A7\n\x07\x07\x07\x07\x07\x07");
}
