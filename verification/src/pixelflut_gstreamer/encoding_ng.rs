use crate::ascii::{
    law_hex_digits_read_back, upper_hex_value, law_hex_low_nibble_first_reads_back, lower_hex_value, decimal, decimal_len,
    hex_low_nibble_first, hex_upper, hex_upper_digit, lemma_decimal_small,
    lemma_pow10_values, overwrite, padded_decimal, put_bytes,
};
use crate::pixelflut_gstreamer::encoding_helpers::{hex3_2le, hex4_2le};
use vstd::prelude::*;

verus! {

pub type Coord = u16;

pub type SkipLength = usize;

/// Moves the lanes of `v` down by `n` (lane `i` takes lane `i + n`); lanes that would come
/// from outside the vector are zero.
pub fn simd_shift_left(v: [u8; 16], n: i8) -> (r: [u8; 16])
    ensures
        forall|i: int|
            0 <= i < 16 ==> #[trigger] r@[i] == (if 0 <= i + n < 16 {
                v@[i + n]
            } else {
                0u8
            }),
{
    let mut r = [0u8; 16];
    let mut i: usize = 0;
    while i < 16
        invariant
            i <= 16,
            forall|j: int| i <= j < 16 ==> #[trigger] r@[j] == 0u8,
            forall|j: int|
                0 <= j < i ==> #[trigger] r@[j] == (if 0 <= j + n < 16 {
                    v@[j + n]
                } else {
                    0u8
                }),
        decreases 16 - i,
    {
        let src: i16 = i as i16 + n as i16;
        if 0 <= src && src < 16 {
            r[i] = v[src as usize];
        }
        i = i + 1;
    }
    r
}

/// Moves the lanes of `v` up by `n` (lane `i` takes lane `i - n`); the first `n` lanes are zero.
pub fn simd_shift_right(v: [u8; 16], n: u8) -> (r: [u8; 16])
    requires
        n <= 127,
    ensures
        forall|i: int|
            0 <= i < 16 ==> #[trigger] r@[i] == (if i >= n {
                v@[i - n]
            } else {
                0u8
            }),
{
    let mut r = [0u8; 16];
    let mut i: usize = 0;
    while i < 16
        invariant
            i <= 16,
            forall|j: int| i <= j < 16 ==> #[trigger] r@[j] == 0u8,
            forall|j: int|
                0 <= j < i ==> #[trigger] r@[j] == (if j >= n {
                    v@[j - n]
                } else {
                    0u8
                }),
        decreases 16 - i,
    {
        if i >= n as usize {
            r[i] = v[i - n as usize];
        }
        i = i + 1;
    }
    r
}

/// A byte mask with lane `i` set to `0xff` exactly when bit `i` of `mask` is set.
pub fn simd_mask(mask: u16) -> (r: [u8; 16])
    ensures
        forall|i: int|
            0 <= i < 16 ==> #[trigger] r@[i] == (if (mask >> (i as u16)) & 1 == 1 {
                0xffu8
            } else {
                0u8
            }),
{
    let mut r = [0u8; 16];
    let mut i: u16 = 0;
    while i < 16
        invariant
            i <= 16,
            forall|j: int| i <= j < 16 ==> #[trigger] r@[j] == 0u8,
            forall|j: int|
                0 <= j < i ==> #[trigger] r@[j] == (if (mask >> (j as u16)) & 1 == 1 {
                    0xffu8
                } else {
                    0u8
                }),
        decreases 16 - i,
    {
        if (mask >> i) & 1 == 1 {
            r[i as usize] = 0xff;
        }
        i = i + 1;
    }
    r
}

/// `"OFFSET {x} {y}\n"`, each coordinate reduced to its last four decimal digits.
pub open spec fn offset_command(x: u16, y: u16) -> Seq<u8> {
    seq![79u8, 70u8, 70u8, 83u8, 69u8, 84u8, 32u8] + decimal((x % 10000) as nat) + seq![32u8]
        + decimal((y % 10000) as nat) + seq![10u8]
}

/// Spaces.
pub open spec fn spaces(n: nat) -> Seq<u8> {
    Seq::new(n, |i: int| 32u8)
}

/// The bytes that `encode_offset_command` writes: the command, followed by spaces up to
/// sixteen bytes when it is shorter.
pub open spec fn offset_command_written(x: u16, y: u16) -> Seq<u8> {
    let cmd = offset_command(x, y);
    if cmd.len() < 16 {
        cmd + spaces((16 - cmd.len()) as nat)
    } else {
        cmd
    }
}

/// The four decimal digits of `n % 10000`, most significant first, as numbers.
fn four_digits(n: u16) -> (r: [u8; 4])
    ensures
        forall|i: int| 0 <= i < 4 ==> #[trigger] r@[i] as int + 48 == padded_decimal((n % 10000) as nat, 5)[i + 1],
        forall|i: int| 0 <= i < 4 ==> #[trigger] r@[i] <= 9,
{
    proof {
        lemma_pow10_values();
    }
    let m = n % 10000;
    assert(m as nat / 1 == m as nat);
    [((m / 1000) % 10) as u8, ((m / 100) % 10) as u8, ((m / 10) % 10) as u8, (m % 10) as u8]
}

/// The digits of `x` (lanes 0..4) and of `y` (lanes 4..8) in "almost ASCII" form (the digit
/// plus `b'0' - b' '`, so that adding them to a space yields the ASCII digit), each selected
/// into a vector of its own with `simd_mask`.
fn masked_digit_lanes(dx: [u8; 4], dy: [u8; 4]) -> (r: ([u8; 16], [u8; 16]))
    requires
        forall|j: int| 0 <= j < 4 ==> #[trigger] dx@[j] <= 9 && dy@[j] <= 9,
    ensures
        forall|j: int| 0 <= j < 16 ==> #[trigger] r.0@[j] == (if j < 4 { dx@[j] + 16 } else { 0 }),
        forall|j: int| 0 <= j < 16 ==> #[trigger] r.1@[j] == (if 4 <= j < 8 { dy@[j - 4] + 16 } else { 0 }),
{
    // "Almost ASCII" digits: the digit plus b'0' - b' ', so that adding them to a pattern of
    // spaces yields the ASCII digit.
    let mut digits_conv = [16u8; 16];
    let mut i: usize = 0;
    while i < 4
        invariant
            i <= 4,
            forall|j: int| 0 <= j < i ==> #[trigger] digits_conv@[j] == dx@[j] + 16,
            forall|j: int| 0 <= j < i ==> #[trigger] digits_conv@[j + 4] == dy@[j] + 16,
            forall|j: int| i <= j < 4 ==> #[trigger] digits_conv@[j] == 16,
            forall|j: int| i + 4 <= j < 16 ==> #[trigger] digits_conv@[j] == 16,
            forall|j: int| 0 <= j < 4 ==> #[trigger] dx@[j] <= 9 && dy@[j] <= 9,
        decreases 4 - i,
    {
        digits_conv[i] = dx[i] + 16;
        digits_conv[i + 4] = dy[i] + 16;
        i = i + 1;
    }
    assert forall|j: int| 4 <= j < 8 implies #[trigger] digits_conv@[j] == dy@[j - 4] + 16 by {
        assert(digits_conv@[(j - 4) + 4] == dy@[j - 4] + 16);
    }
    let mask_x = simd_mask(0b0000_1111);
    let mask_y = simd_mask(0b1111_0000);
    assert forall|j: int| 0 <= j < 16 implies #[trigger] mask_x@[j] == (if j < 4 { 0xffu8 } else { 0u8 }) by {
        let k = j as u16;
        assert((0b0000_1111u16 >> k) & 1 == (if k < 4 { 1u16 } else { 0u16 })) by (bit_vector)
            requires
                k < 16,
        ;
    }
    assert forall|j: int| 0 <= j < 16 implies #[trigger] mask_y@[j] == (if 4 <= j < 8 { 0xffu8 } else { 0u8 }) by {
        let k = j as u16;
        assert((0b1111_0000u16 >> k) & 1 == (if 4 <= k < 8 { 1u16 } else { 0u16 })) by (bit_vector)
            requires
                k < 16,
        ;
    }
    let mut xxxx = [0u8; 16];
    let mut yyyy = [0u8; 16];
    let mut i: usize = 0;
    while i < 16
        invariant
            i <= 16,
            forall|j: int| 0 <= j < i ==> #[trigger] xxxx@[j] == digits_conv@[j] & mask_x@[j],
            forall|j: int| 0 <= j < i ==> #[trigger] yyyy@[j] == digits_conv@[j] & mask_y@[j],
        decreases 16 - i,
    {
        xxxx[i] = digits_conv[i] & mask_x[i];
        yyyy[i] = digits_conv[i] & mask_y[i];
        i = i + 1;
    }
    assert forall|j: int| 0 <= j < 16 implies #[trigger] xxxx@[j] == (if j < 4 { digits_conv@[j] } else { 0u8 }) by {
        let v = digits_conv@[j];
        assert(v & 0xffu8 == v && v & 0u8 == 0) by (bit_vector);
    }
    assert forall|j: int| 0 <= j < 16 implies #[trigger] yyyy@[j] == (if 4 <= j < 8 { digits_conv@[j] } else { 0u8 }) by {
        let v = digits_conv@[j];
        assert(v & 0xffu8 == v && v & 0u8 == 0) by (bit_vector);
    }
    (xxxx, yyyy)
}

/// Index of the first non-zero digit among four digits, 3 if the first three are zero.
fn leading_zeroes(d: [u8; 4]) -> (lz: u8)
    ensures
        lz <= 3,
        forall|i: int| 0 <= i < lz ==> d@[i] == 0,
        lz < 3 ==> d@[lz as int] != 0,
{
    if d[0] != 0 {
        0
    } else if d[1] != 0 {
        1
    } else if d[2] != 0 {
        2
    } else {
        3
    }
}

/// The digits of a number below 10000 without its leading zeroes are its decimal representation.
proof fn lemma_four_digits(n: nat, d: Seq<u8>, lz: int)
    requires
        n < 10000,
        d.len() == 4,
        forall|i: int| 0 <= i < 4 ==> #[trigger] d[i] as int + 48 == padded_decimal(n, 5)[i + 1],
        0 <= lz <= 3,
        forall|i: int| 0 <= i < lz ==> d[i] == 0,
        lz < 3 ==> d[lz] != 0,
    ensures
        decimal_len(n) == 4 - lz,
        decimal(n).len() == 4 - lz,
        forall|i: int| 0 <= i < 4 - lz ==> #[trigger] decimal(n)[i] == d[lz + i] + 48,
{
    lemma_decimal_small(n);
    lemma_pow10_values();
    let p = padded_decimal(n, 5);
    assert(d[0] as int + 48 == p[1]);
    assert(d[1] as int + 48 == p[2]);
    assert(d[2] as int + 48 == p[3]);
    assert(n / 1000 < 10);
    assert(n < 1000 ==> n / 100 < 10);
    assert(n < 100 ==> n / 10 < 10);
    assert(n >= 1000 <==> d[0] != 0);
    assert(n < 1000 ==> (n >= 100 <==> d[1] != 0));
    assert(n < 100 ==> (n >= 10 <==> d[2] != 0));
}

proof fn lemma_offset_lanes(
    x: u16,
    y: u16,
    dx: Seq<u8>,
    dy: Seq<u8>,
    x_lz: int,
    y_lz: int,
    xa: Seq<u8>,
    ya: Seq<u8>,
    pattern: Seq<u8>,
    lanes: Seq<u8>,
)
    requires
        dx.len() == 4,
        dy.len() == 4,
        0 <= x_lz <= 3,
        0 <= y_lz <= 3,
        forall|j: int| 0 <= j < 4 ==> #[trigger] dx[j] <= 9 && dy[j] <= 9,
        decimal((x % 10000) as nat).len() == 4 - x_lz,
        decimal((y % 10000) as nat).len() == 4 - y_lz,
        forall|i: int| 0 <= i < 4 - x_lz ==> #[trigger] decimal((x % 10000) as nat)[i] == dx[x_lz + i] + 48,
        forall|i: int| 0 <= i < 4 - y_lz ==> #[trigger] decimal((y % 10000) as nat)[i] == dy[y_lz + i] + 48,
        pattern == seq![79u8, 70u8, 70u8, 83u8, 69u8, 84u8, 32u8, 32u8, 32u8, 32u8, 32u8, 32u8, 32u8, 32u8, 32u8, 32u8],
        xa.len() == 16,
        ya.len() == 16,
        lanes.len() == 16,
        forall|k: int| 0 <= k < 16 ==> #[trigger] xa[k] == (if 7 <= k < 11 - x_lz {
            dx[k - 7 + x_lz] + 16
        } else {
            0
        }),
        forall|k: int| 0 <= k < 16 ==> #[trigger] ya[k] == (if 12 - x_lz <= k < 16 - x_lz - y_lz {
            dy[k - 12 + x_lz + y_lz] + 16
        } else {
            0
        }),
        forall|k: int| 0 <= k < 16 ==> #[trigger] lanes[k] == pattern[k].wrapping_add(xa[k]).wrapping_add(ya[k]),
    ensures
        lanes == (offset_command(x, y).subrange(0, offset_command(x, y).len() - 1) + spaces(
            (17 - offset_command(x, y).len()) as nat,
        )).subrange(0, 16),
{
    let cmd = offset_command(x, y);
    let xs = decimal((x % 10000) as nat);
    let ys = decimal((y % 10000) as nat);
    let want = (cmd.subrange(0, cmd.len() - 1) + spaces((17 - cmd.len()) as nat)).subrange(0, 16);
    assert forall|k: int| 0 <= k < 16 implies #[trigger] lanes[k] == want[k] by {
        if 7 <= k < 11 - x_lz {
            assert(cmd[k] == xs[k - 7]);
        } else if 12 - x_lz <= k < 16 - x_lz - y_lz {
            assert(cmd[k] == ys[k - 12 + x_lz]);
        }
    }
    assert(lanes =~= want);
}

/// For coordinates of at most four digits the OFFSET command is `"OFFSET {x} {y}\n"` with
/// both coordinates in plain decimal.
pub proof fn law_offset_command_is_decimal(x: u16, y: u16)
    requires
        x <= 9999,
        y <= 9999,
    ensures
        offset_command(x, y) == seq![79u8, 70u8, 70u8, 83u8, 69u8, 84u8, 32u8] + decimal(x as nat)
            + seq![32u8] + decimal(y as nat) + seq![10u8],
{
}

/// The PX commands of a 10x10 chunk are exactly as long as their `StaticSkip`.
pub proof fn law_px_command_lite_lengths(x: MiniCoord, y: MiniCoord, value: u32)
    ensures
        px_command_lite_rgba(x, y, value).len() == 16,
        px_command_lite_rgb(x, y, value).len() == 16,
        px_command_lite_gray(x, y, (value % 256) as u8).len() == 10,
{
}

/// The lite RGB command reads back to its pixel: `"PX "`, the coordinates as the characters
/// `x + '0'` and `y + '0'`, separated by spaces, then six lower-case hex digits of which digit
/// `j` stands for hex digit `j` of the value counted from the least significant one, a line
/// feed and two zero bytes.
pub proof fn law_px_command_lite_rgb_reads_back(x: MiniCoord, y: MiniCoord, value: RgbValue, j: int)
    requires
        x + 48 <= 255,
        y + 48 <= 255,
        0 <= j < 6,
    ensures
        ({
            let cmd = px_command_lite_rgb(x, y, value);
            &&& cmd.len() == 16
            &&& cmd[0] == 80u8 && cmd[1] == 88u8 && cmd[2] == 32u8
            &&& cmd[3] == x + 48 && cmd[4] == 32u8 && cmd[5] == y + 48 && cmd[6] == 32u8
            &&& 48 <= cmd[7 + j] <= 57 || 97 <= cmd[7 + j] <= 102
            &&& lower_hex_value(cmd[7 + j]) == (value as int / vstd::arithmetic::power::pow(
                16,
                j as nat,
            )) % 16
            &&& cmd[13] == 10u8 && cmd[14] == 0u8 && cmd[15] == 0u8
        }),
{
    law_hex_low_nibble_first_reads_back(value, 3, j);
}

/// The lite RGBA command reads back to its pixel: `"PX "`, the coordinates as the characters
/// `x + '0'` and `y + '0'`, separated by spaces, then eight lower-case hex digits of which
/// digit `j` stands for hex digit `j` of the value counted from the least significant one,
/// and a line feed.
pub proof fn law_px_command_lite_rgba_reads_back(
    x: MiniCoord,
    y: MiniCoord,
    value: RgbaValue,
    j: int,
)
    requires
        x + 48 <= 255,
        y + 48 <= 255,
        0 <= j < 8,
    ensures
        ({
            let cmd = px_command_lite_rgba(x, y, value);
            &&& cmd.len() == 16
            &&& cmd[0] == 80u8 && cmd[1] == 88u8 && cmd[2] == 32u8
            &&& cmd[3] == x + 48 && cmd[4] == 32u8 && cmd[5] == y + 48 && cmd[6] == 32u8
            &&& 48 <= cmd[7 + j] <= 57 || 97 <= cmd[7 + j] <= 102
            &&& lower_hex_value(cmd[7 + j]) == (value as int / vstd::arithmetic::power::pow(
                16,
                j as nat,
            )) % 16
            &&& cmd[15] == 10u8
        }),
{
    law_hex_low_nibble_first_reads_back(value, 4, j);
}

/// What `encode_offset_command` writes is the OFFSET command, padded with spaces to sixteen
/// bytes when it is shorter, and nothing more when it is longer.
pub proof fn law_offset_command_padding(x: u16, y: u16)
    ensures
        ({
            let cmd = offset_command(x, y);
            let w = offset_command_written(x, y);
            &&& w.len() == if cmd.len() < 16 {
                16
            } else {
                cmd.len()
            }
            &&& w.subrange(0, cmd.len() as int) == cmd
            &&& forall|k: int| cmd.len() <= k < w.len() ==> #[trigger] w[k] == 32u8
        }),
{
    let cmd = offset_command(x, y);
    let w = offset_command_written(x, y);
    assert(w.subrange(0, cmd.len() as int) =~= cmd);
}

/// The lite gray command: `"PX "`, the coordinates as the raw bytes `x` and `y`, separated by
/// spaces, then two upper-case hex digits that stand for the gray value, high digit first,
/// and a line feed.
pub proof fn law_px_command_lite_gray_reads_back(x: MiniCoord, y: MiniCoord, value: u8)
    ensures
        ({
            let cmd = px_command_lite_gray(x, y, value);
            &&& cmd.len() == 10
            &&& cmd[0] == 80u8 && cmd[1] == 88u8 && cmd[2] == 32u8
            &&& cmd[3] == x && cmd[4] == 32u8 && cmd[5] == y && cmd[6] == 32u8
            &&& 48 <= cmd[7] <= 57 || 65 <= cmd[7] <= 70
            &&& 48 <= cmd[8] <= 57 || 65 <= cmd[8] <= 70
            &&& 16 * upper_hex_value(cmd[7]) + upper_hex_value(cmd[8]) == value
            &&& cmd[9] == 10u8
        }),
{
    law_hex_digits_read_back((value / 16) as int);
    law_hex_digits_read_back((value % 16) as int);
}

pub proof fn lemma_offset_command_len(x: u16, y: u16)
    ensures
        offset_command(x, y).len() == 9 + decimal_len((x % 10000) as nat) + decimal_len(
            (y % 10000) as nat,
        ),
        11 <= offset_command(x, y).len() <= 17,
        offset_command_written(x, y).len() == if offset_command(x, y).len() < 16 {
            16
        } else {
            offset_command(x, y).len()
        },
{
    lemma_decimal_small((x % 10000) as nat);
    lemma_decimal_small((y % 10000) as nat);
}

/// The sixteen lanes of the OFFSET command before its newline is stored: the command
/// without its newline, then spaces.
pub open spec fn offset_command_lanes(x: u16, y: u16) -> Seq<u8> {
    let cmd = offset_command(x, y);
    (cmd.subrange(0, cmd.len() - 1) + spaces((17 - cmd.len()) as nat)).subrange(0, 16)
}

/// Computes the lanes of the OFFSET command of `(x, y)` and its length.
#[verifier::spinoff_prover]
#[verifier::rlimit(40)]
fn offset_command_vector(x: Coord, y: Coord) -> (r: ([u8; 16], usize))
    ensures
        r.0@ == offset_command_lanes(x, y),
        r.1 == offset_command(x, y).len(),
{
    proof {
        lemma_offset_command_len(x, y);
        lemma_decimal_small((x % 10000) as nat);
        lemma_decimal_small((y % 10000) as nat);
    }
    let dx = four_digits(x);
    let dy = four_digits(y);
    let (xxxx, yyyy) = masked_digit_lanes(dx, dy);
    let x_lz = leading_zeroes(dx);
    let y_lz = leading_zeroes(dy);
    let x_len = 4 - x_lz;
    let y_len = 4 - y_lz;
    // OFFSET x y
    let xxxx_align = simd_shift_right(simd_shift_left(xxxx, x_lz as i8), 7);
    let yyyy_align = simd_shift_right(simd_shift_left(yyyy, y_lz as i8 + 4), 7 + x_len + 1);
    let pattern: [u8; 16] = [79, 70, 70, 83, 69, 84, 32, 32, 32, 32, 32, 32, 32, 32, 32, 32];
    let mut offset_command_lanes = [0u8; 16];
    let mut i: usize = 0;
    while i < 16
        invariant
            i <= 16,
            forall|j: int|
                0 <= j < i ==> #[trigger] offset_command_lanes@[j] == pattern@[j].wrapping_add(
                    xxxx_align@[j],
                ).wrapping_add(yyyy_align@[j]),
        decreases 16 - i,
    {
        offset_command_lanes[i] = pattern[i].wrapping_add(xxxx_align[i]).wrapping_add(yyyy_align[i]);
        i = i + 1;
    }
    let total_len: usize = 9 + x_len as usize + y_len as usize;
    let ghost cmd = offset_command(x, y);
    let ghost xs = decimal((x % 10000) as nat);
    let ghost ys = decimal((y % 10000) as nat);
    proof {
        lemma_four_digits((x % 10000) as nat, dx@, x_lz as int);
        lemma_four_digits((y % 10000) as nat, dy@, y_lz as int);
    }
    assert(total_len == cmd.len());
    let ghost lanes_want = (cmd.subrange(0, cmd.len() - 1) + spaces((17 - cmd.len()) as nat)).subrange(0, 16);
    assert forall|k: int| 0 <= k < 16 implies #[trigger] xxxx_align@[k] == (if 7 <= k < 7 + x_len {
        dx@[k - 7 + x_lz] + 16
    } else {
        0
    }) by {
        if k >= 7 {
            assert(xxxx_align@[k] == (if 0 <= k - 7 + x_lz < 16 { xxxx@[k - 7 + x_lz] } else { 0u8 }));
        }
    }
    assert forall|k: int| 0 <= k < 16 implies #[trigger] yyyy_align@[k] == (if 8 + x_len <= k < 8 + x_len + y_len {
        dy@[k - 8 - x_len + y_lz] + 16
    } else {
        0
    }) by {
        if k >= 8 + x_len {
            assert(yyyy_align@[k] == (if 0 <= k - 8 - x_len + y_lz + 4 < 16 {
                yyyy@[k - 8 - x_len + y_lz + 4]
            } else {
                0u8
            }));
        }
    }
    proof {
        lemma_offset_lanes(
            x,
            y,
            dx@,
            dy@,
            x_lz as int,
            y_lz as int,
            xxxx_align@,
            yyyy_align@,
            pattern@,
            offset_command_lanes@,
        );
    }
    assert(offset_command_lanes@ =~= lanes_want);
    (offset_command_lanes, total_len)
}

/// Writes `"OFFSET {x} {y}\n"` (of `x` and `y` the last four decimal digits) to `out` at
/// position `at`, padded with spaces to sixteen bytes, and returns the length of the command.
pub fn encode_offset_command(x: Coord, y: Coord, out: &mut [u8], at: usize) -> (len: SkipLength)
    requires
        at + offset_command_written(x, y).len() <= old(out)@.len(),
    ensures
        len == offset_command(x, y).len(),
        final(out)@ == overwrite(old(out)@, at as int, offset_command_written(x, y)),
{
    proof {
        lemma_offset_command_len(x, y);
    }
    let (offset_command, total_len) = offset_command_vector(x, y);
    let out_len = out.len();
    put_bytes(out, at, offset_command.as_slice(), 16);
    let newline: [u8; 1] = [10];
    put_bytes(out, at + total_len - 1, newline.as_slice(), 1);
    assert(offset_command@.subrange(0, 16) =~= offset_command@);
    assert(newline@.subrange(0, 1) =~= seq![10u8]);
    assert(out@ =~= overwrite(old(out)@, at as int, offset_command_written(x, y)));
    total_len
}

pub type MiniCoord = u8;

// 0..9
pub type RgbaValue = u32;

pub type RgbValue = u32;

pub type GrayValue = u32;

/// An "output" slice type, large enough so that one can easily implement SIMD shenanigans.
/// It might be oversized for the various PX commands, but this is important for SIMD
/// algorithms.
pub type OutSlice<'a> = &'a mut [u8; 16];

/// A number of bytes to skip that is known at compile time.
pub struct StaticSkip<const N: usize>;

impl<const N: usize> From<StaticSkip<N>> for SkipLength {
    fn from(skip: StaticSkip<N>) -> (r: SkipLength) {
        N
    }
}

impl<const N: usize> vstd::std_specs::convert::FromSpecImpl<StaticSkip<N>> for SkipLength {
    open spec fn obeys_from_spec() -> bool {
        true
    }

    open spec fn from_spec(v: StaticSkip<N>) -> SkipLength {
        N
    }
}

/// Adds, lane by lane (wrapping), the 8 bytes of `hex` moved up to lanes 7..15 to `pattern`.
fn add_hex_at_7(pattern: [u8; 16], hex: [u8; 8]) -> (r: [u8; 16])
    ensures
        forall|k: int|
            0 <= k < 16 ==> #[trigger] r@[k] == (if 7 <= k < 15 {
                pattern@[k].wrapping_add(hex@[k - 7])
            } else {
                pattern@[k]
            }),
{
    let mut wide = [0u8; 16];
    let mut i: usize = 0;
    while i < 8
        invariant
            i <= 8,
            forall|j: int| 0 <= j < i ==> #[trigger] wide@[j] == hex@[j],
            forall|j: int| i <= j < 16 ==> #[trigger] wide@[j] == 0u8,
        decreases 8 - i,
    {
        wide[i] = hex[i];
        i = i + 1;
    }
    let shifted = simd_shift_right(wide, 7);
    let mut r = [0u8; 16];
    let mut i: usize = 0;
    while i < 16
        invariant
            i <= 16,
            forall|j: int| 0 <= j < i ==> #[trigger] r@[j] == pattern@[j].wrapping_add(shifted@[j]),
        decreases 16 - i,
    {
        r[i] = pattern[i].wrapping_add(shifted[i]);
        i = i + 1;
    }
    assert forall|k: int| 0 <= k < 16 implies #[trigger] r@[k] == (if 7 <= k < 15 {
        pattern@[k].wrapping_add(hex@[k - 7])
    } else {
        pattern@[k]
    }) by {
        assert(r@[k] == pattern@[k].wrapping_add(shifted@[k]));
        if k >= 7 {
            assert(shifted@[k] == wide@[k - 7]);
        }
        assert(pattern@[k].wrapping_add(0u8) == pattern@[k]);
    }
    r
}

/// `"PX {x} {y} {hex}\n"` with one-character coordinates (`x + b'0'`, `y + b'0'`) and the
/// value in the hex form of `hex4_2le`: sixteen bytes.
pub open spec fn px_command_lite_rgba(x: MiniCoord, y: MiniCoord, value: RgbaValue) -> Seq<u8> {
    seq![80u8, 88u8, 32u8, (x + 48) as u8, 32u8, (y + 48) as u8, 32u8] + hex_low_nibble_first(
        value,
        4,
    ) + seq![10u8]
}

/// Writes the PX command of an RGBA value for a pixel of a 10x10 chunk into `out`.
pub fn encode_px_command_lite_rgba(
    x: MiniCoord,
    y: MiniCoord,
    value: RgbaValue,
    out: OutSlice,
) -> (skip: StaticSkip<16>)
    requires
        x + 48 <= 255,
        y + 48 <= 255,
    ensures
        final(out)@ == px_command_lite_rgba(x, y, value),
{
    let pattern: [u8; 16] = [80, 88, 32, 48, 32, 48, 32, 0, 0, 0, 0, 0, 0, 0, 0, 10];
    let hex = hex4_2le(value);
    let mut px_command = add_hex_at_7(pattern, hex);
    px_command[3] = x + 48;
    px_command[5] = y + 48;
    assert forall|k: int| 7 <= k < 15 implies #[trigger] px_command@[k] == hex@[k - 7] by {
        assert(0u8.wrapping_add(hex@[k - 7]) == hex@[k - 7]);
    }
    assert(px_command@ =~= px_command_lite_rgba(x, y, value));
    *out = px_command;
    StaticSkip
}

/// `"PX {x} {y} {hex}\n"` with one-character coordinates and the three low bytes of the value
/// in the hex form of `hex3_2le`, followed by two zero bytes: sixteen bytes, of which the
/// command is fourteen.
pub open spec fn px_command_lite_rgb(x: MiniCoord, y: MiniCoord, value: RgbValue) -> Seq<u8> {
    seq![80u8, 88u8, 32u8, (x + 48) as u8, 32u8, (y + 48) as u8, 32u8] + hex_low_nibble_first(
        value,
        3,
    ) + seq![10u8, 0u8, 0u8]
}

/// Writes the PX command of an RGB value for a pixel of a 10x10 chunk into `out`.
pub fn encode_px_command_lite_rgb(
    x: MiniCoord,
    y: MiniCoord,
    value: RgbValue,
    out: OutSlice,
) -> (skip: StaticSkip<14>)
    requires
        x + 48 <= 255,
        y + 48 <= 255,
    ensures
        final(out)@ == px_command_lite_rgb(x, y, value),
{
    let pattern: [u8; 16] = [80, 88, 32, 48, 32, 48, 32, 0, 0, 0, 0, 0, 0, 10, 0, 0];
    let hex = hex3_2le(value);
    let mut px_command = add_hex_at_7(pattern, hex);
    px_command[3] = x + 48;
    px_command[5] = y + 48;
    assert forall|k: int| 7 <= k < 15 implies #[trigger] px_command@[k] == (if k < 13 {
        hex@[k - 7]
    } else if k == 13 {
        10u8
    } else {
        0u8
    }) by {
        assert(0u8.wrapping_add(hex@[k - 7]) == hex@[k - 7]);
        assert(10u8.wrapping_add(0u8) == 10u8);
    }
    assert(px_command@ =~= px_command_lite_rgb(x, y, value));
    *out = px_command;
    StaticSkip
}

/// `"PX {x} {y} {g}\n"` with the coordinates written as the raw bytes `x` and `y` and the
/// gray value as two upper-case hex digits: ten bytes.
pub open spec fn px_command_lite_gray(x: MiniCoord, y: MiniCoord, value: u8) -> Seq<u8> {
    seq![
        80u8,
        88u8,
        32u8,
        x,
        32u8,
        y,
        32u8,
        hex_upper((value / 16) as int),
        hex_upper((value % 16) as int),
        10u8,
    ]
}

/// Writes the PX command of a gray value into the first ten bytes of `out`.
pub fn encode_px_command_lite_gray(
    x: MiniCoord,
    y: MiniCoord,
    value: u8,
    out: OutSlice,
) -> (skip: StaticSkip<10>)
    ensures
        final(out)@ == px_command_lite_gray(x, y, value) + old(out)@.subrange(10, 16),
{
    assert(value & 0xF == value % 16 && value >> 4 == value / 16) by (bit_vector);
    let g_lo = hex_upper_digit(value & 0xF);
    let g_hi = hex_upper_digit(value >> 4);
    let mut r = *out;
    r[0] = 80;
    r[1] = 88;
    r[2] = 32;
    r[3] = x;
    r[4] = 32;
    r[5] = y;
    r[6] = 32;
    r[7] = g_hi;
    r[8] = g_lo;
    r[9] = 10;
    assert(r@ =~= px_command_lite_gray(x, y, value) + old(out)@.subrange(10, 16));
    *out = r;
    StaticSkip
}

} // verus!
