use crate::ascii::{
    law_hex_low_nibble_first_reads_back, lower_hex_value, decimal, decimal_len, digit_at,
    hex_low_nibble_first, hex_lower_digit, le_bytes,
    lemma_decimal_small, lemma_overwrite_twice, lemma_pow10_values, overwrite, padded_decimal,
    put_bytes,
};
use vstd::prelude::*;

verus! {

/// Converts a number to "hybrid-little-endian" hex: its bytes in little-endian order, each
/// byte as two lower-case hex digits, the less significant nibble first.
pub fn hex4_2le(number: u32) -> (r: [u8; 8])
    ensures
        r@ == hex_low_nibble_first(number, 4),
{
    let b = le_bytes(number);
    let r = [
        hex_lower_digit(b[0] % 16),
        hex_lower_digit(b[0] / 16),
        hex_lower_digit(b[1] % 16),
        hex_lower_digit(b[1] / 16),
        hex_lower_digit(b[2] % 16),
        hex_lower_digit(b[2] / 16),
        hex_lower_digit(b[3] % 16),
        hex_lower_digit(b[3] / 16),
    ];
    assert(r@ =~= hex_low_nibble_first(number, 4));
    r
}

/// Like `hex4_2le` for the three low bytes of the number; the last two bytes are zero.
pub fn hex3_2le(number: u32) -> (r: [u8; 8])
    ensures
        r@ == hex_low_nibble_first(number, 3) + seq![0u8, 0u8],
{
    let b = le_bytes(number);
    let r = [
        hex_lower_digit(b[0] % 16),
        hex_lower_digit(b[0] / 16),
        hex_lower_digit(b[1] % 16),
        hex_lower_digit(b[1] / 16),
        hex_lower_digit(b[2] % 16),
        hex_lower_digit(b[2] / 16),
        0,
        0,
    ];
    assert(r@ =~= hex_low_nibble_first(number, 3) + seq![0u8, 0u8]);
    r
}

/// The five decimal digits of `c` (with leading zeroes), most significant first.
pub fn itoa_coord(c: u16) -> (r: [u8; 5])
    ensures
        r@ == padded_decimal(c as nat, 5),
{
    proof {
        lemma_pow10_values();
    }
    let r = [
        (c / 10000) as u8 + 48,
        ((c / 1000) % 10) as u8 + 48,
        ((c / 100) % 10) as u8 + 48,
        ((c / 10) % 10) as u8 + 48,
        (c % 10) as u8 + 48,
    ];
    assert(c as nat / 10000 < 10);
    assert(c as nat / 1 == c as nat);
    assert(r@ =~= padded_decimal(c as nat, 5)) by {
        assert(r@[0] == digit_at(c as nat, 4));
        assert(r@[1] == digit_at(c as nat, 3));
        assert(r@[2] == digit_at(c as nat, 2));
        assert(r@[3] == digit_at(c as nat, 1));
        assert(r@[4] == digit_at(c as nat, 0));
    }
    r
}

/// Number of decimal digits of `n`.
pub fn decimal_length(n: u16) -> (l: u8)
    ensures
        l as nat == decimal_len(n as nat),
        1 <= l <= 5,
{
    proof {
        lemma_decimal_small(n as nat);
    }
    if n < 10 {
        1
    } else if n < 100 {
        2
    } else if n < 1000 {
        3
    } else if n < 10000 {
        4
    } else {
        5
    }
}

/// Zero bytes.
pub open spec fn zeros(n: nat) -> Seq<u8> {
    Seq::new(n, |i: int| 0u8)
}

/// Converts a 16-bit number to its decimal representation.
/// Returns an array holding the ASCII digits, left-aligned (the most significant digit
/// first) and padded with zero bytes, and the number of digits.
pub fn itoa_coord_simd(n: u16) -> (r: ([u8; 8], u8))
    ensures
        r.1 as nat == decimal_len(n as nat),
        r.0@ == decimal(n as nat) + zeros((8 - r.1) as nat),
{
    proof {
        lemma_decimal_small(n as nat);
    }
    let digits = itoa_coord(n);
    let len = decimal_length(n);
    let start: usize = 5 - len as usize;
    let mut out = [0u8; 8];
    let mut i: usize = 0;
    while i < len as usize
        invariant
            i <= len,
            1 <= len <= 5,
            start == 5 - len,
            digits@ == padded_decimal(n as nat, 5),
            forall|j: int| 0 <= j < i ==> out@[j] == digits@[start + j],
            forall|j: int| i <= j < 8 ==> out@[j] == 0u8,
        decreases len - i,
    {
        out[i] = digits[start + i];
        i = i + 1;
    }
    assert(out@ =~= decimal(n as nat) + zeros((8 - len) as nat));
    (out, len)
}

/// What `itoa_cooard_x2` returns in its 16 lanes: `"{a} {b}"` followed by the lanes that its
/// shuffles leave behind: three spaces, the five digits of `a`, three spaces, the five digits
/// of `b`, cut at 16 lanes.
pub open spec fn itoa_x2_lanes(a: u16, b: u16) -> Seq<u8> {
    let head = decimal(a as nat) + seq![32u8] + decimal(b as nat);
    let tail = seq![32u8, 32u8, 32u8] + padded_decimal(a as nat, 5) + seq![32u8, 32u8, 32u8]
        + padded_decimal(b as nat, 5);
    head + tail.subrange(0, 16 - head.len())
}

/// Writes two 16-bit numbers in decimal, separated by one space.
/// Returns the 16 lanes (the text left-aligned) and the length of the text.
pub fn itoa_cooard_x2(a: u16, b: u16) -> (r: ([u8; 16], u32))
    ensures
        r.1 as nat == decimal_len(a as nat) + 1 + decimal_len(b as nat),
        r.0@ == itoa_x2_lanes(a, b),
        r.0@.subrange(0, r.1 as int) == decimal(a as nat) + seq![32u8] + decimal(b as nat),
{
    proof {
        lemma_decimal_small(a as nat);
        lemma_decimal_small(b as nat);
    }
    let pa = itoa_coord(a);
    let pb = itoa_coord(b);
    let la = decimal_length(a) as usize;
    let lb = decimal_length(b) as usize;
    let tail: [u8; 16] = [
        32, 32, 32, pa[0], pa[1], pa[2], pa[3], pa[4], 32, 32, 32, pb[0], pb[1], pb[2], pb[3], pb[4],
    ];
    let ghost head = decimal(a as nat) + seq![32u8] + decimal(b as nat);
    let ghost tail_spec = seq![32u8, 32u8, 32u8] + padded_decimal(a as nat, 5) + seq![
        32u8,
        32u8,
        32u8,
    ] + padded_decimal(b as nat, 5);
    assert(tail@ =~= tail_spec);
    let ghost want = itoa_x2_lanes(a, b);
    let total = la + 1 + lb;
    let mut out = [0u8; 16];
    let mut k: usize = 0;
    while k < 16
        invariant
            k <= 16,
            1 <= la <= 5,
            1 <= lb <= 5,
            total == la + 1 + lb,
            la == decimal(a as nat).len(),
            lb == decimal(b as nat).len(),
            pa@ == padded_decimal(a as nat, 5),
            pb@ == padded_decimal(b as nat, 5),
            decimal(a as nat) == pa@.subrange(5 - la, 5),
            decimal(b as nat) == pb@.subrange(5 - lb, 5),
            head == decimal(a as nat) + seq![32u8] + decimal(b as nat),
            tail@ == tail_spec,
            want == head + tail_spec.subrange(0, 16 - head.len()),
            forall|j: int| 0 <= j < k ==> out@[j] == want[j],
        decreases 16 - k,
    {
        let v = if k < la {
            pa[5 - la + k]
        } else if k == la {
            32
        } else if k < total {
            pb[5 - lb + (k - la - 1)]
        } else {
            tail[k - total]
        };
        out[k] = v;
        k = k + 1;
    }
    assert(out@ =~= want);
    assert(out@.subrange(0, total as int) =~= head);
    (out, total as u32)
}

/// The pixel value with its fourth byte set to `0xff`: the command for an RGB pixel is
/// always fully opaque.
pub open spec fn opaque(pixel: u32) -> u32 {
    (pixel as int % 16777216 + 4278190080) as u32
}

/// The PX command that `write_px_rgba` writes:
/// `"PX {x} {y} {hex}\r\n"`, the color in the hex form of `hex4_2le` with an `ff` alpha.
pub open spec fn px_rgb_command(x: u16, y: u16, pixel: u32) -> Seq<u8> {
    seq![80u8, 88u8, 32u8] + decimal(x as nat) + seq![32u8] + decimal(y as nat) + seq![32u8]
        + hex_low_nibble_first(opaque(pixel), 4) + seq![13u8, 10u8]
}

pub proof fn lemma_px_rgb_command_len(x: u16, y: u16, pixel: u32)
    ensures
        px_rgb_command(x, y, pixel).len() == 15 + decimal_len(x as nat) + decimal_len(y as nat),
        px_rgb_command(x, y, pixel).len() <= 25,
{
    lemma_decimal_small(x as nat);
    lemma_decimal_small(y as nat);
}

/// The PX command of `write_px_rgba` reads back to its pixel: `"PX "`, `x` and `y` in decimal
/// separated by a space, a space, eight lower-case hex digits, `"\r\n"`. Hex digit `j` of the
/// colour stands for hex digit `j` of the pixel value counted from the least significant one,
/// for the six digits of its three low bytes; the last two digits are `f` (opaque).
pub proof fn law_px_rgb_command_reads_back(x: u16, y: u16, pixel: u32, j: int)
    requires
        0 <= j < 8,
    ensures
        ({
            let cmd = px_rgb_command(x, y, pixel);
            let lx = decimal(x as nat).len() as int;
            let ly = decimal(y as nat).len() as int;
            let h = 5 + lx + ly;
            &&& cmd.len() == h + 10
            &&& cmd[0] == 80u8 && cmd[1] == 88u8 && cmd[2] == 32u8
            &&& cmd.subrange(3, 3 + lx) == decimal(x as nat)
            &&& cmd[3 + lx] == 32u8
            &&& cmd.subrange(4 + lx, 4 + lx + ly) == decimal(y as nat)
            &&& cmd[4 + lx + ly] == 32u8
            &&& 48 <= cmd[h + j] <= 57 || 97 <= cmd[h + j] <= 102
            &&& lower_hex_value(cmd[h + j]) == if j < 6 {
                (pixel as int / vstd::arithmetic::power::pow(16, j as nat)) % 16
            } else {
                15
            }
            &&& cmd[h + 8] == 13u8 && cmd[h + 9] == 10u8
        }),
{
    let cmd = px_rgb_command(x, y, pixel);
    let lx = decimal(x as nat).len() as int;
    let ly = decimal(y as nat).len() as int;
    law_hex_low_nibble_first_reads_back(opaque(pixel), 4, j);
    lemma_opaque_nibble(pixel, j);
    assert(cmd.subrange(3, 3 + lx) =~= decimal(x as nat));
    assert(cmd.subrange(4 + lx, 4 + lx + ly) =~= decimal(y as nat));
}

/// Setting the top byte to `0xff` keeps the six low hex digits and makes the top two `f`.
proof fn lemma_opaque_nibble(pixel: u32, j: int)
    requires
        0 <= j < 8,
    ensures
        (opaque(pixel) as int / vstd::arithmetic::power::pow(16, j as nat)) % 16 == if j < 6 {
            (pixel as int / vstd::arithmetic::power::pow(16, j as nat)) % 16
        } else {
            15
        },
{
    reveal_with_fuel(vstd::arithmetic::power::pow, 9);
    let o: u32 = opaque(pixel);
    assert(o == pixel % 16777216 + 4278190080);
    if j == 0 {
        assert(o % 16 == pixel % 16) by (bit_vector)
            requires
                o == pixel % 16777216 + 4278190080,
        ;
    } else if j == 1 {
        assert((o / 16) % 16 == (pixel / 16) % 16) by (bit_vector)
            requires
                o == pixel % 16777216 + 4278190080,
        ;
    } else if j == 2 {
        assert((o / 256) % 16 == (pixel / 256) % 16) by (bit_vector)
            requires
                o == pixel % 16777216 + 4278190080,
        ;
    } else if j == 3 {
        assert((o / 4096) % 16 == (pixel / 4096) % 16) by (bit_vector)
            requires
                o == pixel % 16777216 + 4278190080,
        ;
    } else if j == 4 {
        assert((o / 65536) % 16 == (pixel / 65536) % 16) by (bit_vector)
            requires
                o == pixel % 16777216 + 4278190080,
        ;
    } else if j == 5 {
        assert((o / 1048576) % 16 == (pixel / 1048576) % 16) by (bit_vector)
            requires
                o == pixel % 16777216 + 4278190080,
        ;
    } else if j == 6 {
        assert((o / 16777216) % 16 == 15) by (bit_vector)
            requires
                o == pixel % 16777216 + 4278190080,
        ;
    } else {
        assert((o / 268435456) % 16 == 15) by (bit_vector)
            requires
                o == pixel % 16777216 + 4278190080,
        ;
    }
}

/// Generates a PX command (ASCII) for an RGB pixel at `out[at..]`.
/// Returns the length of the command.
pub fn write_px_rgba(out: &mut [u8], at: usize, x: u16, y: u16, pixel: u32) -> (len: usize)
    requires
        at + px_rgb_command(x, y, pixel).len() <= old(out)@.len(),
    ensures
        len == px_rgb_command(x, y, pixel).len(),
        final(out)@ == overwrite(old(out)@, at as int, px_rgb_command(x, y, pixel)),
{
    proof {
        lemma_px_rgb_command_len(x, y, pixel);
        lemma_decimal_small(x as nat);
        lemma_decimal_small(y as nat);
    }
    let out_len = out.len();
    let (xd, xl) = itoa_coord_simd(x);
    let (yd, yl) = itoa_coord_simd(y);
    let hex = hex4_2le(pixel % 16777216 + 4278190080);
    let prefix: [u8; 3] = [80, 88, 32];
    let space: [u8; 1] = [32];
    let crlf: [u8; 2] = [13, 10];
    let ghost orig = out@;
    let ghost p1 = prefix@;
    let ghost p2 = xd@.subrange(0, xl as int);
    let ghost p3 = space@;
    let ghost p4 = yd@.subrange(0, yl as int);
    let ghost p5 = space@;
    let ghost p6 = hex@;
    let ghost p7 = crlf@;
    assert(xd@ == decimal(x as nat) + zeros((8 - xl) as nat));
    assert(p2 =~= decimal(x as nat));
    assert(p4 =~= decimal(y as nat));
    let mut pos = at;
    put_bytes(out, pos, prefix.as_slice(), 3);
    assert(prefix@.subrange(0, 3) =~= p1);
    pos = pos + 3;
    put_bytes(out, pos, xd.as_slice(), xl as usize);
    proof {
        lemma_overwrite_twice(orig, at as int, p1, p2);
    }
    pos = pos + xl as usize;
    put_bytes(out, pos, space.as_slice(), 1);
    assert(space@.subrange(0, 1) =~= p3);
    proof {
        lemma_overwrite_twice(orig, at as int, p1 + p2, p3);
    }
    pos = pos + 1;
    put_bytes(out, pos, yd.as_slice(), yl as usize);
    proof {
        lemma_overwrite_twice(orig, at as int, p1 + p2 + p3, p4);
    }
    pos = pos + yl as usize;
    put_bytes(out, pos, space.as_slice(), 1);
    proof {
        lemma_overwrite_twice(orig, at as int, p1 + p2 + p3 + p4, p5);
    }
    pos = pos + 1;
    put_bytes(out, pos, hex.as_slice(), 8);
    assert(hex@.subrange(0, 8) =~= p6);
    proof {
        lemma_overwrite_twice(orig, at as int, p1 + p2 + p3 + p4 + p5, p6);
    }
    pos = pos + 8;
    put_bytes(out, pos, crlf.as_slice(), 2);
    assert(crlf@.subrange(0, 2) =~= p7);
    proof {
        lemma_overwrite_twice(orig, at as int, p1 + p2 + p3 + p4 + p5 + p6, p7);
    }
    pos = pos + 2;
    assert(p1 + p2 + p3 + p4 + p5 + p6 + p7 =~= px_rgb_command(x, y, pixel));
    pos - at
}

} // verus!
