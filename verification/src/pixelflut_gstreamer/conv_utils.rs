use crate::ascii::{
    decimal, decimal_len, hex_high_nibble_first, hex_lower_digit, le_bytes, lemma_decimal_small,
    overwrite, padded_decimal, put_bytes,
};
use crate::pixelflut_gstreamer::encoding_helpers::zeros;
use crate::pixelflut_gstreamer::encoding_helpers;
use vstd::prelude::*;

verus! {

/// Converts a number to "hybrid-little-endian" hex: its bytes in little-endian order, each
/// byte as two lower-case hex digits, the most significant nibble first.
pub fn hex4_2le(number: u32) -> (r: [u8; 8])
    ensures
        r@ == hex_high_nibble_first(number),
{
    let b = le_bytes(number);
    let r = [
        hex_lower_digit(b[0] / 16),
        hex_lower_digit(b[0] % 16),
        hex_lower_digit(b[1] / 16),
        hex_lower_digit(b[1] % 16),
        hex_lower_digit(b[2] / 16),
        hex_lower_digit(b[2] % 16),
        hex_lower_digit(b[3] / 16),
        hex_lower_digit(b[3] % 16),
    ];
    assert(r@ =~= hex_high_nibble_first(number));
    r
}

/// The five decimal digits of `c` (with leading zeroes), most significant first.
pub fn itoa_coord(c: u16) -> (r: [u8; 5])
    ensures
        r@ == padded_decimal(c as nat, 5),
{
    encoding_helpers::itoa_coord(c)
}

/// The five decimal digits of `c` (with leading zeroes), most significant first.
pub fn itoa_coord_simd(c: u16) -> (r: [u8; 5])
    ensures
        r@ == padded_decimal(c as nat, 5),
{
    encoding_helpers::itoa_coord(c)
}

/// Writes `n` in decimal, without leading zeroes, into `out` and returns the number of
/// digits; the rest of `out` is zero.
pub fn itoa_coord_simd_l(n: u16, out: &mut [u8; 8]) -> (len: u8)
    ensures
        len as nat == decimal_len(n as nat),
        final(out)@ == decimal(n as nat) + zero_bytes((8 - len) as nat),
{
    let (digits, len) = encoding_helpers::itoa_coord_simd(n);
    assert(zeros((8 - len) as nat) =~= zero_bytes((8 - len) as nat));
    *out = digits;
    len
}

/// Zero bytes.
pub open spec fn zero_bytes(n: nat) -> Seq<u8> {
    Seq::new(n, |i: int| 0u8)
}

/// The digits that the digit mask of `itoa_coord_simd2_avx512` keeps of `n`: those of its
/// decimal form, none for zero.
pub open spec fn nonzero_digits(n: u16) -> Seq<u8> {
    if n == 0 {
        Seq::empty()
    } else {
        decimal(n as nat)
    }
}

/// Writes the decimal digits of `a` and then those of `b`, without separator and without
/// leading zeroes (a zero contributes no digit), into `out[..16]`, zero after them, and
/// returns how many digits there are.
pub fn itoa_coord_simd2_avx512(a: u16, b: u16, out: &mut [u8]) -> (len: u8)
    requires
        old(out)@.len() >= 16,
    ensures
        len as nat == nonzero_digits(a).len() + nonzero_digits(b).len(),
        final(out)@ == overwrite(
            old(out)@,
            0,
            nonzero_digits(a) + nonzero_digits(b) + zero_bytes((16 - len) as nat),
        ),
{
    proof {
        lemma_decimal_small(a as nat);
        lemma_decimal_small(b as nat);
    }
    let (da, la0) = encoding_helpers::itoa_coord_simd(a);
    let (db, lb0) = encoding_helpers::itoa_coord_simd(b);
    let la: usize = if a == 0 {
        0
    } else {
        la0 as usize
    };
    let lb: usize = if b == 0 {
        0
    } else {
        lb0 as usize
    };
    let total = la + lb;
    let ghost text = nonzero_digits(a) + nonzero_digits(b);
    let ghost want = text + zero_bytes((16 - total) as nat);
    let mut r = [0u8; 16];
    let mut k: usize = 0;
    while k < 16
        invariant
            k <= 16,
            la <= 5,
            lb <= 5,
            total == la + lb,
            la == nonzero_digits(a).len(),
            lb == nonzero_digits(b).len(),
            forall|j: int| 0 <= j < la ==> da@[j] == nonzero_digits(a)[j],
            forall|j: int| 0 <= j < lb ==> db@[j] == nonzero_digits(b)[j],
            text == nonzero_digits(a) + nonzero_digits(b),
            want == text + zero_bytes((16 - total) as nat),
            forall|j: int| 0 <= j < k ==> r@[j] == want[j],
        decreases 16 - k,
    {
        let v = if k < la {
            da[k]
        } else if k < total {
            db[k - la]
        } else {
            0
        };
        r[k] = v;
        k = k + 1;
    }
    assert(r@ =~= want);
    put_bytes(out, 0, r.as_slice(), 16);
    assert(r@.subrange(0, 16) =~= r@);
    total as u8
}

/// Writes `"{a} {b}"` into `out[..16]` (zero after the text) and returns the length of the
/// text.
pub fn itoa_coord_simd2_sse(a: u16, b: u16, out: &mut [u8]) -> (len: u8)
    requires
        old(out)@.len() >= 16,
    ensures
        len as nat == decimal_len(a as nat) + 1 + decimal_len(b as nat),
        final(out)@ == overwrite(
            old(out)@,
            0,
            decimal(a as nat) + seq![32u8] + decimal(b as nat) + zero_bytes((16 - len) as nat),
        ),
{
    proof {
        lemma_decimal_small(a as nat);
        lemma_decimal_small(b as nat);
    }
    let (da, la) = encoding_helpers::itoa_coord_simd(a);
    let (db, lb) = encoding_helpers::itoa_coord_simd(b);
    let la = la as usize;
    let lb = lb as usize;
    let total = la + 1 + lb;
    let ghost text = decimal(a as nat) + seq![32u8] + decimal(b as nat);
    let ghost want = text + zero_bytes((16 - total) as nat);
    let mut r = [0u8; 16];
    let mut k: usize = 0;
    while k < 16
        invariant
            k <= 16,
            1 <= la <= 5,
            1 <= lb <= 5,
            total == la + 1 + lb,
            la == decimal(a as nat).len(),
            lb == decimal(b as nat).len(),
            forall|j: int| 0 <= j < la ==> da@[j] == decimal(a as nat)[j],
            forall|j: int| 0 <= j < lb ==> db@[j] == decimal(b as nat)[j],
            text == decimal(a as nat) + seq![32u8] + decimal(b as nat),
            want == text + zero_bytes((16 - total) as nat),
            forall|j: int| 0 <= j < k ==> r@[j] == want[j],
        decreases 16 - k,
    {
        let v = if k < la {
            da[k]
        } else if k == la {
            32
        } else if k < total {
            db[k - la - 1]
        } else {
            0
        };
        r[k] = v;
        k = k + 1;
    }
    assert(r@ =~= want);
    put_bytes(out, 0, r.as_slice(), 16);
    assert(r@.subrange(0, 16) =~= r@);
    total as u8
}

} // verus!
