use vstd::prelude::*;

verus! {

/// ASCII code of the decimal digit `d` (`d < 10`).
pub open spec fn digit_char(d: int) -> u8 {
    (48 + d) as u8
}

/// `10^k` for the small exponents that 16-bit coordinates need.
pub open spec fn pow10(k: nat) -> nat
    decreases k,
{
    if k == 0 {
        1
    } else {
        10 * pow10((k - 1) as nat)
    }
}

/// The `k`-th decimal digit of `n` (counted from the least significant one), as ASCII.
pub open spec fn digit_at(n: nat, k: nat) -> u8 {
    digit_char(((n / pow10(k)) % 10) as int)
}

/// Decimal representation of `n` without leading zeroes ("0" for zero), as ASCII bytes.
pub open spec fn decimal(n: nat) -> Seq<u8>
    decreases n,
{
    if n < 10 {
        seq![digit_char(n as int)]
    } else {
        decimal(n / 10).push(digit_char((n % 10) as int))
    }
}

/// The last `width` decimal digits of `n`, zero-padded on the left, as ASCII bytes.
pub open spec fn padded_decimal(n: nat, width: nat) -> Seq<u8> {
    Seq::new(width, |i: int| digit_at(n, (width - 1 - i) as nat))
}

/// Number of decimal digits of `n` (at least one).
pub open spec fn decimal_len(n: nat) -> nat
    decreases n,
{
    if n < 10 {
        1
    } else {
        1 + decimal_len(n / 10)
    }
}

/// Byte `i` (`0 <= i < 4`, least significant first) of `n`.
pub open spec fn le_byte(n: u32, i: int) -> int {
    if i == 0 {
        n as int % 256
    } else if i == 1 {
        (n as int / 256) % 256
    } else if i == 2 {
        (n as int / 65536) % 256
    } else {
        (n as int / 16777216) % 256
    }
}

/// The first `nbytes` bytes of `n` (least significant first) in lower-case hex, each byte
/// written low nibble first.
pub open spec fn hex_low_nibble_first(n: u32, nbytes: nat) -> Seq<u8> {
    Seq::new(
        2 * nbytes,
        |j: int|
            if j % 2 == 0 {
                hex_lower(le_byte(n, j / 2) % 16)
            } else {
                hex_lower(le_byte(n, j / 2) / 16)
            },
    )
}

/// The four bytes of `n` (least significant first) in lower-case hex, each byte written
/// high nibble first.
pub open spec fn hex_high_nibble_first(n: u32) -> Seq<u8> {
    Seq::new(
        8,
        |j: int|
            if j % 2 == 0 {
                hex_lower(le_byte(n, j / 2) / 16)
            } else {
                hex_lower(le_byte(n, j / 2) % 16)
            },
    )
}

/// Lower-case hexadecimal digit for the nibble `v` (`v < 16`).
pub open spec fn hex_lower(v: int) -> u8 {
    if v < 10 {
        (48 + v) as u8
    } else {
        (87 + v) as u8
    }
}

/// The value that the lower-case hexadecimal digit `c` stands for (`'0'..'9'`, `'a'..'f'`);
/// `-1` for any other byte.
pub open spec fn lower_hex_value(c: u8) -> int {
    if 48 <= c <= 57 {
        c - 48
    } else if 97 <= c <= 102 {
        c - 87
    } else {
        -1
    }
}

/// Hex text reads back to the number: every byte of `hex_low_nibble_first(n, k)` is a
/// lower-case hex digit (`'0'..'9'` or `'a'..'f'`), and byte `j` stands for hex digit `j` of
/// `n` counted from the least significant one, `(n / 16^j) % 16`.
pub proof fn law_hex_low_nibble_first_reads_back(n: u32, k: nat, j: int)
    requires
        k <= 4,
        0 <= j < 2 * k,
    ensures
        hex_low_nibble_first(n, k).len() == 2 * k,
        48 <= hex_low_nibble_first(n, k)[j] <= 57 || 97 <= hex_low_nibble_first(n, k)[j] <= 102,
        lower_hex_value(hex_low_nibble_first(n, k)[j]) == (n as int / vstd::arithmetic::power::pow(
            16,
            j as nat,
        )) % 16,
{
    lemma_nibble(n, j);
}

/// Hex text reads back to the number: every byte of `hex_high_nibble_first(n)` is a
/// lower-case hex digit, and each pair of bytes `2i, 2i + 1` stands for byte `i` of `n`
/// (least significant first), its high hex digit first: byte `j` is hex digit `j + 1` of `n`
/// for even `j`, hex digit `j - 1` for odd `j`.
pub proof fn law_hex_high_nibble_first_reads_back(n: u32, j: int)
    requires
        0 <= j < 8,
    ensures
        hex_high_nibble_first(n).len() == 8,
        48 <= hex_high_nibble_first(n)[j] <= 57 || 97 <= hex_high_nibble_first(n)[j] <= 102,
        lower_hex_value(hex_high_nibble_first(n)[j]) == (n as int / vstd::arithmetic::power::pow(
            16,
            (if j % 2 == 0 {
                j + 1
            } else {
                j - 1
            }) as nat,
        )) % 16,
{
    if j % 2 == 0 {
        lemma_nibble(n, j + 1);
    } else {
        lemma_nibble(n, j - 1);
    }
}

/// Hex digit `j` of `n` is the low (even `j`) or high (odd `j`) half of byte `j / 2`.
proof fn lemma_nibble(n: u32, j: int)
    requires
        0 <= j < 8,
    ensures
        (n as int / vstd::arithmetic::power::pow(16, j as nat)) % 16 == (if j % 2 == 0 {
            le_byte(n, j / 2) % 16
        } else {
            le_byte(n, j / 2) / 16
        }),
{
    reveal_with_fuel(vstd::arithmetic::power::pow, 9);
    let p = vstd::arithmetic::power::pow(16, j as nat);
    if j == 0 {
        assert(p == 1);
        assert(n % 256 % 16 == n % 16) by (bit_vector);
    } else if j == 1 {
        assert(p == 16);
        assert(n % 256 / 16 == (n / 16) % 16) by (bit_vector);
    } else if j == 2 {
        assert(p == 256);
        assert((n / 256) % 256 % 16 == (n / 256) % 16) by (bit_vector);
    } else if j == 3 {
        assert(p == 4096);
        assert((n / 256) % 256 / 16 == (n / 4096) % 16) by (bit_vector);
    } else if j == 4 {
        assert(p == 65536);
        assert((n / 65536) % 256 % 16 == (n / 65536) % 16) by (bit_vector);
    } else if j == 5 {
        assert(p == 1048576);
        assert((n / 65536) % 256 / 16 == (n / 1048576) % 16) by (bit_vector);
    } else if j == 6 {
        assert(p == 16777216);
        assert((n / 16777216) % 256 % 16 == (n / 16777216) % 16) by (bit_vector);
    } else {
        assert(p == 268435456);
        assert((n / 16777216) % 256 / 16 == (n / 268435456) % 16) by (bit_vector);
    }
}

/// The value of the decimal text `s` (ASCII digits, most significant first).
pub open spec fn decimal_value(s: Seq<u8>) -> int
    decreases s.len(),
{
    if s.len() == 0 {
        0
    } else {
        10 * decimal_value(s.drop_last()) + (s.last() - 48)
    }
}

/// Decimal text reads back to the number: `decimal(n)` is made of ASCII digits, has no
/// leading zero (it is `"0"` for zero), and its value is `n`.
pub proof fn law_decimal_reads_back(n: nat)
    ensures
        decimal(n).len() >= 1,
        decimal(n).len() == decimal_len(n),
        forall|i: int| 0 <= i < decimal(n).len() ==> 48 <= #[trigger] decimal(n)[i] <= 57,
        decimal(n).len() > 1 ==> decimal(n)[0] != 48u8,
        decimal(n) == seq![48u8] <==> n == 0,
        decimal_value(decimal(n)) == n,
    decreases n,
{
    lemma_decimal_digits(n);
    if n >= 10 {
        law_decimal_reads_back(n / 10);
        let d = decimal(n);
        assert(d.drop_last() =~= decimal(n / 10));
        assert(d[0] == decimal(n / 10)[0]);
        assert forall|i: int| 0 <= i < d.len() implies 48 <= #[trigger] d[i] <= 57 by {
            if i < d.len() - 1 {
                assert(d[i] == decimal(n / 10)[i]);
            }
        }
        if decimal(n / 10).len() == 1 {
            assert(decimal(n / 10) =~= seq![decimal(n / 10)[0]]);
            assert(n / 10 != 0);
            assert(decimal(n / 10)[0] != 48u8);
        }
        assert(d.len() > 1);
        assert(d != seq![48u8]);
        assert(d.last() == 48 + n % 10);
        assert(decimal_value(d) == 10 * decimal_value(decimal(n / 10)) + (d.last() - 48));
        assert(n == 10 * (n / 10) + n % 10);
    } else {
        let d = decimal(n);
        assert(d.drop_last() =~= Seq::<u8>::empty());
        assert(decimal_value(d.drop_last()) == 0);
        assert(decimal_value(d) == 10 * decimal_value(d.drop_last()) + (d.last() - 48));
        if n != 0 {
            assert(d[0] != 48u8);
        }
    }
}

/// Zero-padded decimal text reads back to the number: `padded_decimal(n, 5)` (for
/// `n < 100000`) is five ASCII digits whose value is `n`, and it ends with `decimal(n)`.
#[verifier::spinoff_prover]
#[verifier::rlimit(60)]
pub proof fn law_padded_decimal_reads_back(n: nat)
    requires
        n < 100000,
    ensures
        padded_decimal(n, 5).len() == 5,
        forall|i: int| 0 <= i < 5 ==> 48 <= #[trigger] padded_decimal(n, 5)[i] <= 57,
        decimal_value(padded_decimal(n, 5)) == n,
        padded_decimal(n, 5).subrange(5 - decimal(n).len(), 5) == decimal(n),
{
    lemma_pow10_values();
    lemma_decimal_small(n);
    let p = padded_decimal(n, 5);
    assert(p.drop_last().drop_last().drop_last().drop_last().drop_last() =~= Seq::<u8>::empty());
    assert(p[0] == 48 + (n / 10000) % 10);
    assert(p[1] == 48 + (n / 1000) % 10);
    assert(p[2] == 48 + (n / 100) % 10);
    assert(p[3] == 48 + (n / 10) % 10);
    assert(p[4] == 48 + n % 10);
    let q1 = p.drop_last();
    let q2 = q1.drop_last();
    let q3 = q2.drop_last();
    let q4 = q3.drop_last();
    assert(decimal_value(q4) == 10 * decimal_value(q4.drop_last()) + (q4.last() - 48));
    assert(decimal_value(q3) == 10 * decimal_value(q3.drop_last()) + (q3.last() - 48));
    assert(decimal_value(q2) == 10 * decimal_value(q2.drop_last()) + (q2.last() - 48));
    assert(decimal_value(q1) == 10 * decimal_value(q1.drop_last()) + (q1.last() - 48));
    assert(decimal_value(p) == 10 * decimal_value(p.drop_last()) + (p.last() - 48));
    assert(n / 10000 < 10);
    assert(decimal_value(p) == 10000 * (n / 10000) + 1000 * ((n / 1000) % 10) + 100 * ((n / 100)
        % 10) + 10 * ((n / 10) % 10) + n % 10);
}

/// The value of the upper-case hexadecimal digit `c` (`'0'..'9'`, `'A'..'F'`); `-1` for any
/// other byte.
pub open spec fn upper_hex_value(c: u8) -> int {
    if 48 <= c <= 57 {
        c - 48
    } else if 65 <= c <= 70 {
        c - 55
    } else {
        -1
    }
}

/// The hex digits read back: `hex_upper(v)` is `'0'..'9'` or `'A'..'F'` and stands for `v`,
/// `hex_lower(v)` is `'0'..'9'` or `'a'..'f'` and stands for `v`.
pub proof fn law_hex_digits_read_back(v: int)
    requires
        0 <= v < 16,
    ensures
        48 <= hex_upper(v) <= 57 || 65 <= hex_upper(v) <= 70,
        upper_hex_value(hex_upper(v)) == v,
        48 <= hex_lower(v) <= 57 || 97 <= hex_lower(v) <= 102,
        lower_hex_value(hex_lower(v)) == v,
{
}

/// Upper-case hexadecimal digit for the nibble `v` (`v < 16`).
pub open spec fn hex_upper(v: int) -> u8 {
    if v < 10 {
        (48 + v) as u8
    } else {
        (55 + v) as u8
    }
}

pub proof fn lemma_pow10_values()
    ensures
        pow10(0) == 1,
        pow10(1) == 10,
        pow10(2) == 100,
        pow10(3) == 1000,
        pow10(4) == 10000,
{
    reveal_with_fuel(pow10, 5);
}

pub proof fn lemma_pow10_positive(k: nat)
    ensures
        pow10(k) >= 1,
    decreases k,
{
    if k > 0 {
        lemma_pow10_positive((k - 1) as nat);
    }
}

/// The `i`-th character of the decimal representation of `n` is the digit of `n` at
/// position `decimal_len(n) - 1 - i`, and `n` has exactly `decimal_len(n)` digits.
pub proof fn lemma_decimal_digits(n: nat)
    ensures
        decimal(n).len() == decimal_len(n),
        decimal_len(n) >= 1,
        n < pow10(decimal_len(n)),
        decimal_len(n) > 1 ==> n >= pow10((decimal_len(n) - 1) as nat),
        forall|i: int|
            0 <= i < decimal_len(n) ==> #[trigger] decimal(n)[i] == digit_at(
                n,
                (decimal_len(n) - 1 - i) as nat,
            ),
    decreases n,
{
    reveal_with_fuel(pow10, 2);
    if n >= 10 {
        let m = n / 10;
        lemma_decimal_digits(m);
        let lm = decimal_len(m);
        assert forall|i: int| 0 <= i < decimal_len(n) implies #[trigger] decimal(n)[i] == digit_at(
            n,
            (decimal_len(n) - 1 - i) as nat,
        ) by {
            if i < lm {
                let k = (lm - 1 - i) as nat;
                lemma_pow10_positive(k);
                vstd::arithmetic::div_mod::lemma_div_denominator(n as int, 10, pow10(k) as int);
                assert(pow10(k + 1) == 10 * pow10(k));
                assert(decimal(n)[i] == decimal(m)[i]);
            } else {
                assert(pow10(0) == 1);
                assert(n / 1 == n);
            }
        }
        lemma_pow10_positive((lm - 1) as nat);
        assert(pow10(lm + 1) == 10 * pow10(lm));
        assert(pow10(lm) == 10 * pow10((lm - 1) as nat)) by {
            if lm == 0 {
            } else {
                assert(pow10(lm) == 10 * pow10((lm - 1) as nat));
            }
        }
    } else {
        assert(pow10(0) == 1);
                assert(n / 1 == n);
    }
}

/// For numbers of at most five digits, the decimal representation is the zero-padded one
/// with the leading zeroes removed.
pub proof fn lemma_decimal_small(n: nat)
    requires
        n < 100000,
    ensures
        1 <= decimal_len(n) <= 5,
        decimal(n).len() == decimal_len(n),
        decimal(n) == padded_decimal(n, 5).subrange(5 - decimal_len(n), 5),
        n < 10 <==> decimal_len(n) == 1,
        10 <= n < 100 <==> decimal_len(n) == 2,
        100 <= n < 1000 <==> decimal_len(n) == 3,
        1000 <= n < 10000 <==> decimal_len(n) == 4,
        10000 <= n <==> decimal_len(n) == 5,
{
    lemma_pow10_values();
    lemma_decimal_digits(n);
    let l = decimal_len(n);
    reveal_with_fuel(pow10, 7);
    assert(l <= 5) by {
        if l > 5 {
            lemma_pow10_monotone(5, (l - 1) as nat);
        }
    }
    let p = padded_decimal(n, 5);
    assert(decimal(n) =~= p.subrange(5 - l, 5));
}

pub proof fn lemma_pow10_monotone(a: nat, b: nat)
    requires
        a <= b,
    ensures
        pow10(a) <= pow10(b),
    decreases b,
{
    if a < b {
        lemma_pow10_monotone(a, (b - 1) as nat);
        lemma_pow10_positive((b - 1) as nat);
    }
}

/// `s` with the bytes from position `at` on replaced by `t` (`at + t.len() <= s.len()`).
pub open spec fn overwrite(s: Seq<u8>, at: int, t: Seq<u8>) -> Seq<u8> {
    s.subrange(0, at) + t + s.subrange(at + t.len(), s.len() as int)
}

pub proof fn lemma_overwrite_twice(s: Seq<u8>, at: int, t1: Seq<u8>, t2: Seq<u8>)
    requires
        0 <= at,
        at + t1.len() + t2.len() <= s.len(),
    ensures
        overwrite(overwrite(s, at, t1), at + t1.len(), t2) == overwrite(s, at, t1 + t2),
        overwrite(s, at, t1).len() == s.len(),
{
    assert(overwrite(overwrite(s, at, t1), at + t1.len(), t2) =~= overwrite(s, at, t1 + t2));
}

/// ASCII code of the lower-case hex digit for the nibble `v`.
pub fn hex_lower_digit(v: u8) -> (c: u8)
    requires
        v < 16,
    ensures
        c == hex_lower(v as int),
{
    if v < 10 {
        v + 48
    } else {
        v + 87
    }
}

/// ASCII code of the upper-case hex digit for the nibble `v`.
pub fn hex_upper_digit(v: u8) -> (c: u8)
    requires
        v < 16,
    ensures
        c == hex_upper(v as int),
{
    if v < 10 {
        v + 48
    } else {
        v + 55
    }
}

/// The bytes of `n`, least significant first.
pub fn le_bytes(n: u32) -> (r: [u8; 4])
    ensures
        forall|i: int| 0 <= i < 4 ==> r@[i] as int == #[trigger] le_byte(n, i),
{
    [(n % 256) as u8, ((n / 256) % 256) as u8, ((n / 65536) % 256) as u8, ((n / 16777216) % 256) as u8]
}

/// Copies the first `n` bytes of `src` into `out` at position `at`.
pub fn put_bytes(out: &mut [u8], at: usize, src: &[u8], n: usize)
    requires
        n <= src@.len(),
        at + n <= old(out)@.len(),
    ensures
        final(out)@ == overwrite(old(out)@, at as int, src@.subrange(0, n as int)),
{
    let total = out.len();
    let mut i: usize = 0;
    while i < n
        invariant
            i <= n,
            n <= src@.len(),
            at + n <= old(out)@.len(),
            out@.len() == old(out)@.len(),
            total == out@.len(),
            out@ == overwrite(old(out)@, at as int, src@.subrange(0, i as int)),
        decreases n - i,
    {
        out[at + i] = src[i];
        i = i + 1;
        assert(out@ =~= overwrite(old(out)@, at as int, src@.subrange(0, i as int)));
    }
}

} // verus!
