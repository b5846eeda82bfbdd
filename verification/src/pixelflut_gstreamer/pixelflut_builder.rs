use crate::ascii::{
    law_hex_digits_read_back, upper_hex_value, decimal, decimal_len, digit_at, hex_upper, hex_upper_digit, lemma_decimal_digits,
    lemma_decimal_small, lemma_overwrite_twice, overwrite, pow10, put_bytes,
};
use crate::pixelflut_gstreamer::encoding_ng::Coord;
use arrayvec::ArrayVec;
use vstd::prelude::*;

verus! {

// RGBA_LE32
pub struct Color {
    pub r: u8,
    pub g: u8,
    pub b: u8,
    pub a: u8,
}

#[verifier::external_type_specification]
#[verifier::external_body]
#[verifier::reject_recursive_types(T)]
pub struct ExArrayVec<T, const CAP: usize>(ArrayVec<T, CAP>);

/// The elements of a five-byte `ArrayVec`, in order.
pub uninterp spec fn digit_buffer(v: ArrayVec<u8, 5>) -> Seq<u8>;

/// `ArrayVec::new`: an empty vector.
#[verifier::external_body]
fn digit_buffer_new() -> (r: ArrayVec<u8, 5>)
    ensures
        digit_buffer(r) == Seq::<u8>::empty(),
{
    ArrayVec::new()
}

/// `ArrayVec::push`: appends `b`; it panics when the vector is full, which `requires` rules out.
#[verifier::external_body]
fn digit_buffer_push(v: &mut ArrayVec<u8, 5>, b: u8)
    requires
        digit_buffer(*old(v)).len() < 5,
    ensures
        digit_buffer(*final(v)) == digit_buffer(*old(v)).push(b),
{
    v.push(b)
}

/// `<[u8]>::reverse` through `ArrayVec`'s `DerefMut`: reverses the elements in place.
#[verifier::external_body]
fn digit_buffer_reverse(v: &mut ArrayVec<u8, 5>)
    ensures
        digit_buffer(*final(v)) == digit_buffer(*old(v)).reverse(),
{
    v.reverse()
}

/// `ArrayVec::as_slice`: the elements as a slice.
#[verifier::external_body]
fn digit_buffer_as_slice(v: &ArrayVec<u8, 5>) -> (r: &[u8])
    ensures
        r@ == digit_buffer(*v),
{
    v.as_slice()
}

/// Two upper-case hex digits for `digit`, the most significant first.
pub fn hex2(digit: u8) -> (r: [u8; 2])
    ensures
        r@ == seq![hex_upper((digit / 16) as int), hex_upper((digit % 16) as int)],
{
    let dhi = hex_upper_digit(digit / 16);
    let dlo = hex_upper_digit(digit % 16);
    let r = [dhi, dlo];
    assert(r@ =~= seq![hex_upper((digit / 16) as int), hex_upper((digit % 16) as int)]);
    r
}

/// The decimal digits of `c` (without leading zeroes), collected in an `ArrayVec`.
pub fn itoa_coord(c: u16) -> (r: ArrayVec<u8, 5>)
    ensures
        digit_buffer(r) == decimal(c as nat),
{
    let ghost n = c as nat;
    proof {
        lemma_decimal_digits(n);
        lemma_decimal_small(n);
        crate::ascii::lemma_pow10_values();
    }
    let mut c = c;
    let mut r = digit_buffer_new();
    let mut k: usize = 0;
    // Max 5 digits
    while k < 5
        invariant_except_break
            k < decimal_len(n),
            c as nat == n / pow10(k as nat),
            digit_buffer(r).len() == k,
            forall|i: int| 0 <= i < k ==> #[trigger] digit_buffer(r)[i] == digit_at(n, i as nat),
        invariant
            k <= 5,
            n < 100000,
            decimal_len(n) <= 5,
            n < pow10(decimal_len(n)),
            decimal_len(n) > 1 ==> n >= pow10((decimal_len(n) - 1) as nat),
        ensures
            k + 1 == decimal_len(n),
            digit_buffer(r).len() == decimal_len(n),
            forall|i: int|
                0 <= i < decimal_len(n) ==> #[trigger] digit_buffer(r)[i] == digit_at(n, i as nat),
        decreases 5 - k,
    {
        let digit = (c % 10) as u8;
        let ghost before = digit_buffer(r);
        digit_buffer_push(&mut r, digit + 48);
        proof {
            crate::ascii::lemma_pow10_positive(k as nat);
            vstd::arithmetic::div_mod::lemma_div_denominator(n as int, pow10(k as nat) as int, 10);
            assert(pow10((k + 1) as nat) == pow10(k as nat) * 10);
            assert(digit_buffer(r)[k as int] == digit_at(n, k as nat));
        }
        c = c / 10;
        if c == 0 {
            proof {
                if k + 1 < decimal_len(n) {
                    crate::ascii::lemma_pow10_monotone((k + 1) as nat, (decimal_len(n) - 1) as nat);
                    assert(n / pow10((k + 1) as nat) >= 1) by {
                        vstd::arithmetic::div_mod::lemma_div_is_ordered(
                            pow10((k + 1) as nat) as int,
                            n as int,
                            pow10((k + 1) as nat) as int,
                        );
                        vstd::arithmetic::div_mod::lemma_div_by_self(pow10((k + 1) as nat) as int);
                    }
                }
            }
            break;
        }
        proof {
            if k + 1 >= decimal_len(n) {
                vstd::arithmetic::div_mod::lemma_div_is_ordered_by_denominator(
                    n as int,
                    pow10(decimal_len(n)) as int,
                    pow10((k + 1) as nat) as int,
                );
                crate::ascii::lemma_pow10_monotone(decimal_len(n), (k + 1) as nat);
                vstd::arithmetic::div_mod::lemma_basic_div(n as int, pow10(decimal_len(n)) as int);
            }
        }
        k = k + 1;
    }
    digit_buffer_reverse(&mut r);
    assert(digit_buffer(r) =~= decimal(n));
    r
}

/// Length of the longest PX command: `b"PX 65336 65336 RRGGBBAA\r\n".len()`.
pub const PX_MAX_LENGTH: usize = 25;

/// Appends Pixelflut commands to a byte buffer.
pub struct PixelflutBuilder<'a> {
    data_slice: &'a mut [u8],
    head_ptr: usize,
}

/// `"PX {x} {y} {rr}{gg}{bb}{aa}\\r\\n"` in decimal and upper-case hex.
pub open spec fn px_command(x: Coord, y: Coord, color: Color) -> Seq<u8> {
    seq![80u8, 88u8, 32u8] + decimal(x as nat) + seq![32u8] + decimal(y as nat) + seq![32u8] + seq![
        hex_upper((color.r / 16) as int),
        hex_upper((color.r % 16) as int),
        hex_upper((color.g / 16) as int),
        hex_upper((color.g % 16) as int),
        hex_upper((color.b / 16) as int),
        hex_upper((color.b % 16) as int),
        hex_upper((color.a / 16) as int),
        hex_upper((color.a % 16) as int),
    ] + seq![13u8, 10u8]
}

/// The PX command reads back to its pixel: `"PX "`, `x` and `y` in decimal separated by a
/// space, a space, eight upper-case hex digits that stand for the red, green, blue and alpha
/// bytes in this order (each high digit first), `"\r\n"`.
pub proof fn law_px_command_reads_back(x: Coord, y: Coord, color: Color, i: int)
    requires
        0 <= i < 4,
    ensures
        ({
            let cmd = px_command(x, y, color);
            let lx = decimal(x as nat).len() as int;
            let ly = decimal(y as nat).len() as int;
            let h = 5 + lx + ly;
            let byte = if i == 0 {
                color.r
            } else if i == 1 {
                color.g
            } else if i == 2 {
                color.b
            } else {
                color.a
            };
            &&& cmd.len() == h + 10
            &&& cmd[0] == 80u8 && cmd[1] == 88u8 && cmd[2] == 32u8
            &&& cmd.subrange(3, 3 + lx) == decimal(x as nat)
            &&& cmd[3 + lx] == 32u8
            &&& cmd.subrange(4 + lx, 4 + lx + ly) == decimal(y as nat)
            &&& cmd[4 + lx + ly] == 32u8
            &&& 48 <= cmd[h + 2 * i] <= 57 || 65 <= cmd[h + 2 * i] <= 70
            &&& 48 <= cmd[h + 2 * i + 1] <= 57 || 65 <= cmd[h + 2 * i + 1] <= 70
            &&& 16 * upper_hex_value(cmd[h + 2 * i]) + upper_hex_value(cmd[h + 2 * i + 1]) == byte
            &&& cmd[h + 8] == 13u8 && cmd[h + 9] == 10u8
        }),
{
    let cmd = px_command(x, y, color);
    let lx = decimal(x as nat).len() as int;
    let ly = decimal(y as nat).len() as int;
    let byte = if i == 0 {
        color.r
    } else if i == 1 {
        color.g
    } else if i == 2 {
        color.b
    } else {
        color.a
    };
    law_hex_digits_read_back((byte / 16) as int);
    law_hex_digits_read_back((byte % 16) as int);
    assert(cmd.subrange(3, 3 + lx) =~= decimal(x as nat));
    assert(cmd.subrange(4 + lx, 4 + lx + ly) =~= decimal(y as nat));
}

pub proof fn lemma_px_command_len(x: Coord, y: Coord, color: Color)
    ensures
        px_command(x, y, color).len() == 15 + decimal_len(x as nat) + decimal_len(y as nat),
        px_command(x, y, color).len() <= PX_MAX_LENGTH,
{
    lemma_decimal_small(x as nat);
    lemma_decimal_small(y as nat);
}

impl<'a> PixelflutBuilder<'a> {
    /// The whole buffer.
    pub closed spec fn data(&self) -> Seq<u8> {
        self.data_slice@
    }

    /// Number of bytes written so far, from the start of the buffer.
    pub closed spec fn head(&self) -> nat {
        self.head_ptr as nat
    }

    pub open spec fn wf(&self) -> bool {
        &&& self.head() <= self.data().len()
        &&& self.data().len() <= usize::MAX
    }

    /// The bytes written so far.
    pub open spec fn written(&self) -> Seq<u8> {
        self.data().subrange(0, self.head() as int)
    }

    /// Writing a command at the head keeps what was written before: the written bytes become
    /// the previous ones followed by the command (this is what `cmd_px` does).
    pub proof fn law_written_is_appended(before: Self, after: Self, cmd: Seq<u8>)
        requires
            before.wf(),
            before.head() + cmd.len() <= before.data().len(),
            after.data() == overwrite(before.data(), before.head() as int, cmd),
            after.head() == before.head() + cmd.len(),
        ensures
            after.written() == before.written() + cmd,
            after.data().len() == before.data().len(),
    {
        assert(after.written() =~= before.written() + cmd);
    }

    /// Room for `k` more PX commands is room for the next one, and after it (whatever pixel it
    /// draws) for `k - 1` more: every command is at most `PX_MAX_LENGTH` bytes. So a builder
    /// made with room for `n` commands (as `with_capacity(_, n)` or `with_xy_capacity` make
    /// it) takes `n` calls of `cmd_px`.
    pub proof fn law_room_for_each_command(before: Self, after: Self, k: nat, x: Coord, y: Coord, color: Color)
        requires
            before.wf(),
            k >= 1,
            before.data().len() - before.head() >= PX_MAX_LENGTH * k,
            after.data() == overwrite(before.data(), before.head() as int, px_command(x, y, color)),
            after.head() == before.head() + px_command(x, y, color).len(),
        ensures
            before.head() + px_command(x, y, color).len() <= before.data().len(),
            after.data().len() - after.head() >= PX_MAX_LENGTH * (k - 1),
    {
        lemma_px_command_len(x, y, color);
    }

    /// The capacity test is monotone: room for `n` commands is room for any `m <= n`.
    pub proof fn law_capacity_monotone(b: Self, n: nat, m: nat)
        requires
            b.wf(),
            m <= n,
            b.data().len() - b.head() >= PX_MAX_LENGTH * n,
        ensures
            b.data().len() - b.head() >= PX_MAX_LENGTH * m,
    {
    }

    fn add_slice(&mut self, append_me: &[u8])
        requires
            old(self).wf(),
            old(self).head() + append_me@.len() <= old(self).data().len(),
        ensures
            final(self).wf(),
            final(self).data() == overwrite(old(self).data(), old(self).head() as int, append_me@),
            final(self).head() == old(self).head() + append_me@.len(),
    {
        put_bytes(self.data_slice, self.head_ptr, append_me, append_me.len());
        assert(append_me@.subrange(0, append_me@.len() as int) =~= append_me@);
        self.head_ptr = self.head_ptr + append_me.len();
    }

    /// A builder that writes into `data_slice`, which must have room for `max_px_count`
    /// PX commands.
    pub fn with_capacity(data_slice: &'a mut [u8], max_px_count: usize) -> (r: Self)
        requires
            max_px_count * PX_MAX_LENGTH <= usize::MAX,
            old(data_slice)@.len() >= max_px_count * PX_MAX_LENGTH,
        ensures
            r.wf(),
            r.head() == 0,
            r.data() == old(data_slice)@,
    {
        let n = data_slice.len();
        PixelflutBuilder { data_slice, head_ptr: 0 }
    }

    /// A builder with room for the PX commands of an `x` by `y` image.
    pub fn with_xy_capacity(data_slice: &'a mut [u8], x: Coord, y: Coord) -> (r: Self)
        requires
            x * y * PX_MAX_LENGTH <= usize::MAX,
            old(data_slice)@.len() >= x * y * PX_MAX_LENGTH,
        ensures
            r.wf(),
            r.head() == 0,
            r.data() == old(data_slice)@,
    {
        assert(x * y <= 65535 * 65535) by (nonlinear_arith)
            requires
                x <= 65535,
                y <= 65535,
        ;
        PixelflutBuilder::with_capacity(data_slice, (x as usize) * (y as usize))
    }

    /// The buffer size for the PX commands of an `x` by `y` image.
    pub fn required_size(x: Coord, y: Coord) -> (r: usize)
        requires
            x * y * PX_MAX_LENGTH <= usize::MAX,
        ensures
            r == x * y * PX_MAX_LENGTH,
    {
        assert(x * y <= x * y * PX_MAX_LENGTH) by (nonlinear_arith);
        (x as usize) * (y as usize) * PX_MAX_LENGTH
    }

    /// Appends the PX command for the pixel `(x, y)` (see `px_command`).
    #[verifier::spinoff_prover]
    #[verifier::rlimit(40)]
    pub fn cmd_px(&mut self, x: Coord, y: Coord, color: Color)
        requires
            old(self).wf(),
            old(self).data().len() - old(self).head() >= PX_MAX_LENGTH,
        ensures
            final(self).wf(),
            final(self).data() == overwrite(
                old(self).data(),
                old(self).head() as int,
                px_command(x, y, color),
            ),
            final(self).head() == old(self).head() + px_command(x, y, color).len(),
            final(self).written() == old(self).written() + px_command(x, y, color),
    {
        let ghost before = *self;
        proof {
            lemma_px_command_len(x, y, color);
            lemma_decimal_small(x as nat);
            lemma_decimal_small(y as nat);
        }
        let ghost d0 = self.data();
        let ghost h0 = self.head() as int;
        let prefix: [u8; 3] = [80, 88, 32];
        let space: [u8; 1] = [32];
        let crlf: [u8; 2] = [13, 10];
        let xs = itoa_coord(x);
        let ys = itoa_coord(y);
        let hr = hex2(color.r);
        let hg = hex2(color.g);
        let hb = hex2(color.b);
        let ha = hex2(color.a);
        self.add_slice(prefix.as_slice());
        let ghost w = prefix@;
        self.add_slice(digit_buffer_as_slice(&xs));
        proof {
            lemma_overwrite_twice(d0, h0, w, decimal(x as nat));
            w = w + decimal(x as nat);
        }
        self.add_slice(space.as_slice());
        proof {
            lemma_overwrite_twice(d0, h0, w, space@);
            w = w + space@;
        }
        self.add_slice(digit_buffer_as_slice(&ys));
        proof {
            lemma_overwrite_twice(d0, h0, w, decimal(y as nat));
            w = w + decimal(y as nat);
        }
        self.add_slice(space.as_slice());
        proof {
            lemma_overwrite_twice(d0, h0, w, space@);
            w = w + space@;
        }
        self.add_slice(hr.as_slice());
        proof {
            lemma_overwrite_twice(d0, h0, w, hr@);
            w = w + hr@;
        }
        self.add_slice(hg.as_slice());
        proof {
            lemma_overwrite_twice(d0, h0, w, hg@);
            w = w + hg@;
        }
        self.add_slice(hb.as_slice());
        proof {
            lemma_overwrite_twice(d0, h0, w, hb@);
            w = w + hb@;
        }
        self.add_slice(ha.as_slice());
        proof {
            lemma_overwrite_twice(d0, h0, w, ha@);
            w = w + ha@;
        }
        self.add_slice(crlf.as_slice());
        proof {
            lemma_overwrite_twice(d0, h0, w, crlf@);
            w = w + crlf@;
        }
        assert(w =~= px_command(x, y, color));
        proof {
            Self::law_written_is_appended(before, *self, px_command(x, y, color));
        }
    }

    /// Whether `n_pixels` more PX commands fit.
    pub fn check_capacity(&self, n_pixels: usize) -> (r: bool)
        requires
            self.wf(),
            PX_MAX_LENGTH * n_pixels <= usize::MAX,
        ensures
            r == (self.data().len() - self.head() >= PX_MAX_LENGTH * n_pixels),
    {
        self.data_slice.len() - self.head_ptr >= PX_MAX_LENGTH * n_pixels
    }

    /// The bytes written so far.
    pub fn as_slice(&self) -> (r: &[u8])
        requires
            self.wf(),
        ensures
            r@ == self.written(),
    {
        vstd::slice::slice_subrange(self.data_slice, 0, self.head_ptr)
    }
}

} // verus!
