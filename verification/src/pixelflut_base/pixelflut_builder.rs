use crate::ascii::{overwrite, put_bytes};
use crate::pixelflut_gstreamer::encoding_helpers::{
    lemma_px_rgb_command_len, px_rgb_command, write_px_rgba,
};
use crate::pixelflut_gstreamer::encoding_ng::Coord;
use vstd::prelude::*;

verus! {

// RGBA_LE32
pub struct Color {
    pub r: u8,
    pub g: u8,
    pub b: u8,
    pub a: u8,
}

impl Color {
    /// The color as a little-endian 32-bit value (`r` in the lowest byte).
    pub open spec fn value(self) -> u32 {
        (self.r as int + 256 * self.g as int + 65536 * self.b as int + 16777216 * self.a as int) as u32
    }
}

/// Appends Pixelflut commands to a byte buffer.
pub struct PixelflutBuilder<'a> {
    data_slice: &'a mut [u8],
    head_ptr: usize,
}

/// Length of the longest PX command: `b"PX 65336 65336 RRGGBBAA\r\n".len()`.
pub const PX_MAX_LENGTH: usize = 25;

impl<'a> PixelflutBuilder<'a> {
    /// The whole buffer.
    pub closed spec fn data(&self) -> Seq<u8> {
        self.data_slice@
    }

    /// Number of bytes written so far, from the start of the buffer.
    pub closed spec fn head(&self) -> nat {
        self.head_ptr as nat
    }

    pub open spec fn wf(&self) -> bool {
        &&& self.head() <= self.data().len()
        &&& self.data().len() <= usize::MAX
    }

    /// The bytes written so far.
    pub open spec fn written(&self) -> Seq<u8> {
        self.data().subrange(0, self.head() as int)
    }

    /// Writing a command at the head keeps what was written before: the written bytes become
    /// the previous ones followed by the command (this is what `cmd_px` does).
    pub proof fn law_written_is_appended(before: Self, after: Self, cmd: Seq<u8>)
        requires
            before.wf(),
            before.head() + cmd.len() <= before.data().len(),
            after.data() == overwrite(before.data(), before.head() as int, cmd),
            after.head() == before.head() + cmd.len(),
        ensures
            after.written() == before.written() + cmd,
            after.data().len() == before.data().len(),
    {
        assert(after.written() =~= before.written() + cmd);
    }

    /// Appends the PX command of `write_px_rgba` for the pixel `(x, y)`.
    pub fn cmd_px(&mut self, x: Coord, y: Coord, color: Color)
        requires
            old(self).wf(),
            old(self).head() + px_rgb_command(x, y, color.value()).len() <= old(self).data().len(),
        ensures
            final(self).wf(),
            final(self).data() == overwrite(
                old(self).data(),
                old(self).head() as int,
                px_rgb_command(x, y, color.value()),
            ),
            final(self).head() == old(self).head() + px_rgb_command(x, y, color.value()).len(),
            final(self).written() == old(self).written() + px_rgb_command(x, y, color.value()),
    {
        let ghost before = *self;
        let value: u32 = color.r as u32 + 256 * color.g as u32 + 65536 * color.b as u32 + 16777216
            * color.a as u32;
        let len = write_px_rgba(self.data_slice, self.head_ptr, x, y, value);
        self.add_length(len);
        proof {
            Self::law_written_is_appended(before, *self, px_rgb_command(x, y, color.value()));
        }
    }

    /// Appends the binary PB command: `"PB"`, `x` and `y` in little endian, then the color
    /// bytes `r, g, b, a`.
    pub fn cmd_pxb(&mut self, x: Coord, y: Coord, color: Color)
        requires
            old(self).wf(),
            old(self).data().len() - old(self).head() >= PX_MAX_LENGTH,
        ensures
            final(self).wf(),
            final(self).data() == overwrite(
                old(self).data(),
                old(self).head() as int,
                seq![
                    80u8,
                    66u8,
                    (x % 256) as u8,
                    (x / 256) as u8,
                    (y % 256) as u8,
                    (y / 256) as u8,
                    color.r,
                    color.g,
                    color.b,
                    color.a,
                ],
            ),
            final(self).head() == old(self).head() + 10,
            final(self).written() == old(self).written() + seq![
                80u8,
                66u8,
                (x % 256) as u8,
                (x / 256) as u8,
                (y % 256) as u8,
                (y / 256) as u8,
                color.r,
                color.g,
                color.b,
                color.a,
            ],
    {
        let ghost before = *self;
        let pb: [u8; 2] = [80, 66];
        let xb: [u8; 2] = [(x % 256) as u8, (x / 256) as u8];
        let yb: [u8; 2] = [(y % 256) as u8, (y / 256) as u8];
        let cb: [u8; 4] = [color.r, color.g, color.b, color.a];
        let ghost d0 = self.data();
        let ghost h0 = self.head() as int;
        self.add_slice(pb.as_slice());
        self.add_slice(xb.as_slice());
        self.add_slice(yb.as_slice());
        self.add_slice(cb.as_slice());
        proof {
            crate::ascii::lemma_overwrite_twice(d0, h0, pb@, xb@);
            crate::ascii::lemma_overwrite_twice(d0, h0, pb@ + xb@, yb@);
            crate::ascii::lemma_overwrite_twice(d0, h0, pb@ + xb@ + yb@, cb@);
        }
        assert(pb@ + xb@ + yb@ + cb@ =~= seq![
            80u8,
            66u8,
            (x % 256) as u8,
            (x / 256) as u8,
            (y % 256) as u8,
            (y / 256) as u8,
            color.r,
            color.g,
            color.b,
            color.a,
        ]);
        proof {
            Self::law_written_is_appended(before, *self, pb@ + xb@ + yb@ + cb@);
        }
    }

    /// A builder that writes into `data_slice`, which must have room for `max_px_count`
    /// PX commands.
    pub fn with_capacity(data_slice: &'a mut [u8], max_px_count: usize) -> (r: Self)
        requires
            max_px_count * PX_MAX_LENGTH <= usize::MAX,
            old(data_slice)@.len() >= max_px_count * PX_MAX_LENGTH,
        ensures
            r.wf(),
            r.head() == 0,
            r.data() == old(data_slice)@,
    {
        let n = data_slice.len();
        PixelflutBuilder { data_slice, head_ptr: 0 }
    }

    /// A builder with room for the PX commands of an `x` by `y` image.
    pub fn with_xy_capacity(data_slice: &'a mut [u8], x: Coord, y: Coord) -> (r: Self)
        requires
            x * y * PX_MAX_LENGTH <= usize::MAX,
            old(data_slice)@.len() >= x * y * PX_MAX_LENGTH,
        ensures
            r.wf(),
            r.head() == 0,
            r.data() == old(data_slice)@,
    {
        assert(x * y <= 65535 * 65535) by (nonlinear_arith)
            requires
                x <= 65535,
                y <= 65535,
        ;
        PixelflutBuilder::with_capacity(data_slice, (x as usize) * (y as usize))
    }

    /// The buffer size for the PX commands of an `x` by `y` image, plus one command.
    pub fn required_size(x: Coord, y: Coord) -> (r: usize)
        requires
            x * y * PX_MAX_LENGTH + PX_MAX_LENGTH <= usize::MAX,
        ensures
            r == x * y * PX_MAX_LENGTH + PX_MAX_LENGTH,
    {
        assert(x * y <= x * y * PX_MAX_LENGTH) by (nonlinear_arith);
        (x as usize) * (y as usize) * PX_MAX_LENGTH + PX_MAX_LENGTH
    }

    /// Whether `n_pixels` more PX commands fit.
    pub fn check_capacity(&self, n_pixels: usize) -> (r: bool)
        requires
            self.wf(),
            PX_MAX_LENGTH * n_pixels <= usize::MAX,
        ensures
            r == (self.data().len() - self.head() >= PX_MAX_LENGTH * n_pixels),
    {
        self.data_slice.len() - self.head_ptr >= PX_MAX_LENGTH * n_pixels
    }

    /// The bytes written so far.
    pub fn as_slice(&self) -> (r: &[u8])
        requires
            self.wf(),
        ensures
            r@ == self.written(),
    {
        vstd::slice::slice_subrange(self.data_slice, 0, self.head_ptr)
    }

    /// Room for `k` more PX commands is room for the next one, and after it (whatever pixel it
    /// draws) for `k - 1` more: every command is at most `PX_MAX_LENGTH` bytes. So a builder
    /// made with room for `n` commands (as `with_capacity(_, n)` or `with_xy_capacity` make
    /// it) takes `n` calls of `cmd_px`.
    pub proof fn law_room_for_each_command(before: Self, after: Self, k: nat, x: Coord, y: Coord, color: Color)
        requires
            before.wf(),
            k >= 1,
            before.data().len() - before.head() >= PX_MAX_LENGTH * k,
            after.data() == overwrite(before.data(), before.head() as int, px_rgb_command(x, y, color.value())),
            after.head() == before.head() + px_rgb_command(x, y, color.value()).len(),
        ensures
            before.head() + px_rgb_command(x, y, color.value()).len() <= before.data().len(),
            after.data().len() - after.head() >= PX_MAX_LENGTH * (k - 1),
    {
        lemma_px_rgb_command_len(x, y, color.value());
    }

    /// The capacity test is monotone: room for `n` commands is room for any `m <= n`.
    pub proof fn law_capacity_monotone(b: Self, n: nat, m: nat)
        requires
            b.wf(),
            m <= n,
            b.data().len() - b.head() >= PX_MAX_LENGTH * n,
        ensures
            b.data().len() - b.head() >= PX_MAX_LENGTH * m,
    {
    }

    fn add_slice(&mut self, append_me: &[u8])
        requires
            old(self).wf(),
            old(self).head() + append_me@.len() <= old(self).data().len(),
        ensures
            final(self).wf(),
            final(self).data() == overwrite(old(self).data(), old(self).head() as int, append_me@),
            final(self).head() == old(self).head() + append_me@.len(),
    {
        put_bytes(self.data_slice, self.head_ptr, append_me, append_me.len());
        assert(append_me@.subrange(0, append_me@.len() as int) =~= append_me@);
        self.head_ptr = self.head_ptr + append_me.len();
    }

    fn add_length(&mut self, length: usize)
        requires
            old(self).wf(),
            old(self).head() + length <= old(self).data().len(),
        ensures
            final(self).wf(),
            final(self).data() == old(self).data(),
            final(self).head() == old(self).head() + length,
    {
        self.head_ptr = self.head_ptr + length;
    }
}

} // verus!
