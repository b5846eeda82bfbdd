use crate::ascii::{decimal, lemma_overwrite_twice, overwrite, put_bytes};
use crate::pixelflut_gstreamer::encoding_ng::{
    encode_offset_command, encode_px_command_lite_rgba, lemma_offset_command_len, offset_command,
    px_command_lite_rgba, Coord,
};
use vstd::prelude::*;

verus! {

/// An image of `width` by `height` pixels, one 32-bit RGBA value per pixel.
pub struct ImageData<'a> {
    pub pixel_data: &'a [u32],
    pub width: Coord,
    pub height: Coord,
}

/// `a / b` rounded up.
pub open spec fn div_ceil(a: nat, b: nat) -> nat {
    ((a + b - 1) / (b as int)) as nat
}

/// The output buffer size that `encode_image` asks for: one OFFSET command of the longest
/// form per started 10x10 chunk, a 16-byte PX command for every pixel of the image rounded
/// up to whole chunks, and 128 bytes of slack.
pub open spec fn frame_size(width: Coord, height: Coord) -> nat {
    div_ceil(width as nat, 10) * div_ceil(height as nat, 10) * 17 + (10 * div_ceil(width as nat, 10))
        * (10 * div_ceil(height as nat, 10)) * 16 + 128
}

/// Whether `calc_pixelflut_frame_size` computes without overflow (the product of the rounded
/// dimensions must fit in a `u32`, the result in a `usize`).
pub open spec fn frame_size_fits(width: Coord, height: Coord) -> bool {
    &&& (10 * div_ceil(width as nat, 10)) * (10 * div_ceil(height as nat, 10)) <= u32::MAX
    &&& frame_size(width, height) <= usize::MAX
}

/// Rounding up a division is monotone in the dividend.
proof fn lemma_div_ceil_monotone(a1: nat, a2: nat, b: nat)
    requires
        a1 <= a2,
        b > 0,
    ensures
        div_ceil(a1, b) <= div_ceil(a2, b),
{
    vstd::arithmetic::div_mod::lemma_div_is_ordered(a1 + b - 1, a2 + b - 1, b as int);
}

/// The frame size grows with the image: a wider or taller image never needs less room.
pub proof fn law_frame_size_monotone(w1: Coord, h1: Coord, w2: Coord, h2: Coord)
    requires
        w1 <= w2,
        h1 <= h2,
    ensures
        frame_size(w1, h1) <= frame_size(w2, h2),
{
    lemma_div_ceil_monotone(w1 as nat, w2 as nat, 10);
    lemma_div_ceil_monotone(h1 as nat, h2 as nat, 10);
    let a1 = div_ceil(w1 as nat, 10);
    let a2 = div_ceil(w2 as nat, 10);
    let b1 = div_ceil(h1 as nat, 10);
    let b2 = div_ceil(h2 as nat, 10);
    assert(a1 * b1 <= a2 * b2) by (nonlinear_arith)
        requires
            a1 <= a2,
            b1 <= b2,
    ;
    assert((10 * a1) * (10 * b1) <= (10 * a2) * (10 * b2)) by (nonlinear_arith)
        requires
            a1 <= a2,
            b1 <= b2,
    ;
}

/// The output buffer size needed to encode a `width` by `height` image.
pub fn calc_pixelflut_frame_size(width: Coord, height: Coord) -> (r: usize)
    requires
        frame_size_fits(width, height),
    ensures
        r == frame_size(width, height),
{
    let width: u32 = width as u32;
    let height: u32 = height as u32;
    let wc: u32 = (width + 9) / 10;
    let hc: u32 = (height + 9) / 10;
    assert(wc * hc <= (10 * wc) * (10 * hc)) by (nonlinear_arith);
    let n_chunks: usize = (wc * hc) as usize;
    let offset_commands: usize = n_chunks * 17;
    let px_commands: usize = ((wc * 10) * (hc * 10)) as usize * 16;
    let slack: usize = 128;
    offset_commands + px_commands + slack
}

/// The PX commands for the first `j` pixels of chunk `c`: pixel `j` of a chunk is drawn at
/// `(j % 9, j / 9)` with the value `pixels[81 * c + j]`.
pub open spec fn chunk_px_commands(pixels: Seq<u32>, c: nat, j: nat) -> Seq<u8>
    decreases j,
{
    if j == 0 {
        Seq::empty()
    } else {
        let i = (j - 1) as nat;
        chunk_px_commands(pixels, c, i) + px_command_lite_rgba(
            (i % 9) as u8,
            (i / 9) as u8,
            pixels[81 * c + i as int],
        )
    }
}

/// The commands of chunk `c` (of `chunks_per_row` chunks per row): the OFFSET command with
/// the chunk's column and row, then the PX commands of its first 9x9 pixels.
pub open spec fn chunk_commands(pixels: Seq<u32>, chunks_per_row: nat, c: nat) -> Seq<u8> {
    offset_command((c % chunks_per_row) as u16, (c / chunks_per_row) as u16) + chunk_px_commands(
        pixels,
        c,
        81,
    )
}

/// The commands of the first `n` chunks.
pub open spec fn image_commands(pixels: Seq<u32>, chunks_per_row: nat, n: nat) -> Seq<u8>
    decreases n,
{
    if n == 0 {
        Seq::empty()
    } else {
        image_commands(pixels, chunks_per_row, (n - 1) as nat) + chunk_commands(
            pixels,
            chunks_per_row,
            (n - 1) as nat,
        )
    }
}

/// What `encode_image` writes for an image: the commands of its
/// `(width / 10) * (height / 10)` whole chunks, in row order.
pub open spec fn encoded_image(pixels: Seq<u32>, width: Coord, height: Coord) -> Seq<u8> {
    image_commands(pixels, (width / 10) as nat, ((width / 10) * (height / 10)) as nat)
}

proof fn lemma_chunk_px_commands_len(pixels: Seq<u32>, c: nat, j: nat)
    ensures
        chunk_px_commands(pixels, c, j).len() == 16 * j,
    decreases j,
{
    if j > 0 {
        lemma_chunk_px_commands_len(pixels, c, (j - 1) as nat);
    }
}

proof fn lemma_image_commands_len(pixels: Seq<u32>, chunks_per_row: nat, n: nat)
    ensures
        image_commands(pixels, chunks_per_row, n).len() <= n * (17 + 16 * 81),
    decreases n,
{
    if n > 0 {
        lemma_image_commands_len(pixels, chunks_per_row, (n - 1) as nat);
        lemma_chunk_px_commands_len(pixels, (n - 1) as nat, 81);
        let c = (n - 1) as nat;
        lemma_offset_command_len((c % chunks_per_row) as u16, (c / chunks_per_row) as u16);
        assert((n - 1) * (17 + 16 * 81) + (17 + 16 * 81) == n * (17 + 16 * 81)) by (nonlinear_arith);
    }
}

/// What `encode_image` writes fits in the buffer size that `calc_pixelflut_frame_size` asks for.
pub proof fn law_encoded_image_fits_frame(pixels: Seq<u32>, width: Coord, height: Coord)
    ensures
        encoded_image(pixels, width, height).len() <= frame_size(width, height),
{
    let n = ((width / 10) * (height / 10)) as nat;
    lemma_image_commands_len(pixels, (width / 10) as nat, n);
    assert(n * (17 + 16 * 81) <= frame_size(width, height)) by (nonlinear_arith)
        requires
            n == (width / 10) * (height / 10),
    ;
}

/// The text of chunk `(cx, cy)` (chunk index `c`) stands at position `p` of `img`:
/// `"OFFSET {cx} {cy}\n"`, then the PX commands of the chunk's 81 pixels, pixel `j` drawn at
/// `(j % 9, j / 9)` with the value `pixels[81 * c + j]`.
pub open spec fn chunk_text_at(img: Seq<u8>, p: int, pixels: Seq<u32>, c: nat, cx: nat, cy: nat) -> bool {
    let off = seq![79u8, 70u8, 70u8, 83u8, 69u8, 84u8, 32u8] + decimal(cx) + seq![32u8] + decimal(
        cy,
    ) + seq![10u8];
    &&& 0 <= p
    &&& p + off.len() + 16 * 81 <= img.len()
    &&& img.subrange(p, p + off.len()) == off
    &&& forall|j: int|
        0 <= j < 81 ==> img.subrange(p + off.len() + 16 * j, p + off.len() + 16 * j + 16)
            == #[trigger] px_command_lite_rgba((j % 9) as u8, (j / 9) as u8, pixels[81 * c + j])
}

/// Every whole chunk of the image is drawn where it belongs: for the chunk in column `cx` and
/// row `cy` (chunk index `cy * (width / 10) + cx`), the encoded image holds an OFFSET command
/// naming that column and row, followed by the PX commands of the chunk's pixels.
pub proof fn law_every_chunk_is_offset_to_its_place(
    pixels: Seq<u32>,
    width: Coord,
    height: Coord,
    cx: nat,
    cy: nat,
)
    requires
        cx < width / 10,
        cy < height / 10,
    ensures
        exists|p: int|
            #[trigger] chunk_text_at(
                encoded_image(pixels, width, height),
                p,
                pixels,
                cy * (width / 10) as nat + cx,
                cx,
                cy,
            ),
{
    let cw = (width / 10) as nat;
    let ch = (height / 10) as nat;
    let n = cw * ch;
    let c = cy * cw + cx;
    assert(c < n) by (nonlinear_arith)
        requires
            cx < cw,
            cy < ch,
            c == cy * cw + cx,
            n == cw * ch,
    ;
    vstd::arithmetic::div_mod::lemma_fundamental_div_mod_converse(c as int, cw as int, cy as int, cx as int);
    lemma_image_commands_prefix(pixels, cw, c + 1, n);
    let img = encoded_image(pixels, width, height);
    let before = image_commands(pixels, cw, c);
    let p = before.len() as int;
    let chunk = chunk_commands(pixels, cw, c);
    let off = offset_command(cx as u16, cy as u16);
    assert(cx < 10000 && cy < 10000);
    assert((cx as u16) % 10000 == cx);
    assert((cy as u16) % 10000 == cy);
    lemma_chunk_px_commands_len(pixels, c, 81);
    assert(image_commands(pixels, cw, c + 1) == before + chunk);
    assert(img.subrange(0, (before + chunk).len() as int) == before + chunk);
    assert forall|a: int, b: int| p <= a <= b <= p + chunk.len() implies img.subrange(a, b)
        == chunk.subrange(a - p, b - p) by {
        assert(img.subrange(a, b) =~= (before + chunk).subrange(a, b));
        assert((before + chunk).subrange(a, b) =~= chunk.subrange(a - p, b - p));
    }
    assert(chunk.subrange(0, off.len() as int) =~= off);
    assert forall|j: int| 0 <= j < 81 implies img.subrange(
        p + off.len() + 16 * j,
        p + off.len() + 16 * j + 16,
    ) == #[trigger] px_command_lite_rgba((j % 9) as u8, (j / 9) as u8, pixels[81 * c + j]) by {
        lemma_chunk_px_command_at(pixels, c, 81, j);
        assert(chunk.subrange(off.len() + 16 * j, off.len() + 16 * j + 16) =~= chunk_px_commands(
            pixels,
            c,
            81,
        ).subrange(16 * j, 16 * j + 16));
    }
    assert(chunk_text_at(img, p, pixels, c, cx, cy));
}

/// The commands of the first `m` chunks are a prefix of those of the first `n`.
proof fn lemma_image_commands_prefix(pixels: Seq<u32>, cw: nat, m: nat, n: nat)
    requires
        m <= n,
    ensures
        image_commands(pixels, cw, m).len() <= image_commands(pixels, cw, n).len(),
        image_commands(pixels, cw, n).subrange(0, image_commands(pixels, cw, m).len() as int)
            == image_commands(pixels, cw, m),
    decreases n,
{
    if m < n {
        lemma_image_commands_prefix(pixels, cw, m, (n - 1) as nat);
        let prev = image_commands(pixels, cw, (n - 1) as nat);
        let full = image_commands(pixels, cw, n);
        assert(full.subrange(0, prev.len() as int) =~= prev);
        assert(full.subrange(0, image_commands(pixels, cw, m).len() as int) =~= prev.subrange(
            0,
            image_commands(pixels, cw, m).len() as int,
        ));
    } else {
        assert(image_commands(pixels, cw, n).subrange(0, image_commands(pixels, cw, n).len() as int)
            =~= image_commands(pixels, cw, n));
    }
}

/// Bytes `16 * j .. 16 * j + 16` of the PX commands of the first `k` pixels of a chunk are the
/// command of pixel `j`.
proof fn lemma_chunk_px_command_at(pixels: Seq<u32>, c: nat, k: nat, j: int)
    requires
        0 <= j < k,
    ensures
        chunk_px_commands(pixels, c, k).len() == 16 * k,
        chunk_px_commands(pixels, c, k).subrange(16 * j, 16 * j + 16) == px_command_lite_rgba(
            (j % 9) as u8,
            (j / 9) as u8,
            pixels[81 * c + j],
        ),
    decreases k,
{
    lemma_chunk_px_commands_len(pixels, c, k);
    let i = (k - 1) as nat;
    let prev = chunk_px_commands(pixels, c, i);
    let cmd = px_command_lite_rgba((i % 9) as u8, (i / 9) as u8, pixels[81 * c + i as int]);
    lemma_chunk_px_commands_len(pixels, c, i);
    assert(cmd.len() == 16);
    if j < i {
        lemma_chunk_px_command_at(pixels, c, i, j);
        assert((prev + cmd).subrange(16 * j, 16 * j + 16) =~= prev.subrange(16 * j, 16 * j + 16));
    } else {
        assert((prev + cmd).subrange(16 * j, 16 * j + 16) =~= cmd);
    }
}

/// Writes the PX commands of the 9x9 pixels of chunk `c` to `out` at `pos`.
fn encode_chunk_pixels(pixels: &[u32], c: usize, out: &mut [u8], pos: usize) -> (end: usize)
    requires
        81 * c + 81 <= pixels@.len(),
        pos + 16 * 81 <= old(out)@.len(),
    ensures
        end == pos + 16 * 81,
        final(out)@.len() == old(out)@.len(),
        final(out)@ == overwrite(old(out)@, pos as int, chunk_px_commands(pixels@, c as nat, 81)),
{
    let ghost out0 = out@;
    let out_len = out.len();
    let n_pixels = pixels.len();
    let mut imagedataptr = 81 * c;
    let mut wpos = pos;
    let mut dy: u8 = 0;
    while dy < 9
        invariant
            dy <= 9,
            81 * c + 81 <= pixels@.len(),
            pos + 16 * 81 <= out0.len(),
            out_len == out@.len(),
            out@.len() == out0.len(),
            imagedataptr == 81 * c + 9 * dy,
            wpos == pos + 16 * (9 * dy),
            out@ == overwrite(out0, pos as int, chunk_px_commands(pixels@, c as nat, (9 * dy) as nat)),
        decreases 9 - dy,
    {
        let mut dx: u8 = 0;
        while dx < 9
            invariant
                dy < 9,
                dx <= 9,
                81 * c + 81 <= pixels@.len(),
                pos + 16 * 81 <= out0.len(),
                out_len == out@.len(),
                out@.len() == out0.len(),
                imagedataptr == 81 * c + 9 * dy + dx,
                wpos == pos + 16 * (9 * dy + dx),
                out@ == overwrite(
                    out0,
                    pos as int,
                    chunk_px_commands(pixels@, c as nat, (9 * dy + dx) as nat),
                ),
            decreases 9 - dx,
        {
            let ghost j = (9 * dy + dx) as nat;
            let mut px = [0u8; 16];
            let len = encode_px_command_lite_rgba(dx, dy, pixels[imagedataptr], &mut px);
            proof {
                lemma_chunk_px_commands_len(pixels@, c as nat, j);
                assert(j % 9 == dx as nat && j / 9 == dy as nat);
            }
            put_bytes(out, wpos, px.as_slice(), 16);
            proof {
                assert(px@.subrange(0, 16) =~= px@);
                lemma_overwrite_twice(out0, pos as int, chunk_px_commands(pixels@, c as nat, j), px@);
            }
            imagedataptr = imagedataptr + 1;
            wpos = wpos + usize::from(len);
            dx = dx + 1;
        }
        dy = dy + 1;
    }
    wpos
}

/// Encodes the whole 10x10 chunks of the image as Pixelflut commands into `out` (see
/// `encoded_image`) and returns the number of bytes written.
pub fn encode_image(image: ImageData, out: &mut [u8]) -> (len: usize)
    requires
        frame_size_fits(image.width, image.height),
        old(out)@.len() >= frame_size(image.width, image.height),
        image.pixel_data@.len() >= image.width * image.height,
    ensures
        len == encoded_image(image.pixel_data@, image.width, image.height).len(),
        final(out)@ == overwrite(
            old(out)@,
            0,
            encoded_image(image.pixel_data@, image.width, image.height),
        ),
{
    let frame = calc_pixelflut_frame_size(image.width, image.height);
    let width: Coord = image.width;
    let height: Coord = image.height;
    let x_base: Coord = 0;
    let y_base: Coord = 0;
    let ghost out0 = out@;
    let ghost pixels = image.pixel_data@;
    let ghost cw = (width / 10) as nat;
    let out_len = out.len();
    let mut pos: usize = 0;
    let mut y_chunk: Coord = 0;
    proof {
        assert(81 * ((width / 10) * (height / 10)) <= width * height) by (nonlinear_arith);
        assert((width / 10) * (height / 10) * (17 + 16 * 81) <= frame_size(width, height))
            by (nonlinear_arith);
    }
    while y_chunk < height / 10
        invariant
            0 <= y_chunk <= height / 10,
            x_base == 0,
            y_base == 0,
            width == image.width,
            height == image.height,
            cw == width / 10,
            pixels == image.pixel_data@,
            pixels.len() >= 81 * ((width / 10) * (height / 10)),
            out_len == out@.len(),
            out@.len() == out0.len(),
            out0.len() >= (width / 10) * (height / 10) * (17 + 16 * 81),
            pos == image_commands(pixels, cw, (y_chunk * cw) as nat).len(),
            out@ == overwrite(out0, 0, image_commands(pixels, cw, (y_chunk * cw) as nat)),
        decreases height / 10 - y_chunk,
    {
        let mut x_chunk: Coord = 0;
        while x_chunk < width / 10
            invariant
                0 <= y_chunk < height / 10,
                0 <= x_chunk <= width / 10,
                x_base == 0,
                y_base == 0,
                width == image.width,
                height == image.height,
                cw == width / 10,
                pixels == image.pixel_data@,
                pixels.len() >= 81 * ((width / 10) * (height / 10)),
                out_len == out@.len(),
                out@.len() == out0.len(),
                out0.len() >= (width / 10) * (height / 10) * (17 + 16 * 81),
                pos == image_commands(pixels, cw, (y_chunk * cw + x_chunk) as nat).len(),
                out@ == overwrite(
                    out0,
                    0,
                    image_commands(pixels, cw, (y_chunk * cw + x_chunk) as nat),
                ),
            decreases width / 10 - x_chunk,
        {
            let ghost c = (y_chunk * cw + x_chunk) as nat;
            proof {
                assert(c < (width / 10) * (height / 10)) by (nonlinear_arith)
                    requires
                        c == y_chunk * cw + x_chunk,
                        x_chunk < cw,
                        y_chunk < height / 10,
                        cw == width / 10,
                ;
                assert(c % cw == x_chunk && c / cw == y_chunk) by (nonlinear_arith)
                    requires
                        c == y_chunk * cw + x_chunk,
                        x_chunk < cw,
                ;
                assert((width / 10) * (height / 10) <= 6553 * 6553) by (nonlinear_arith)
                    requires
                        width <= 65535,
                        height <= 65535,
                ;
                lemma_image_commands_len(pixels, cw, c);
                lemma_offset_command_len(x_chunk, y_chunk);
                assert(c * (17 + 16 * 81) + (17 + 16 * 81) <= (width / 10) * (height / 10) * (17
                    + 16 * 81)) by (nonlinear_arith)
                    requires
                        c < (width / 10) * (height / 10),
                ;
                assert(81 * c + 81 <= 81 * ((width / 10) * (height / 10))) by (nonlinear_arith)
                    requires
                        c < (width / 10) * (height / 10),
                ;
            }
            let ghost before = image_commands(pixels, cw, c);
            let mut scratch = [0u8; 17];
            let len = encode_offset_command(x_chunk + x_base, y_chunk + y_base, &mut scratch, 0);
            let ghost cmd = offset_command(x_chunk, y_chunk);
            assert(scratch@.subrange(0, len as int) =~= cmd);
            put_bytes(out, pos, scratch.as_slice(), len);
            proof {
                lemma_overwrite_twice(out0, 0, before, cmd);
            }
            pos = pos + len;
            let chunk_index = (y_chunk as usize) * (width as usize / 10) + x_chunk as usize;
            pos = encode_chunk_pixels(image.pixel_data, chunk_index, out, pos);
            proof {
                lemma_chunk_px_commands_len(pixels, c, 81);
                lemma_overwrite_twice(out0, 0, before + cmd, chunk_px_commands(pixels, c, 81));
                assert(before + cmd + chunk_px_commands(pixels, c, 81) =~= image_commands(
                    pixels,
                    cw,
                    c + 1,
                ));
            }
            x_chunk = x_chunk + 1;
        }
        assert(y_chunk * cw + cw == (y_chunk + 1) * cw) by (nonlinear_arith);
        y_chunk = y_chunk + 1;
    }
    assert((height / 10) * cw == (width / 10) * (height / 10)) by (nonlinear_arith)
        requires
            cw == width / 10,
    ;
    pos
}

} // verus!
