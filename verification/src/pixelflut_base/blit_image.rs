use crate::ascii::overwrite;
use crate::pixelflut_base::pixelflut_builder::{Color, PixelflutBuilder, PX_MAX_LENGTH};
use crate::pixelflut_gstreamer::encoding_helpers::{lemma_px_rgb_command_len, px_rgb_command};
use crate::pixelflut_gstreamer::encoding_ng::Coord;
use vstd::prelude::*;

verus! {

pub enum ImageFormat {
    Rgb,
    Rgba,
}

#[derive(Default, Clone, Copy)]
pub struct ImageInfo {
    pub width: Coord,
    pub height: Coord,
    pub stride: isize,
}

/// The little-endian 32-bit value of pixel `i` of `data` (four bytes per pixel).
pub open spec fn pixel_value(data: Seq<u8>, i: int) -> u32 {
    (data[4 * i] as int + 256 * data[4 * i + 1] as int + 65536 * data[4 * i + 2] as int + 16777216
        * data[4 * i + 3] as int) as u32
}

/// The PX commands that `blit_image` writes for the first `n` pixels of the image, in row
/// order: pixel `(x, y)` is read at pixel index `(width + stride) * y + x` of `data` and
/// drawn at `(x + offset_x, y + offset_y)`, wrapping around at 65536.
pub open spec fn blit_commands(
    data: Seq<u8>,
    info: ImageInfo,
    offset_x: Coord,
    offset_y: Coord,
    n: nat,
) -> Seq<u8>
    decreases n,
{
    if n == 0 || info.width == 0 {
        Seq::empty()
    } else {
        let k = (n - 1) as int;
        let y = k / info.width as int;
        let x = k % info.width as int;
        blit_commands(data, info, offset_x, offset_y, (n - 1) as nat) + px_rgb_command(
            (x as u16).wrapping_add(offset_x),
            (y as u16).wrapping_add(offset_y),
            pixel_value(data, (info.width + info.stride) * y + x),
        )
    }
}

/// The pixel value of pixel `i` holds the four bytes of the pixel, the first one least
/// significant.
pub proof fn law_pixel_value_bytes(data: Seq<u8>, i: int)
    requires
        0 <= i,
        4 * i + 3 < data.len(),
    ensures
        pixel_value(data, i) % 256 == data[4 * i],
        (pixel_value(data, i) / 256) % 256 == data[4 * i + 1],
        (pixel_value(data, i) / 65536) % 256 == data[4 * i + 2],
        pixel_value(data, i) / 16777216 == data[4 * i + 3],
{
    let b0 = data[4 * i] as int;
    let b1 = data[4 * i + 1] as int;
    let b2 = data[4 * i + 2] as int;
    let b3 = data[4 * i + 3] as int;
    let v = b0 + 256 * b1 + 65536 * b2 + 16777216 * b3;
    assert(0 <= v < 4294967296);
    assert(pixel_value(data, i) == v);
    assert(v % 256 == b0 && (v / 256) % 256 == b1 && (v / 65536) % 256 == b2 && v / 16777216 == b3)
        by (nonlinear_arith)
        requires
            v == b0 + 256 * b1 + 65536 * b2 + 16777216 * b3,
            0 <= b0 < 256,
            0 <= b1 < 256,
            0 <= b2 < 256,
            0 <= b3 < 256,
    ;
}

/// `cmd` stands at position `p` of `text`.
pub open spec fn command_at(text: Seq<u8>, p: int, cmd: Seq<u8>) -> bool {
    &&& 0 <= p
    &&& p + cmd.len() <= text.len()
    &&& text.subrange(p, p + cmd.len()) == cmd
}

/// Every pixel of the image is drawn where it belongs: for the pixel in column `x` and row
/// `y`, the commands hold the PX command for position `(x + offset_x, y + offset_y)` (wrapping
/// at 65536) with the value of the pixel read at pixel index `(width + stride) * y + x`.
pub proof fn law_blit_draws_every_pixel(
    data: Seq<u8>,
    info: ImageInfo,
    offset_x: Coord,
    offset_y: Coord,
    x: int,
    y: int,
)
    requires
        0 <= x < info.width,
        0 <= y < info.height,
    ensures
        exists|p: int|
            #[trigger] command_at(
                blit_commands(
                    data,
                    info,
                    offset_x,
                    offset_y,
                    (info.width * info.height) as nat,
                ),
                p,
                px_rgb_command(
                    (x as u16).wrapping_add(offset_x),
                    (y as u16).wrapping_add(offset_y),
                    pixel_value(data, (info.width + info.stride) * y + x),
                ),
            ),
{
    let w = info.width as int;
    let h = info.height as int;
    let k = y * w + x;
    assert(k < w * h) by (nonlinear_arith)
        requires
            0 <= x < w,
            0 <= y < h,
            k == y * w + x,
    ;
    assert(0 <= k) by (nonlinear_arith)
        requires
            0 <= x,
            0 <= y,
            0 <= w,
            k == y * w + x,
    ;
    vstd::arithmetic::div_mod::lemma_fundamental_div_mod_converse(k, w, y, x);
    lemma_blit_commands_prefix(data, info, offset_x, offset_y, (k + 1) as nat, (w * h) as nat);
    let all = blit_commands(data, info, offset_x, offset_y, (w * h) as nat);
    let before = blit_commands(data, info, offset_x, offset_y, k as nat);
    let cmd = px_rgb_command(
        (x as u16).wrapping_add(offset_x),
        (y as u16).wrapping_add(offset_y),
        pixel_value(data, (info.width + info.stride) * y + x),
    );
    assert(blit_commands(data, info, offset_x, offset_y, (k + 1) as nat) == before + cmd);
    let p = before.len() as int;
    assert(all.subrange(p, p + cmd.len()) =~= (before + cmd).subrange(p, p + cmd.len()));
    assert((before + cmd).subrange(p, p + cmd.len()) =~= cmd);
    assert(command_at(all, p, cmd));
}

/// The commands of the first `m` pixels are a prefix of those of the first `n`.
proof fn lemma_blit_commands_prefix(
    data: Seq<u8>,
    info: ImageInfo,
    offset_x: Coord,
    offset_y: Coord,
    m: nat,
    n: nat,
)
    requires
        m <= n,
    ensures
        blit_commands(data, info, offset_x, offset_y, m).len() <= blit_commands(
            data,
            info,
            offset_x,
            offset_y,
            n,
        ).len(),
        blit_commands(data, info, offset_x, offset_y, n).subrange(
            0,
            blit_commands(data, info, offset_x, offset_y, m).len() as int,
        ) == blit_commands(data, info, offset_x, offset_y, m),
    decreases n,
{
    let full = blit_commands(data, info, offset_x, offset_y, n);
    let part = blit_commands(data, info, offset_x, offset_y, m);
    if m < n {
        lemma_blit_commands_prefix(data, info, offset_x, offset_y, m, (n - 1) as nat);
        let prev = blit_commands(data, info, offset_x, offset_y, (n - 1) as nat);
        if info.width == 0 {
            assert(full == Seq::<u8>::empty());
            assert(part == Seq::<u8>::empty());
            assert(full.subrange(0, 0) =~= part);
        } else {
            assert(full.subrange(0, prev.len() as int) =~= prev);
            assert(full.subrange(0, part.len() as int) =~= prev.subrange(0, part.len() as int));
        }
    } else {
        assert(full.subrange(0, full.len() as int) =~= full);
    }
}

/// The commands of a `width` by `height` image fit in the room that `with_xy_capacity` asks
/// for, and in `required_size` bytes.
pub proof fn law_blit_fits_required_size(
    data: Seq<u8>,
    info: ImageInfo,
    offset_x: Coord,
    offset_y: Coord,
)
    ensures
        blit_commands(data, info, offset_x, offset_y, (info.width * info.height) as nat).len()
            <= PX_MAX_LENGTH * (info.width * info.height),
        blit_commands(data, info, offset_x, offset_y, (info.width * info.height) as nat).len()
            <= info.width * info.height * PX_MAX_LENGTH + PX_MAX_LENGTH,
{
    lemma_blit_commands_len(data, info, offset_x, offset_y, (info.width * info.height) as nat);
}

proof fn lemma_blit_commands_len(
    data: Seq<u8>,
    info: ImageInfo,
    offset_x: Coord,
    offset_y: Coord,
    n: nat,
)
    ensures
        blit_commands(data, info, offset_x, offset_y, n).len() <= 25 * n,
    decreases n,
{
    if n > 0 && info.width != 0 {
        let k = (n - 1) as int;
        let y = k / info.width as int;
        let x = k % info.width as int;
        lemma_blit_commands_len(data, info, offset_x, offset_y, (n - 1) as nat);
        lemma_px_rgb_command_len(
            (x as u16).wrapping_add(offset_x),
            (y as u16).wrapping_add(offset_y),
            pixel_value(data, (info.width + info.stride) * y + x),
        );
    }
}

/// Appends to `out` one PX command per pixel of the image, in row order (see
/// `blit_commands`).
pub fn blit_image(
    out: &mut PixelflutBuilder,
    image_data: &[u8],
    image_info: &ImageInfo,
    offset_x: Coord,
    offset_y: Coord,
)
    requires
        old(out).wf(),
        image_info.height * image_info.width * PX_MAX_LENGTH <= usize::MAX,
        old(out).data().len() - old(out).head() >= PX_MAX_LENGTH * (image_info.height
            * image_info.width),
        image_info.stride >= 0,
        image_info.width + image_info.stride <= usize::MAX,
        (image_info.width + image_info.stride) * image_info.height * 4 <= usize::MAX,
        (image_info.width + image_info.stride) * image_info.height * 4 >= image_info.stride,
        (image_info.width + image_info.stride) * image_info.height * 4 - image_info.stride
            <= image_data@.len(),
        image_info.width > 0 && image_info.height > 0 ==> {
            &&& image_info.width + image_info.stride <= isize::MAX
            &&& ((image_info.width + image_info.stride) * (image_info.height - 1)
                + image_info.width - 1) * 4 <= isize::MAX
        },
    ensures
        final(out).wf(),
        final(out).data() == overwrite(
            old(out).data(),
            old(out).head() as int,
            blit_commands(
                image_data@,
                *image_info,
                offset_x,
                offset_y,
                (image_info.width * image_info.height) as nat,
            ),
        ),
        final(out).head() == old(out).head() + blit_commands(
            image_data@,
            *image_info,
            offset_x,
            offset_y,
            (image_info.width * image_info.height) as nat,
        ).len(),
{
    let width = image_info.width;
    let height = image_info.height;
    let stride = image_info.stride as usize;
    let ghost info = *image_info;
    let ghost data0 = out.data();
    let ghost head0 = out.head();
    let mut y: u16 = 0;
    while y < height
        invariant
            info == *image_info,
            width == info.width,
            height == info.height,
            stride == info.stride,
            0 <= y <= height,
            out.wf(),
            out.data().len() == data0.len(),
            data0.len() - head0 >= PX_MAX_LENGTH * (height * width),
            height * width * PX_MAX_LENGTH <= usize::MAX,
            info.width + info.stride <= usize::MAX,
            (info.width + info.stride) * info.height * 4 - info.stride <= image_data@.len(),
            info.stride >= 0,
            info.width > 0 && info.height > 0 ==> {
                &&& info.width + info.stride <= isize::MAX
                &&& ((info.width + info.stride) * (info.height - 1) + info.width - 1) * 4
                    <= isize::MAX
            },
            out.head() == head0 + blit_commands(
                image_data@,
                info,
                offset_x,
                offset_y,
                (y * width) as nat,
            ).len(),
            out.data() == overwrite(
                data0,
                head0 as int,
                blit_commands(image_data@, info, offset_x, offset_y, (y * width) as nat),
            ),
        decreases height - y,
    {
        let mut x: u16 = 0;
        while x < width
            invariant
                info == *image_info,
                width == info.width,
                height == info.height,
                stride == info.stride,
                0 <= y < height,
                0 <= x <= width,
                out.wf(),
                out.data().len() == data0.len(),
                data0.len() - head0 >= PX_MAX_LENGTH * (height * width),
                height * width * PX_MAX_LENGTH <= usize::MAX,
                info.width + info.stride <= usize::MAX,
                (info.width + info.stride) * info.height * 4 - info.stride <= image_data@.len(),
                info.stride >= 0,
                info.width > 0 && info.height > 0 ==> {
                    &&& info.width + info.stride <= isize::MAX
                    &&& ((info.width + info.stride) * (info.height - 1) + info.width - 1) * 4
                        <= isize::MAX
                },
                out.head() == head0 + blit_commands(
                    image_data@,
                    info,
                    offset_x,
                    offset_y,
                    (y * width + x) as nat,
                ).len(),
                out.data() == overwrite(
                    data0,
                    head0 as int,
                    blit_commands(image_data@, info, offset_x, offset_y, (y * width + x) as nat),
                ),
            decreases width - x,
        {
            let ghost k = (y * width + x) as nat;
            proof {
                assert(k < height * width) by (nonlinear_arith)
                    requires
                        k == y * width + x,
                        y < height,
                        x < width,
                ;
                assert((k as int) / (width as int) == y as int && (k as int) % (width as int) == x as int) by (nonlinear_arith)
                    requires
                        k == y * width + x,
                        x < width,
                ;
                assert((width + stride) * y + x <= (width + stride) * (height - 1) + width - 1)
                    by (nonlinear_arith)
                    requires
                        y < height,
                        x < width,
                ;
                assert(((width + stride) * y + x) * 4 + 4 <= (width + stride) * height * 4 - stride)
                    by (nonlinear_arith)
                    requires
                        y < height,
                        x < width,
                        stride >= 0,
                ;
                lemma_blit_commands_len(image_data@, info, offset_x, offset_y, k);
                lemma_px_rgb_command_len(
                    x.wrapping_add(offset_x),
                    y.wrapping_add(offset_y),
                    pixel_value(image_data@, (info.width + info.stride) * y + x),
                );
                assert(25 * k + 25 <= 25 * (height * width)) by (nonlinear_arith)
                    requires
                        k < height * width,
                ;
            }
            let idx: usize = (width as usize + stride) * (y as usize) + x as usize;
            let idxpx: usize = idx * 4;
            let color = Color {
                r: image_data[idxpx],
                g: image_data[idxpx + 1],
                b: image_data[idxpx + 2],
                a: image_data[idxpx + 3],
            };
            assert(color.value() == pixel_value(image_data@, idx as int));
            let ghost before = blit_commands(image_data@, info, offset_x, offset_y, k);
            out.cmd_px(x.wrapping_add(offset_x), y.wrapping_add(offset_y), color);
            proof {
                crate::ascii::lemma_overwrite_twice(
                    data0,
                    head0 as int,
                    before,
                    px_rgb_command(
                        x.wrapping_add(offset_x),
                        y.wrapping_add(offset_y),
                        pixel_value(image_data@, idx as int),
                    ),
                );
                assert(blit_commands(image_data@, info, offset_x, offset_y, k + 1) == before
                    + px_rgb_command(
                    x.wrapping_add(offset_x),
                    y.wrapping_add(offset_y),
                    pixel_value(image_data@, idx as int),
                ));
            }
            x = x + 1;
        }
        assert((y * width + width) == (y + 1) * width) by (nonlinear_arith);
        y = y + 1;
    }
    assert(height * width == width * height) by (nonlinear_arith);
}

} // verus!
