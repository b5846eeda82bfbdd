use crate::pixelflut_base::blit_image_ng::div_ceil;
use crate::pixelflut_gstreamer::encoding_ng::Coord;
use vstd::prelude::*;

verus! {

/// The number of rows per partition: the height divided by the number of partitions, rounded
/// up, then rounded up to a multiple of ten (the encoding works on 10x10 chunks).
pub open spec fn row_skip(height: Coord, npartitions: Coord) -> nat {
    10 * div_ceil(div_ceil(height as nat, npartitions as nat), 10)
}

/// Number of rows per partition (see `row_skip`).
pub fn calculate_row_skip(height: u16, npartitions: u16) -> (r: u16)
    requires
        npartitions > 0,
        row_skip(height, npartitions) <= u16::MAX,
    ensures
        r == row_skip(height, npartitions),
{
    let per_partition: u32 = (height as u32 + npartitions as u32 - 1) / npartitions as u32;
    (((per_partition + 9) / 10) * 10) as u16
}

/// The rows and the output buffer offset of partition `i`: rows
/// `i * row_skip .. min(i * row_skip + row_skip, height)`, output from `outbuf_skip * i`.
pub open spec fn partition(height: Coord, row_skip: nat, outbuf_skip: nat, i: nat) -> (
    Coord,
    Coord,
    usize,
) {
    let start = i * row_skip;
    let end = if start + row_skip < height {
        start + row_skip
    } else {
        height as nat
    };
    (start as Coord, end as Coord, (outbuf_skip * i) as usize)
}

/// Splits the rows of an image of `height` rows into `npartitions` parts of `row_skip` rows,
/// each encoded into its own `outbuf_skip` bytes of an output buffer of `outbuf_len` bytes.
/// Returns, for each part in order, its first row, the row after its last one, and the
/// offset of its bytes in the output buffer.
pub fn partition_via_rows(
    height: Coord,
    npartitions: Coord,
    outbuf_len: usize,
    outbuf_skip: usize,
) -> (r: Vec<(Coord, Coord, usize)>)
    requires
        npartitions > 0,
        height > 0,
        row_skip(height, npartitions) <= u16::MAX,
        div_ceil(height as nat, row_skip(height, npartitions)) * row_skip(height, npartitions)
            <= u16::MAX,
        outbuf_skip > 0,
        outbuf_skip * npartitions <= usize::MAX,
        outbuf_len >= outbuf_skip * npartitions,
    ensures
        r@.len() == div_ceil(height as nat, row_skip(height, npartitions)),
        forall|i: int|
            0 <= i < r@.len() ==> #[trigger] r@[i] == partition(
                height,
                row_skip(height, npartitions),
                outbuf_skip as nat,
                i as nat,
            ),
{
    let row_skip = calculate_row_skip(height, npartitions);
    let ghost rs = row_skip as nat;
    let ghost n_parts = div_ceil(height as nat, rs);
    proof {
        let per = (((height + npartitions - 1) / (npartitions as int)) as nat);
        assert(per >= 1) by (nonlinear_arith)
            requires
                per == (height + npartitions - 1) / (npartitions as int),
                npartitions > 0,
                height > 0,
        ;
        assert(rs >= 10);
        assert(n_parts >= 1) by (nonlinear_arith)
            requires
                n_parts == ((height + rs - 1) / (rs as int)) as nat,
                rs >= 10,
                height > 0,
        ;
        assert(n_parts <= npartitions) by (nonlinear_arith)
            requires
                n_parts == ((height + rs - 1) / (rs as int)) as nat,
                rs == 10 * (((((height + npartitions - 1) / (npartitions as int)) as nat) + 9) / 10),
                npartitions > 0,
                height > 0,
        ;
    }
    let mut result: Vec<(Coord, Coord, usize)> = Vec::new();
    let mut start_row: Coord = 0;
    let mut i: usize = 0;
    while start_row < height
        invariant
            rs == row_skip,
            rs == crate::pixelflut_gstreamer::rsimage2pixelflut::row_skip(height, npartitions),
            rs >= 10,
            n_parts == div_ceil(height as nat, rs),
            n_parts * rs <= u16::MAX,
            n_parts <= npartitions,
            outbuf_skip * npartitions <= usize::MAX,
            start_row == i * rs,
            i <= n_parts,
            i < n_parts <==> start_row < height,
            result@.len() == i,
            forall|j: int|
                0 <= j < i ==> #[trigger] result@[j] == partition(
                    height,
                    rs,
                    outbuf_skip as nat,
                    j as nat,
                ),
        decreases n_parts - i,
    {
        proof {
            assert(start_row + rs <= n_parts * rs) by (nonlinear_arith)
                requires
                    start_row == i * rs,
                    i < n_parts,
            ;
            assert(outbuf_skip * i <= outbuf_skip * npartitions) by (nonlinear_arith)
                requires
                    i < n_parts,
                    n_parts <= npartitions,
            ;
        }
        let end_row = if start_row + row_skip < height {
            start_row + row_skip
        } else {
            height
        };
        let start_outbuf = outbuf_skip * i;
        result.push((start_row, end_row, start_outbuf));
        proof {
            assert((i + 1) * rs == i * rs + rs) by (nonlinear_arith);
            assert(i + 1 < n_parts <==> (i + 1) * rs < height) by (nonlinear_arith)
                requires
                    n_parts == ((height + rs - 1) / (rs as int)) as nat,
                    rs >= 10,
            ;
        }
        start_row = start_row + row_skip;
        i = i + 1;
    }
    result
}

/// The rows per partition are the fewest that are a multiple of ten and, taken
/// `npartitions` times, cover the image.
pub proof fn law_row_skip_is_least_cover(height: Coord, npartitions: Coord)
    requires
        npartitions > 0,
    ensures
        row_skip(height, npartitions) % 10 == 0,
        row_skip(height, npartitions) * npartitions >= height,
        row_skip(height, npartitions) >= 10 ==> (row_skip(height, npartitions) - 10) * npartitions
            < height,
{
    let h = height as int;
    let np = npartitions as int;
    let q = (h + np - 1) / np;
    let t = (q + 9) / 10;
    let rs = row_skip(height, npartitions) as int;
    assert(rs == 10 * t);
    vstd::arithmetic::div_mod::lemma_fundamental_div_mod(h + np - 1, np);
    vstd::arithmetic::div_mod::lemma_fundamental_div_mod(q + 9, 10);
    let r1 = (h + np - 1) % np;
    let r2 = (q + 9) % 10;
    assert(0 <= r1 < np);
    assert(0 <= r2 < 10);
    assert(q * np >= h) by (nonlinear_arith)
        requires
            h + np - 1 == np * q + r1,
            0 <= r1 < np,
    ;
    assert((q - 1) * np < h) by (nonlinear_arith)
        requires
            h + np - 1 == np * q + r1,
            0 <= r1,
            np > 0,
    ;
    assert(10 * t >= q && 10 * t - 10 <= q - 1) by (nonlinear_arith)
        requires
            q + 9 == 10 * t + r2,
            0 <= r2 < 10,
    ;
    assert(rs * np >= h) by (nonlinear_arith)
        requires
            rs >= q,
            q * np >= h,
            np > 0,
    ;
    if rs >= 10 {
        assert((rs - 10) * np < h) by (nonlinear_arith)
            requires
                rs - 10 <= q - 1,
                (q - 1) * np < h,
                np > 0,
                rs >= 10,
        ;
    }
}

/// The partitions tile the image: the first starts at row 0, each starts where the previous
/// one ends, the last ends at the last row; each has at least one and at most `row_skip` rows;
/// their output ranges `[offset, offset + outbuf_skip)` follow each other inside the output
/// buffer.
pub proof fn law_partitions_tile_the_image(
    height: Coord,
    npartitions: Coord,
    outbuf_len: usize,
    outbuf_skip: usize,
)
    requires
        npartitions > 0,
        height > 0,
        row_skip(height, npartitions) <= u16::MAX,
        div_ceil(height as nat, row_skip(height, npartitions)) * row_skip(height, npartitions)
            <= u16::MAX,
        outbuf_skip * npartitions <= usize::MAX,
        outbuf_len >= outbuf_skip * npartitions,
    ensures
        ({
            let rs = row_skip(height, npartitions);
            let n = div_ceil(height as nat, rs);
            &&& n >= 1
            &&& partition(height, rs, outbuf_skip as nat, 0).0 == 0
            &&& partition(height, rs, outbuf_skip as nat, (n - 1) as nat).1 == height
            &&& forall|i: nat|
                i + 1 < n ==> #[trigger] partition(height, rs, outbuf_skip as nat, i).1 == partition(
                    height,
                    rs,
                    outbuf_skip as nat,
                    i + 1,
                ).0
            &&& forall|i: nat|
                i < n ==> {
                    let p = #[trigger] partition(height, rs, outbuf_skip as nat, i);
                    &&& p.0 < p.1
                    &&& p.1 - p.0 <= rs
                    &&& p.2 + outbuf_skip <= outbuf_len
                    &&& i + 1 < n ==> p.2 + outbuf_skip == partition(
                        height,
                        rs,
                        outbuf_skip as nat,
                        i + 1,
                    ).2
                }
        }),
{
    let rs = row_skip(height, npartitions);
    let n = div_ceil(height as nat, rs);
    let per = (((height + npartitions - 1) / (npartitions as int)) as nat);
    assert(per >= 1) by (nonlinear_arith)
        requires
            per == (height + npartitions - 1) / (npartitions as int),
            npartitions > 0,
            height > 0,
    ;
    assert(rs >= 10);
    assert(n >= 1 && (n - 1) * rs < height && height <= n * rs) by (nonlinear_arith)
        requires
            n == ((height + rs - 1) / (rs as int)) as nat,
            rs >= 10,
            height > 0,
    ;
    assert(n <= npartitions) by (nonlinear_arith)
        requires
            n == ((height + rs - 1) / (rs as int)) as nat,
            rs == 10 * ((per + 9) / 10),
            per == (height + npartitions - 1) / (npartitions as int),
            npartitions > 0,
            height > 0,
    ;
    assert forall|i: nat| i + 1 < n implies #[trigger] partition(
        height,
        rs,
        outbuf_skip as nat,
        i,
    ).1 == partition(height, rs, outbuf_skip as nat, i + 1).0 by {
        assert(i * rs + rs == (i + 1) * rs) by (nonlinear_arith);
        assert((i + 1) * rs <= (n - 1) * rs) by (nonlinear_arith)
            requires
                i + 1 <= n - 1,
        ;
    }
    assert forall|i: nat| i < n implies {
        let p = #[trigger] partition(height, rs, outbuf_skip as nat, i);
        &&& p.0 < p.1
        &&& p.1 - p.0 <= rs
        &&& p.2 + outbuf_skip <= outbuf_len
        &&& i + 1 < n ==> p.2 + outbuf_skip == partition(height, rs, outbuf_skip as nat, i + 1).2
    } by {
        assert(i * rs <= (n - 1) * rs) by (nonlinear_arith)
            requires
                i <= n - 1,
        ;
        assert(outbuf_skip * i + outbuf_skip <= outbuf_skip * npartitions) by (nonlinear_arith)
            requires
                i < n,
                n <= npartitions,
        ;
        assert(outbuf_skip * i + outbuf_skip == outbuf_skip * (i + 1)) by (nonlinear_arith);
    }
    assert((n - 1) * rs + rs >= height) by (nonlinear_arith)
        requires
            height <= n * rs,
            n >= 1,
    ;
}

/// The layout of the incoming frames, as the negotiated caps give it.
#[derive(Clone, Copy)]
pub struct FrameLayout {
    pub width: Coord,
    pub height: Coord,
    /// Bytes per row.
    pub stride: usize,
}

/// Why the caps of the incoming frames are refused.
pub enum CapsError {
    /// The pixel format is not one that the encoder reads.
    UnsupportedFormat,
    /// The width or the height is not a multiple of ten (the encoder works on 10x10 chunks).
    SizeNotMultipleOfTen,
}

/// Checks the caps of the incoming frames: the format must be one the encoder reads, and the
/// width and the height multiples of ten; the layout then holds them (the sizes as
/// coordinates, the stride as a byte count).
pub fn frame_layout(format_supported: bool, width: u32, height: u32, stride: i32) -> (r: Result<
    FrameLayout,
    CapsError,
>)
    ensures
        !format_supported ==> r matches Err(CapsError::UnsupportedFormat),
        format_supported && (width % 10 != 0 || height % 10 != 0) ==> r matches Err(
            CapsError::SizeNotMultipleOfTen,
        ),
        format_supported && width % 10 == 0 && height % 10 == 0 ==> ({
            &&& r matches Ok(l)
            &&& l.width == width as Coord
            &&& l.height == height as Coord
            &&& l.stride == stride as usize
        }),
{
    if !format_supported {
        return Err(CapsError::UnsupportedFormat);
    }
    if width % 10 != 0 || height % 10 != 0 {
        return Err(CapsError::SizeNotMultipleOfTen);
    }
    Ok(FrameLayout { width: width as Coord, height: height as Coord, stride: stride as usize })
}

} // verus!
