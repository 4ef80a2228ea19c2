//! Payload builder: flattens a decoded framebuffer into the byte payload of
//! one frame.  The payload starts with the downsampled width and height, each
//! as a four-byte little-endian field, followed by two bytes per retained
//! sample in row-major scan order.  Samples are taken by nearest-neighbor
//! subsampling: every `scale`-th column of every `scale`-th row, top-left
//! aligned, with no interpolation.

use vstd::prelude::*;

verus! {

/// The four little-endian bytes of a value below `2^32`.
pub open spec fn le32_bytes(x: int) -> Seq<u8>
    recommends
        0 <= x < 0x1_0000_0000,
{
    seq![
        (x % 256) as u8,
        ((x / 0x100) % 256) as u8,
        ((x / 0x1_0000) % 256) as u8,
        ((x / 0x100_0000) % 256) as u8,
    ]
}

/// The two bytes of sample number `m` of the downsampled image, drawn from a
/// framebuffer of `width` pixels per row with two bytes per pixel.
pub open spec fn sample_bytes(data: Seq<u8>, width: int, scale: int, m: int) -> Seq<u8>
    recommends
        scale >= 1,
        width / scale >= 1,
        m >= 0,
{
    let cols = width / scale;
    let row = m / cols;
    let col = m % cols;
    let idx = (row * scale * width + col * scale) * 2;
    seq![data[idx], data[idx + 1]]
}

/// The first `k` samples of the downsampled image, two bytes each, in
/// row-major order.
pub open spec fn samples_prefix(data: Seq<u8>, width: int, scale: int, k: int) -> Seq<u8>
    recommends
        scale >= 1,
        k >= 0,
    decreases k,
{
    if k <= 0 {
        Seq::empty()
    } else {
        samples_prefix(data, width, scale, k - 1) + sample_bytes(data, width, scale, k - 1)
    }
}

/// The complete payload of one frame: downsampled dimensions, then all
/// retained samples.
pub open spec fn payload_bytes(data: Seq<u8>, width: int, height: int, scale: int) -> Seq<u8>
    recommends
        scale >= 1,
{
    le32_bytes(width / scale) + le32_bytes(height / scale) + samples_prefix(
        data,
        width,
        scale,
        (height / scale) * (width / scale),
    )
}

/// Builds the payload for a framebuffer of `width * height` pixels at two
/// bytes per pixel, downsampled by `scale`.  A framebuffer too small in
/// either dimension yields a payload with an empty sample body, not an error.
pub fn build_payload(data: &Vec<u8>, width: usize, height: usize, scale: usize) -> (p: Vec<u8>)
    requires
        scale >= 1,
        data@.len() == width * height * 2,
        width / scale < 0x1_0000_0000,
        height / scale < 0x1_0000_0000,
    ensures
        p@ == payload_bytes(data@, width as int, height as int, scale as int),
{
    let dlen = data.len();
    let rows = height / scale;
    let cols = width / scale;
    let mut p: Vec<u8> = Vec::new();
    p.push((cols % 256) as u8);
    p.push(((cols / 0x100) % 256) as u8);
    p.push(((cols / 0x1_0000) % 256) as u8);
    p.push(((cols / 0x100_0000) % 256) as u8);
    p.push((rows % 256) as u8);
    p.push(((rows / 0x100) % 256) as u8);
    p.push(((rows / 0x1_0000) % 256) as u8);
    p.push(((rows / 0x100_0000) % 256) as u8);
    assert(p@ =~= le32_bytes(cols as int) + le32_bytes(rows as int));
    proof {
        vstd::arithmetic::div_mod::lemma_fundamental_div_mod(height as int, scale as int);
        vstd::arithmetic::div_mod::lemma_mod_division_less_than_divisor(
            height as int,
            scale as int,
        );
        vstd::arithmetic::div_mod::lemma_fundamental_div_mod(width as int, scale as int);
        vstd::arithmetic::div_mod::lemma_mod_division_less_than_divisor(
            width as int,
            scale as int,
        );
        assert(rows * scale <= height) by (nonlinear_arith)
            requires
                height as int == scale as int * (rows as int) + height as int % scale as int,
                height as int % scale as int >= 0,
        ;
        assert(cols * scale <= width) by (nonlinear_arith)
            requires
                width as int == scale as int * (cols as int) + width as int % scale as int,
                width as int % scale as int >= 0,
        ;
    }
    let mut i: usize = 0;
    while i < rows
        invariant
            scale >= 1,
            rows == height / scale,
            cols == width / scale,
            rows < 0x1_0000_0000,
            cols < 0x1_0000_0000,
            rows * scale <= height,
            cols * scale <= width,
            data@.len() == width * height * 2,
            dlen == data@.len(),
            i <= rows,
            p@ == le32_bytes(cols as int) + le32_bytes(rows as int) + samples_prefix(
                data@,
                width as int,
                scale as int,
                i * cols,
            ),
        decreases rows - i,
    {
        proof {
            vstd::arithmetic::mul::lemma_mul_inequality(i as int, rows as int, cols as int);
        }
        let mut j: usize = 0;
        while j < cols
            invariant
                scale >= 1,
                rows == height / scale,
                cols == width / scale,
                rows < 0x1_0000_0000,
                cols < 0x1_0000_0000,
                rows * scale <= height,
                cols * scale <= width,
                data@.len() == width * height * 2,
                dlen == data@.len(),
                i < rows,
                j <= cols,
                i * cols + j <= rows * cols,
                p@ == le32_bytes(cols as int) + le32_bytes(rows as int) + samples_prefix(
                    data@,
                    width as int,
                    scale as int,
                    i * cols + j,
                ),
            decreases cols - j,
        {
            proof {
                let ii = i as int;
                let jj = j as int;
                let ss = scale as int;
                let ww = width as int;
                let hh = height as int;
                assert(ii * ss + ss <= hh) by (nonlinear_arith)
                    requires
                        0 <= ii < rows as int,
                        rows as int * ss <= hh,
                        ss >= 1,
                ;
                assert(jj * ss + ss <= ww) by (nonlinear_arith)
                    requires
                        0 <= jj < cols as int,
                        cols as int * ss <= ww,
                        ss >= 1,
                ;
                assert((ii * ss) * ww + jj * ss + 1 <= ww * hh) by (nonlinear_arith)
                    requires
                        ii * ss + ss <= hh,
                        jj * ss + ss <= ww,
                        ss >= 1,
                        0 <= ii * ss,
                        0 <= jj * ss,
                ;
            }
            let idx = (i * scale * width + j * scale) * 2;
            p.push(data[idx]);
            p.push(data[idx + 1]);
            proof {
                let m = i as int * cols as int + j as int;
                assert(m / cols as int == i as int && m % cols as int == j as int)
                    by (nonlinear_arith)
                    requires
                        0 <= j < cols,
                        0 <= i,
                        m == i as int * cols as int + j as int,
                ;
                assert(sample_bytes(data@, width as int, scale as int, m) =~= seq![
                    data@[idx as int],
                    data@[idx as int + 1],
                ]);
                assert(samples_prefix(data@, width as int, scale as int, m + 1)
                    == samples_prefix(data@, width as int, scale as int, m) + sample_bytes(
                    data@,
                    width as int,
                    scale as int,
                    m,
                ));
                assert(p@ =~= le32_bytes(cols as int) + le32_bytes(rows as int) + samples_prefix(
                    data@,
                    width as int,
                    scale as int,
                    m + 1,
                ));
                assert(m + 1 <= rows as int * cols as int) by (nonlinear_arith)
                    requires
                        0 <= j < cols,
                        0 <= i < rows,
                        m == i as int * cols as int + j as int,
                ;
            }
            j = j + 1;
        }
        proof {
            assert(i as int * cols as int + cols as int == (i as int + 1) * cols as int)
                by (nonlinear_arith);
        }
        i = i + 1;
    }
    p
}

} // verus!
