//! Helpers on raw pixel byte strings: hashing names, cropping, flipping rows
//! and premultiplying alpha.
use vstd::prelude::*;
use crate::RasterError;

verus! {

/// The byte as the hash reads it: ASCII upper case is folded to lower case,
/// and bytes above 127 are sign-extended to 32 bits.
pub open spec fn hash_byte(b: u8) -> int {
    if 65 <= b <= 90 {
        b + 32
    } else if b > 127 {
        b + 0xFFFF_FF00
    } else {
        b as int
    }
}

/// One step of the hash: `x + hash * 65599`, modulo 2^32.
pub open spec fn hash_step(hash: int, b: u8) -> int {
    (hash_byte(b) + hash * 64 + hash * 65536 - hash) % 0x1_0000_0000
}

/// The hash of a byte string, folded from the left from 0.
pub open spec fn small_hash(s: Seq<u8>) -> int
    decreases s.len(),
{
    if s.len() == 0 {
        0
    } else {
        hash_step(small_hash(s.drop_last()), s.last())
    }
}

/// The 32-bit name hash used to index game assets.
pub fn kleihash(bytes: &[u8]) -> (r: u32)
    ensures
        r == small_hash(bytes@),
{
    let mut hash: u64 = 0;
    let mut i: usize = 0;
    while i < bytes.len()
        invariant
            i <= bytes@.len(),
            hash == small_hash(bytes@.take(i as int)),
            hash < 0x1_0000_0000,
        decreases bytes@.len() - i,
    {
        let b = bytes[i];
        let x: u64 = if 65 <= b && b <= 90 {
            b as u64 + 32
        } else if b > 127 {
            b as u64 + 0xFFFF_FF00
        } else {
            b as u64
        };
        proof {
            assert(bytes@.take(i + 1).drop_last() =~= bytes@.take(i as int));
        }
        hash = (x + hash * 64 + hash * 65536 - hash) % 0x1_0000_0000;
        i = i + 1;
    }
    proof {
        assert(bytes@.take(bytes@.len() as int) =~= bytes@);
    }
    hash as u32
}

/// The bytes of the `cw` x `ch` rectangle at `(x, y)` of a row-major buffer
/// `width` pixels wide, `ps` bytes per pixel.
pub open spec fn cropped_bytes(
    bytes: Seq<u8>,
    width: int,
    x: int,
    y: int,
    cw: int,
    ch: int,
    ps: int,
) -> Seq<u8> {
    Seq::new(
        (cw * ch * ps) as nat,
        |k: int| bytes[((y + k / (cw * ps)) * width + x) * ps + k % (cw * ps)],
    )
}

proof fn lemma_crop_index(width: int, height: int, x: int, y: int, cw: int, r: int, c: int, ps: int)
    requires
        0 <= x,
        0 <= cw,
        x + cw <= width,
        0 <= y + r < height,
        0 <= c < cw * ps,
        ps > 0,
    ensures
        0 <= ((y + r) * width + x) * ps + c < width * height * ps,
        0 <= (y + r) * width <= (y + r) * width + x <= ((y + r) * width + x) * ps,
{
    let a = (y + r) * width;
    assert(0 <= a) by (nonlinear_arith)
        requires
            a == (y + r) * width,
            0 <= y + r,
            0 <= width,
    ;
    assert(a + x <= (a + x) * ps) by (nonlinear_arith)
        requires
            0 <= a + x,
            ps >= 1,
    ;
    assert(0 <= ((y + r) * width + x) * ps + c < width * height * ps) by (nonlinear_arith)
        requires
            0 <= x,
            x + cw <= width,
            0 <= y + r < height,
            0 <= c < cw * ps,
            ps > 0,
    ;
}

/// Copies the `cw` x `ch` rectangle at `(x, y)` out of a `width` x `height`
/// buffer of `pixel_size`-byte pixels. Fails when the buffer is not exactly
/// `width * height * pixel_size` bytes or the rectangle leaves the buffer.
pub fn crop_bytes(
    bytes: &[u8],
    width: usize,
    height: usize,
    x: usize,
    y: usize,
    cw: usize,
    ch: usize,
    pixel_size: usize,
) -> (r: Result<Vec<u8>, RasterError>)
    ensures
        r is Err <==> (bytes@.len() != width * height * pixel_size || x + cw > width || y + ch
            > height),
        r matches Ok(v) ==> v@ == cropped_bytes(
            bytes@,
            width as int,
            x as int,
            y as int,
            cw as int,
            ch as int,
            pixel_size as int,
        ),
{
    let len = bytes.len();
    let need: Option<usize> = if pixel_size == 0 {
        assert(width * height * pixel_size == 0) by (nonlinear_arith)
            requires
                pixel_size == 0,
        ;
        Some(0)
    } else {
        match width.checked_mul(height) {
            Some(n) => n.checked_mul(pixel_size),
            None => None,
        }
    };
    match need {
        Some(n) => {
            if len != n {
                return Err(RasterError::Validation);
            }
        },
        None => {
            proof {
                assert(width * height * pixel_size >= width * height) by (nonlinear_arith)
                    requires
                        pixel_size > 0,
                        width * height >= 0,
                ;
            }
            return Err(RasterError::Validation);
        },
    }
    if cw > width || x > width - cw || ch > height || y > height - ch {
        return Err(RasterError::Validation);
    }
    let ghost spec_out = cropped_bytes(
        bytes@,
        width as int,
        x as int,
        y as int,
        cw as int,
        ch as int,
        pixel_size as int,
    );
    if cw == 0 || ch == 0 || pixel_size == 0 {
        proof {
            assert(cw * ch * pixel_size == 0) by (nonlinear_arith)
                requires
                    cw == 0 || ch == 0 || pixel_size == 0,
            ;
        }
        return Ok(Vec::new());
    }
    assert(cw * pixel_size <= width * pixel_size) by (nonlinear_arith)
        requires
            cw <= width,
    ;
    assert(width * pixel_size <= width * height * pixel_size) by (nonlinear_arith)
        requires
            height >= 1,
    ;
    let row: usize = cw * pixel_size;
    assert(row > 0) by (nonlinear_arith)
        requires
            row == cw * pixel_size,
            cw > 0,
            pixel_size > 0,
    ;
    assert(cw * ch * pixel_size == ch * row) by (nonlinear_arith)
        requires
            row == cw * pixel_size,
    ;
    let mut out: Vec<u8> = Vec::new();
    let mut r: usize = 0;
    while r < ch
        invariant
            len == bytes@.len(),
            len == width * height * pixel_size,
            x + cw <= width,
            y + ch <= height,
            row == cw * pixel_size,
            row > 0,
            pixel_size > 0,
            r <= ch,
            out@.len() == r * row,
            forall|k: int|
                0 <= k < out@.len() ==> #[trigger] out@[k] == bytes@[((y + k / (row as int))
                    * width + x) * pixel_size + k % (row as int)],
        decreases ch - r,
    {
        proof {
            lemma_crop_index(
                width as int,
                height as int,
                x as int,
                y as int,
                cw as int,
                r as int,
                0,
                pixel_size as int,
            );
        }
        let start: usize = ((y + r) * width + x) * pixel_size;
        let mut c: usize = 0;
        while c < row
            invariant
                len == bytes@.len(),
                len == width * height * pixel_size,
                x + cw <= width,
                y + ch <= height,
                row == cw * pixel_size,
                row > 0,
                pixel_size > 0,
                r < ch,
                c <= row,
                start == ((y + r) * width + x) * pixel_size,
                out@.len() == r * row + c,
                forall|k: int|
                    0 <= k < out@.len() ==> #[trigger] out@[k] == bytes@[((y + k / (row as int))
                        * width + x) * pixel_size + k % (row as int)],
            decreases row - c,
        {
            proof {
                lemma_crop_index(
                    width as int,
                    height as int,
                    x as int,
                    y as int,
                    cw as int,
                    r as int,
                    c as int,
                    pixel_size as int,
                );
                crate::image::lemma_coords(
                    (r * row + c) as int,
                    row as int,
                    c as int,
                    r as int,
                );
            }
            out.push(bytes[start + c]);
            c = c + 1;
        }
        assert(r * row + row == (r + 1) * row) by (nonlinear_arith);
        r = r + 1;
    }
    proof {
        assert(out@ =~= spec_out);
    }
    Ok(out)
}

/// The rows of `linewidth` bytes of `bytes`, counted from its end, in
/// reverse order; a shorter run of bytes at the start is dropped.
pub open spec fn flipped_rows(bytes: Seq<u8>, linewidth: int) -> Seq<u8> {
    let rows = bytes.len() as int / linewidth;
    let rem = bytes.len() as int % linewidth;
    Seq::new(
        (rows * linewidth) as nat,
        |k: int| bytes[rem + (rows - 1 - k / linewidth) * linewidth + k % linewidth],
    )
}

/// Reverses the order of the rows of a buffer (a vertical flip), reading
/// whole rows of `linewidth` bytes from the end.
pub fn flip_bytes(bytes: &[u8], linewidth: usize) -> (r: Vec<u8>)
    requires
        linewidth > 0,
    ensures
        r@ == flipped_rows(bytes@, linewidth as int),
{
    let len = bytes.len();
    let rows: usize = len / linewidth;
    let rem: usize = len % linewidth;
    proof {
        vstd::arithmetic::div_mod::lemma_fundamental_div_mod(len as int, linewidth as int);
        assert(linewidth * rows == rows * linewidth) by (nonlinear_arith);
    }
    let mut out: Vec<u8> = Vec::new();
    let mut r: usize = 0;
    while r < rows
        invariant
            len == bytes@.len(),
            rows == len / linewidth,
            rem == len % linewidth,
            len == rows * linewidth + rem,
            linewidth > 0,
            r <= rows,
            out@.len() == r * linewidth,
            forall|k: int|
                0 <= k < out@.len() ==> #[trigger] out@[k] == bytes@[rem + (rows - 1 - k
                    / (linewidth as int)) * linewidth + k % (linewidth as int)],
        decreases rows - r,
    {
        assert((rows - 1 - r) * linewidth + linewidth <= rows * linewidth) by (nonlinear_arith)
            requires
                r < rows,
        ;
        assert(0 <= (rows - 1 - r) * linewidth) by (nonlinear_arith)
            requires
                r < rows,
        ;
        let start: usize = rem + (rows - 1 - r) * linewidth;
        let mut c: usize = 0;
        while c < linewidth
            invariant
                len == bytes@.len(),
                rows == len / linewidth,
                rem == len % linewidth,
                len == rows * linewidth + rem,
                linewidth > 0,
                r < rows,
                c <= linewidth,
                start == rem + (rows - 1 - r) * linewidth,
                start + linewidth <= len,
                out@.len() == r * linewidth + c,
                forall|k: int|
                    0 <= k < out@.len() ==> #[trigger] out@[k] == bytes@[rem + (rows - 1 - k
                        / (linewidth as int)) * linewidth + k % (linewidth as int)],
            decreases linewidth - c,
        {
            proof {
                crate::image::lemma_coords(
                    (r * linewidth + c) as int,
                    linewidth as int,
                    c as int,
                    r as int,
                );
            }
            out.push(bytes[start + c]);
            c = c + 1;
        }
        assert(r * linewidth + linewidth == (r + 1) * linewidth) by (nonlinear_arith);
        r = r + 1;
    }
    proof {
        assert(out@ =~= flipped_rows(bytes@, linewidth as int));
    }
    out
}

/// The buffer after exchanging, for each `k < m` with `m` half the number
/// of whole rows, the `k`-th row of `linewidth` bytes from the start with
/// the `k`-th row from the end; bytes between those rows stay. For a
/// buffer of whole rows this is a vertical flip.
pub open spec fn outer_rows_swapped(bytes: Seq<u8>, linewidth: int) -> Seq<u8> {
    let len = bytes.len() as int;
    let m = (len / linewidth) / 2;
    Seq::new(
        bytes.len(),
        |p: int|
            if p < m * linewidth {
                bytes[len - linewidth - (p / linewidth) * linewidth + p % linewidth]
            } else if p >= len - m * linewidth {
                let q = len - 1 - p;
                bytes[(q / linewidth) * linewidth + (linewidth - 1 - q % linewidth)]
            } else {
                bytes[p]
            },
    )
}

/// Flips a buffer vertically in place by exchanging rows of `linewidth`
/// bytes counted from its start with rows counted from its end. The buffer
/// must hold at least one row, and when it is not a whole number of rows,
/// an even number of them (otherwise two exchanged rows would overlap).
pub fn flip_bytes_mut(bytes: &mut Vec<u8>, linewidth: usize)
    requires
        linewidth > 0,
        old(bytes)@.len() >= linewidth,
        old(bytes)@.len() as int % (linewidth as int) == 0 || (old(bytes)@.len() as int / (
        linewidth as int)) % 2 == 0,
    ensures
        final(bytes)@ == outer_rows_swapped(old(bytes)@, linewidth as int),
{
    let ghost orig = bytes@;
    let len = bytes.len();
    let rows: usize = len / linewidth;
    let m: usize = rows / 2;
    proof {
        vstd::arithmetic::div_mod::lemma_fundamental_div_mod(len as int, linewidth as int);
        assert(2 * m * linewidth <= len) by (nonlinear_arith)
            requires
                2 * m <= rows,
                len == linewidth * rows + (len % linewidth),
        ;
        assert(2 * m * linewidth == m * linewidth + m * linewidth) by (nonlinear_arith);
    }
    let ghost target = outer_rows_swapped(orig, linewidth as int);
    let mut top: usize = 0;
    let mut i: usize = 0;
    while top < m
        invariant
            len == bytes@.len(),
            len == orig.len(),
            linewidth > 0,
            m == (len as int / (linewidth as int)) / 2,
            m * linewidth + m * linewidth <= len,
            top <= m,
            i == top * linewidth,
            target == outer_rows_swapped(orig, linewidth as int),
            forall|p: int|
                0 <= p < len ==> #[trigger] bytes@[p] == if p < i || p >= len - i {
                    target[p]
                } else {
                    orig[p]
                },
        decreases m - top,
    {
        assert((top + 1) * linewidth <= m * linewidth) by (nonlinear_arith)
            requires
                top < m,
        ;
        assert(top * linewidth + linewidth == (top + 1) * linewidth) by (nonlinear_arith);
        let j: usize = len - linewidth - i;
        let mut c: usize = 0;
        while c < linewidth
            invariant
                len == bytes@.len(),
                len == orig.len(),
                linewidth > 0,
                m == (len as int / (linewidth as int)) / 2,
                m * linewidth + m * linewidth <= len,
                top < m,
                i == top * linewidth,
                i + linewidth <= m * linewidth,
                j == len - linewidth - i,
                c <= linewidth,
                target == outer_rows_swapped(orig, linewidth as int),
                forall|p: int|
                    0 <= p < len ==> #[trigger] bytes@[p] == if p < i + c || (j <= p < j + c) || p
                        >= j + linewidth {
                        target[p]
                    } else {
                        orig[p]
                    },
            decreases linewidth - c,
        {
            let ghost before = bytes@;
            let x = bytes[i + c];
            let y = bytes[j + c];
            bytes.set(i + c, y);
            bytes.set(j + c, x);
            proof {
                let lw = linewidth as int;
                crate::image::lemma_coords((i + c) as int, lw, c as int, top as int);
                crate::image::lemma_coords(
                    len - 1 - (j + c),
                    lw,
                    lw - 1 - c,
                    top as int,
                );
                assert(target[(i + c) as int] == orig[(j + c) as int]);
                assert(target[(j + c) as int] == orig[(i + c) as int]);
            }
            c = c + 1;
        }
        i = i + linewidth;
        top = top + 1;
    }
    proof {
        assert(bytes@ =~= target);
    }
}

/// A colour channel premultiplied by alpha, `(v * a + a) / 256`, exact at
/// alpha 0 and 255.
pub open spec fn premultiplied(v: u8, a: u8) -> u8 {
    if a == 0 {
        0
    } else if a == 255 {
        v
    } else {
        ((v * a + a) / 256) as u8
    }
}

/// Premultiplies one channel by alpha.
pub fn mult_alpha_impl(v: u8, a: u8) -> (r: u8)
    ensures
        r == premultiplied(v, a),
{
    if a == 0 {
        0
    } else if a == 255 {
        v
    } else {
        assert((v as u32) * (a as u32) + (a as u32) < 256 * 256) by (nonlinear_arith)
            requires
                v <= 255,
                a < 255,
        ;
        (((v as u32) * (a as u32) + (a as u32)) / 256) as u8
    }
}

/// The RGBA pixels of `bytes` (4 bytes each; a trailing partial pixel is
/// dropped) with their colour premultiplied by their alpha.
pub open spec fn premultiplied_rgba(bytes: Seq<u8>) -> Seq<u8> {
    Seq::new(
        (bytes.len() / 4 * 4) as nat,
        |k: int|
            {
                let a = bytes[k - k % 4 + 3];
                if k % 4 == 3 {
                    a
                } else {
                    premultiplied(bytes[k], a)
                }
            },
    )
}

/// Premultiplies the colour of every RGBA pixel by its alpha.
pub fn mult_alpha(bytes: &[u8]) -> (r: Vec<u8>)
    ensures
        r@ == premultiplied_rgba(bytes@),
{
    let len = bytes.len();
    let n: usize = len / 4;
    let mut out: Vec<u8> = Vec::new();
    let mut i: usize = 0;
    while i < n
        invariant
            len == bytes@.len(),
            n == bytes@.len() / 4,
            i <= n,
            out@.len() == 4 * i,
            forall|k: int| 0 <= k < out@.len() ==> #[trigger] out@[k] == premultiplied_rgba(bytes@)[k],
        decreases n - i,
    {
        let o: usize = 4 * i;
        let a = bytes[o + 3];
        out.push(mult_alpha_impl(bytes[o], a));
        out.push(mult_alpha_impl(bytes[o + 1], a));
        out.push(mult_alpha_impl(bytes[o + 2], a));
        out.push(a);
        proof {
            assert forall|k: int| o <= k < o + 4 implies #[trigger] out@[k] == premultiplied_rgba(bytes@)[k] by {
                assert(k - k % 4 == o);
            }
        }
        i = i + 1;
    }
    proof {
        assert(out@ =~= premultiplied_rgba(bytes@));
    }
    out
}

} // verus!
