//! The box blur engine: an iterative, per-channel neighbor-averaging
//! transform on a flat RGBA buffer.
//!
//! For one byte of the buffer the engine averages a cross-shaped window: up
//! to `radius` samples along the byte's row and up to `radius` whole-row
//! offsets along its column, each sample included only while its offset
//! stays inside the row (for row neighbors) or inside the buffer (for
//! column neighbors). The divisor is the number of samples actually
//! included. Every offset is computed in checked signed 32-bit arithmetic;
//! leaving that range is a distinguishable overflow error, never a wrapped
//! index. A pass writes each averaged byte back immediately, so later
//! bytes of the same pass read already-updated neighbors; this in-place
//! recurrence is part of the engine's contract.

use vstd::arithmetic::div_mod::{
    lemma_div_is_ordered, lemma_div_is_ordered_by_denominator, lemma_div_multiples_vanish,
    lemma_fundamental_div_mod,
};
use vstd::prelude::*;

use crate::config::{blur_decode, BlurConfig, ConfigReader};
use crate::error::Error;

verus! {

/// Whether an offset stays inside the signed 32-bit range in which the
/// engine computes buffer offsets.
pub open spec fn fits_i32(x: int) -> bool {
    -0x8000_0000 <= x && x <= 0x7fff_ffff
}

/// The length in bytes of one pixel row.
pub open spec fn row_len(w: int, bpp: int) -> int {
    w * bpp
}

/// The byte offset of channel `c` of pixel `p`: the byte being averaged.
pub open spec fn center_index(p: int, bpp: int, c: int) -> int {
    c + p * bpp
}

/// The byte offset of the row neighbor `i` pixels to the side of pixel `p`.
pub open spec fn col_index(p: int, bpp: int, c: int, i: int) -> int {
    c + (i + p) * bpp
}

/// The byte offset of the column neighbor `i` whole rows away from the
/// center byte. The center byte's own offset already contains one `c`, so
/// this offset carries the channel twice; the concrete test vectors pin
/// this behavior down, and it must be preserved as it is.
pub open spec fn row_index(p: int, w: int, bpp: int, c: int, i: int) -> int {
    c + center_index(p, bpp, c) + i * row_len(w, bpp)
}

/// The byte offset at which the center byte's row begins.
pub open spec fn row_base(p: int, w: int, bpp: int, c: int) -> int {
    (center_index(p, bpp, c) / row_len(w, bpp)) * row_len(w, bpp)
}

/// Whether the row neighbor `i` pixels to the side enters the window: its
/// offset must stay inside the channel-shifted span of the center's row,
/// and that span must itself lie inside the buffer.
pub open spec fn col_included(len: int, p: int, w: int, bpp: int, c: int, i: int) -> bool {
    let left = row_base(p, w, bpp, c) + c;
    let right = row_base(p, w, bpp, c) + row_len(w, bpp) + c;
    &&& left <= col_index(p, bpp, c, i)
    &&& col_index(p, bpp, c, i) < right
    &&& left >= 0
    &&& right < len
    &&& left < right
}

/// Whether the column neighbor `i` whole rows away enters the window: its
/// offset must stay inside the buffer.
pub open spec fn row_included(len: int, p: int, w: int, bpp: int, c: int, i: int) -> bool {
    0 <= row_index(p, w, bpp, c, i) && row_index(p, w, bpp, c, i) < len
}

/// What window position `i` contributes to the running sum.
pub open spec fn sample_sum(buf: Seq<u8>, p: int, w: int, bpp: int, c: int, i: int) -> int {
    (if col_included(buf.len() as int, p, w, bpp, c, i) {
        buf[col_index(p, bpp, c, i)] as int
    } else {
        0
    }) + (if row_included(buf.len() as int, p, w, bpp, c, i) {
        buf[row_index(p, w, bpp, c, i)] as int
    } else {
        0
    })
}

/// How many samples window position `i` contributes.
pub open spec fn sample_count(buf: Seq<u8>, p: int, w: int, bpp: int, c: int, i: int) -> int {
    (if col_included(buf.len() as int, p, w, bpp, c, i) {
        1int
    } else {
        0int
    }) + (if row_included(buf.len() as int, p, w, bpp, c, i) {
        1int
    } else {
        0int
    })
}

/// The sum of the samples contributed by window positions in `[lo, hi)`.
pub open spec fn win_sum(buf: Seq<u8>, p: int, w: int, bpp: int, c: int, lo: int, hi: int) -> int
    decreases hi - lo,
{
    if lo >= hi {
        0
    } else {
        sample_sum(buf, p, w, bpp, c, lo) + win_sum(buf, p, w, bpp, c, lo + 1, hi)
    }
}

/// The number of samples contributed by window positions in `[lo, hi)`.
pub open spec fn win_count(buf: Seq<u8>, p: int, w: int, bpp: int, c: int, lo: int, hi: int) -> int
    decreases hi - lo,
{
    if lo >= hi {
        0
    } else {
        sample_count(buf, p, w, bpp, c, lo) + win_count(buf, p, w, bpp, c, lo + 1, hi)
    }
}

/// Whether computing the neighbor offsets for window position `i` leaves
/// the signed 32-bit range.
pub open spec fn iter_overflow(p: int, w: int, bpp: int, c: int, i: int) -> bool {
    ||| !fits_i32((i + p) * bpp)
    ||| !fits_i32(c + (i + p) * bpp)
    ||| !fits_i32(i * row_len(w, bpp))
    ||| !fits_i32(c + center_index(p, bpp, c) + i * row_len(w, bpp))
}

/// Whether averaging channel `c` of pixel `p` fails with an overflow error:
/// an input that does not fit the signed 32-bit range, a center or row-span
/// offset outside it, an empty row (which makes the row lookup divide by
/// zero), or a neighbor offset outside it at any window position.
pub open spec fn blur_overflow(len: int, p: int, w: int, bpp: int, c: int, r: int) -> bool {
    ||| p > 0x7fff_ffff
    ||| r > 0x7fff_ffff
    ||| c > 0x7fff_ffff
    ||| bpp > 0x7fff_ffff
    ||| w > 0x7fff_ffff
    ||| len > 0x7fff_ffff
    ||| center_index(p, bpp, c) > 0x7fff_ffff
    ||| row_len(w, bpp) > 0x7fff_ffff
    ||| row_len(w, bpp) == 0
    ||| row_base(p, w, bpp, c) + row_len(w, bpp) + c > 0x7fff_ffff
    ||| c + center_index(p, bpp, c) > 0x7fff_ffff
    ||| exists|i: int| -r <= i <= r && iter_overflow(p, w, bpp, c, i)
}

/// How many samples the full window `[-r, r]` contributes.
pub open spec fn blur_count(buf: Seq<u8>, p: int, w: int, bpp: int, c: int, r: int) -> int {
    win_count(buf, p, w, bpp, c, -r, r + 1)
}

/// The sum of the samples the full window `[-r, r]` contributes.
pub open spec fn blur_sum(buf: Seq<u8>, p: int, w: int, bpp: int, c: int, r: int) -> int {
    win_sum(buf, p, w, bpp, c, -r, r + 1)
}

/// The averaged byte: the integer mean of the included samples, or 0 when
/// the window is empty.
pub open spec fn blur_value(buf: Seq<u8>, p: int, w: int, bpp: int, c: int, r: int) -> int {
    if blur_count(buf, p, w, bpp, c, r) == 0 {
        0
    } else {
        blur_sum(buf, p, w, bpp, c, r) / blur_count(buf, p, w, bpp, c, r)
    }
}

/// Extending a window by one position on its high side adds exactly that
/// position's contribution.
proof fn lemma_win_extend(buf: Seq<u8>, p: int, w: int, bpp: int, c: int, lo: int, hi: int)
    requires
        lo <= hi,
    ensures
        win_sum(buf, p, w, bpp, c, lo, hi + 1) == win_sum(buf, p, w, bpp, c, lo, hi) + sample_sum(
            buf,
            p,
            w,
            bpp,
            c,
            hi,
        ),
        win_count(buf, p, w, bpp, c, lo, hi + 1) == win_count(buf, p, w, bpp, c, lo, hi)
            + sample_count(buf, p, w, bpp, c, hi),
    decreases hi - lo,
{
    if lo < hi {
        lemma_win_extend(buf, p, w, bpp, c, lo + 1, hi);
    } else {
        assert(win_sum(buf, p, w, bpp, c, lo + 1, hi + 1) == 0);
        assert(win_count(buf, p, w, bpp, c, lo + 1, hi + 1) == 0);
    }
}

/// A window's sum lies between 0 and 255 times its sample count.
proof fn lemma_win_bounds(buf: Seq<u8>, p: int, w: int, bpp: int, c: int, lo: int, hi: int)
    ensures
        0 <= win_count(buf, p, w, bpp, c, lo, hi),
        0 <= win_sum(buf, p, w, bpp, c, lo, hi),
        win_sum(buf, p, w, bpp, c, lo, hi) <= 255 * win_count(buf, p, w, bpp, c, lo, hi),
    decreases hi - lo,
{
    if lo < hi {
        lemma_win_bounds(buf, p, w, bpp, c, lo + 1, hi);
    }
}

/// The averaged byte always lies in `[0, 255]`: the mean of in-range
/// samples stays in range, and an empty window averages to 0.
pub proof fn lemma_blur_value_in_range(buf: Seq<u8>, p: int, w: int, bpp: int, c: int, r: int)
    ensures
        0 <= blur_value(buf, p, w, bpp, c, r) <= 255,
{
    lemma_win_bounds(buf, p, w, bpp, c, -r, r + 1);
    let n = blur_count(buf, p, w, bpp, c, r);
    let s = blur_sum(buf, p, w, bpp, c, r);
    if n != 0 {
        lemma_div_is_ordered(0, s, n);
        lemma_div_is_ordered(s, 255 * n, n);
        lemma_div_multiples_vanish(255, n);
        assert(255 * n == n * 255);
    }
}

/// Averages channel `channel` of pixel `index_pixel` over the cross-shaped
/// window of half-width `radius`, returning the averaged byte and the byte
/// offset it belongs at. Fails with a message when the radius is zero and
/// with an overflow error exactly when some offset computation leaves the
/// signed 32-bit range; the buffer is never read out of bounds.
#[verifier::loop_isolation(false)]
pub fn blur_rgba(
    buf: &Vec<u8>,
    index_pixel: usize,
    width: usize,
    height: usize,
    byte_per_pixel: usize,
    radius: usize,
    channel: usize,
) -> (res: Result<(u8, usize), Error>)
    requires
        buf@.len() == width * height * byte_per_pixel,
    ensures
        radius == 0 ==> (res matches Err(e) && e matches Error::ErrorValue(m) && m@
            == "Radius cannot be 0"@),
        radius != 0 && blur_overflow(
            buf@.len() as int,
            index_pixel as int,
            width as int,
            byte_per_pixel as int,
            channel as int,
            radius as int,
        ) ==> res == Err::<(u8, usize), Error>(Error::OverflowError),
        radius != 0 && !blur_overflow(
            buf@.len() as int,
            index_pixel as int,
            width as int,
            byte_per_pixel as int,
            channel as int,
            radius as int,
        ) ==> (res matches Ok(t) && t.0 as int == blur_value(
            buf@,
            index_pixel as int,
            width as int,
            byte_per_pixel as int,
            channel as int,
            radius as int,
        ) && t.1 as int == center_index(index_pixel as int, byte_per_pixel as int, channel as int)),
{
    let ghost gp = index_pixel as int;
    let ghost gw = width as int;
    let ghost gbpp = byte_per_pixel as int;
    let ghost gc = channel as int;
    let ghost gr = radius as int;
    let ghost glen = buf@.len() as int;

    if radius == 0 {
        return Err(Error::ErrorValue("Radius cannot be 0".to_owned()));
    }
    if index_pixel > 0x7fff_ffff || radius > 0x7fff_ffff || channel > 0x7fff_ffff
        || byte_per_pixel > 0x7fff_ffff || width > 0x7fff_ffff || buf.len() > 0x7fff_ffff {
        return Err(Error::OverflowError);
    }
    let p = index_pixel as i64;
    let r_i = radius as i64;
    let c = channel as i64;
    let bpp = byte_per_pixel as i64;
    let w = width as i64;
    let len = buf.len() as i64;

    assert(p * bpp <= 0x3fff_ffff_0000_0001 && p * bpp >= 0) by (nonlinear_arith)
        requires
            0 <= p <= 0x7fff_ffff,
            0 <= bpp <= 0x7fff_ffff,
    ;
    let idx = c + p * bpp;
    if idx > 0x7fff_ffff {
        return Err(Error::OverflowError);
    }
    assert(w * bpp <= 0x3fff_ffff_0000_0001 && w * bpp >= 0) by (nonlinear_arith)
        requires
            0 <= w <= 0x7fff_ffff,
            0 <= bpp <= 0x7fff_ffff,
    ;
    let rs = w * bpp;
    if rs > 0x7fff_ffff || rs == 0 {
        return Err(Error::OverflowError);
    }
    let row = idx / rs;
    proof {
        lemma_div_is_ordered_by_denominator(idx as int, 1, rs as int);
        lemma_fundamental_div_mod(idx as int, rs as int);
        vstd::arithmetic::div_mod::lemma_mod_pos_bound(idx as int, rs as int);
    }
    assert(0 <= row && row <= idx) by {
        lemma_div_is_ordered(0, idx as int, rs as int);
    };
    assert(row * rs <= idx && row * rs >= 0) by (nonlinear_arith)
        requires
            idx as int == rs as int * (row as int) + (idx as int % rs as int),
            0 <= idx as int % rs as int,
            row >= 0,
            rs >= 1,
    ;
    let lb = row * rs;
    let left = lb + c;
    let right = lb + rs + c;
    if right > 0x7fff_ffff {
        return Err(Error::OverflowError);
    }
    if c + idx > 0x7fff_ffff {
        return Err(Error::OverflowError);
    }
    assert(lb as int == row_base(gp, gw, gbpp, gc));
    assert(center_index(gp, gbpp, gc) <= 0x7fff_ffff);
    assert(row_len(gw, gbpp) <= 0x7fff_ffff && row_len(gw, gbpp) != 0);
    assert(row_base(gp, gw, gbpp, gc) + row_len(gw, gbpp) + gc <= 0x7fff_ffff);
    assert(gc + center_index(gp, gbpp, gc) <= 0x7fff_ffff);

    let mut i: i64 = -r_i;
    let mut sum: u64 = 0;
    let mut count: u64 = 0;
    while i <= r_i
        invariant
            -r_i <= i <= r_i + 1,
            sum as int == win_sum(buf@, gp, gw, gbpp, gc, -gr, i as int),
            count as int == win_count(buf@, gp, gw, gbpp, gc, -gr, i as int),
            sum <= 255 * count,
            count <= 2 * (i + r_i),
            forall|j: int| -gr <= j < i as int ==> !iter_overflow(gp, gw, gbpp, gc, j),
        decreases r_i + 1 - i,
    {
        let ip = i + p;
        assert(ip * bpp <= 0x7fff_fffe_0000_0002 && ip * bpp >= -0x3fff_ffff_0000_0001) by (
        nonlinear_arith)
            requires
                -0x7fff_ffff <= ip <= 0xffff_fffe,
                0 <= bpp <= 0x7fff_ffff,
        ;
        let colmul = ip * bpp;
        if colmul > 0x7fff_ffff || colmul < -0x8000_0000 {
            proof {
                assert(iter_overflow(gp, gw, gbpp, gc, i as int));
            }
            return Err(Error::OverflowError);
        }
        let icol = c + colmul;
        if icol > 0x7fff_ffff || icol < -0x8000_0000 {
            proof {
                assert(iter_overflow(gp, gw, gbpp, gc, i as int));
            }
            return Err(Error::OverflowError);
        }
        assert(i * rs <= 0x3fff_ffff_0000_0001 && i * rs >= -0x3fff_ffff_0000_0001) by (
        nonlinear_arith)
            requires
                -0x7fff_ffff <= i <= 0x7fff_ffff,
                0 <= rs <= 0x7fff_ffff,
        ;
        let rowmul = i * rs;
        if rowmul > 0x7fff_ffff || rowmul < -0x8000_0000 {
            proof {
                assert(iter_overflow(gp, gw, gbpp, gc, i as int));
            }
            return Err(Error::OverflowError);
        }
        let irow = c + idx + rowmul;
        if irow > 0x7fff_ffff || irow < -0x8000_0000 {
            proof {
                assert(iter_overflow(gp, gw, gbpp, gc, i as int));
            }
            return Err(Error::OverflowError);
        }
        proof {
            assert(!iter_overflow(gp, gw, gbpp, gc, i as int));
        }
        let ghost sum0 = sum;
        let ghost count0 = count;
        if icol >= left && icol < right && left >= 0 && right < len && left < right {
            assert(col_included(glen, gp, gw, gbpp, gc, i as int));
            sum = sum + buf[icol as usize] as u64;
            count = count + 1;
        } else {
            assert(!col_included(glen, gp, gw, gbpp, gc, i as int));
        }
        if irow >= 0 && irow < len {
            assert(row_included(glen, gp, gw, gbpp, gc, i as int));
            sum = sum + buf[irow as usize] as u64;
            count = count + 1;
        } else {
            assert(!row_included(glen, gp, gw, gbpp, gc, i as int));
        }
        proof {
            lemma_win_extend(buf@, gp, gw, gbpp, gc, -gr, i as int);
            assert(sum as int == sum0 as int + sample_sum(buf@, gp, gw, gbpp, gc, i as int));
            assert(count as int == count0 as int + sample_count(buf@, gp, gw, gbpp, gc, i as int));
        }
        i = i + 1;
    }
    proof {
        assert(forall|j: int| -gr <= j <= gr ==> !iter_overflow(gp, gw, gbpp, gc, j));
        assert(!blur_overflow(glen, gp, gw, gbpp, gc, gr));
        assert(count as int == blur_count(buf@, gp, gw, gbpp, gc, gr));
        assert(sum as int == blur_sum(buf@, gp, gw, gbpp, gc, gr));
    }
    let v: u8;
    if count == 0 {
        v = 0;
    } else {
        let q = sum / count;
        proof {
            lemma_div_is_ordered(sum as int, 255 * count as int, count as int);
            lemma_div_multiples_vanish(255, count as int);
            assert(255 * count as int == count as int * 255);
            assert(q <= 255);
        }
        v = q as u8;
    }
    assert(v as int == blur_value(buf@, gp, gw, gbpp, gc, gr));
    Ok((v, idx as usize))
}

/// The buffer after the averaged byte for channel `c` of pixel `p` has been
/// written back, or the buffer unchanged where the computation fails (zero
/// radius or offset overflow) or its target lies outside the buffer.
pub open spec fn blur_write(s: Seq<u8>, w: int, r: int, p: int, c: int) -> Seq<u8> {
    if r > 0 && !blur_overflow(s.len() as int, p, w, 4, c, r) && 0 <= center_index(p, 4, c)
        < s.len() {
        s.update(center_index(p, 4, c), blur_value(s, p, w, 4, c, r) as u8)
    } else {
        s
    }
}

/// The buffer after the first `c` channels of pixel `p` have been averaged
/// and written back in channel order.
pub open spec fn blur_pixel(s: Seq<u8>, w: int, r: int, p: int, c: int) -> Seq<u8>
    decreases c,
{
    if c <= 0 {
        s
    } else {
        blur_write(blur_pixel(s, w, r, p, c - 1), w, r, p, c - 1)
    }
}

/// The buffer after the first `p` pixels have been fully processed in
/// row-major order, each reading the bytes its predecessors already wrote.
pub open spec fn blur_pixels(s: Seq<u8>, w: int, r: int, p: int) -> Seq<u8>
    decreases p,
{
    if p <= 0 {
        s
    } else {
        blur_pixel(blur_pixels(s, w, r, p - 1), w, r, p - 1, 4)
    }
}

/// The buffer after one full blur pass over all `w * h` pixels.
pub open spec fn blur_pass(s: Seq<u8>, w: int, h: int, r: int) -> Seq<u8> {
    blur_pixels(s, w, r, w * h)
}

/// The buffer after `n` full blur passes.
pub open spec fn blur_steps(s: Seq<u8>, w: int, h: int, r: int, n: int) -> Seq<u8>
    decreases n,
{
    if n <= 0 {
        s
    } else {
        blur_pass(blur_steps(s, w, h, r, n - 1), w, h, r)
    }
}

proof fn lemma_blur_pixel_len(s: Seq<u8>, w: int, r: int, p: int, c: int)
    ensures
        blur_pixel(s, w, r, p, c).len() == s.len(),
    decreases c,
{
    if c > 0 {
        lemma_blur_pixel_len(s, w, r, p, c - 1);
    }
}

proof fn lemma_blur_pixels_len(s: Seq<u8>, w: int, r: int, p: int)
    ensures
        blur_pixels(s, w, r, p).len() == s.len(),
    decreases p,
{
    if p > 0 {
        lemma_blur_pixels_len(s, w, r, p - 1);
        lemma_blur_pixel_len(blur_pixels(s, w, r, p - 1), w, r, p - 1, 4);
    }
}

/// The blur never resizes the buffer: any number of passes over any
/// dimensions and radius yields a buffer of the input's length.
pub proof fn lemma_blur_steps_preserves_len(s: Seq<u8>, w: int, h: int, r: int, n: int)
    ensures
        blur_steps(s, w, h, r, n).len() == s.len(),
    decreases n,
{
    if n > 0 {
        lemma_blur_steps_preserves_len(s, w, h, r, n - 1);
        lemma_blur_pixels_len(blur_steps(s, w, h, r, n - 1), w, r, w * h);
    }
}

/// Runs `step` full blur passes of half-width `radius` over the buffer, in
/// row-major pixel order and channel order within each pixel, writing each
/// averaged byte back before the next byte is computed.
#[verifier::loop_isolation(false)]
pub fn apply_blur(buf: &mut Vec<u8>, width: usize, height: usize, radius: usize, step: usize)
    requires
        old(buf)@.len() == width * height * 4,
        width >= 1,
        height >= 1,
        radius >= 1,
        step >= 1,
    ensures
        final(buf)@ == blur_steps(
            old(buf)@,
            width as int,
            height as int,
            radius as int,
            step as int,
        ),
        final(buf)@.len() == old(buf)@.len(),
{
    let ghost gw = width as int;
    let ghost gh = height as int;
    let ghost grr = radius as int;
    let ghost s0 = old(buf)@;
    let total = buf.len();
    proof {
        assert(gw * gh <= gw * gh * 4) by (nonlinear_arith)
            requires
                gw >= 0,
                gh >= 0,
        ;
        assert(gw * gh <= total as int);
    }
    let len_image = width * height;
    let mut pass: usize = 0;
    while pass < step
        invariant
            pass <= step,
            buf@ == blur_steps(s0, gw, gh, grr, pass as int),
            buf@.len() == s0.len(),
        decreases step - pass,
    {
        let ghost sp = buf@;
        let mut p: usize = 0;
        while p < len_image
            invariant
                p <= len_image,
                buf@ == blur_pixels(sp, gw, grr, p as int),
                buf@.len() == s0.len(),
                sp == blur_steps(s0, gw, gh, grr, pass as int),
            decreases len_image - p,
        {
            let ghost spx = buf@;
            let mut ch: usize = 0;
            while ch < 4
                invariant
                    ch <= 4,
                    buf@ == blur_pixel(spx, gw, grr, p as int, ch as int),
                    buf@.len() == s0.len(),
                    spx == blur_pixels(sp, gw, grr, p as int),
                decreases 4 - ch,
            {
                let ghost sc = buf@;
                let res = blur_rgba(buf, p, width, height, 4, radius, ch);
                match res {
                    Ok(t) => {
                        let (v, idx) = t;
                        proof {
                            assert(4 * (p as int) + (ch as int) < 4 * (len_image as int));
                            lemma_blur_value_in_range(sc, p as int, gw, 4, ch as int, grr);
                        }
                        let end = buf.len();
                        assert(idx < end);
                        buf[idx] = v;
                        proof {
                            assert(buf@ == sc.update(
                                center_index(p as int, 4, ch as int),
                                blur_value(sc, p as int, gw, 4, ch as int, grr) as u8,
                            ));
                            assert(buf@ == blur_write(sc, gw, grr, p as int, ch as int));
                        }
                    },
                    Err(_) => {
                        proof {
                            assert(blur_overflow(
                                sc.len() as int,
                                p as int,
                                gw,
                                4,
                                ch as int,
                                grr,
                            ));
                            assert(buf@ == blur_write(sc, gw, grr, p as int, ch as int));
                        }
                    },
                }
                ch = ch + 1;
                proof {
                    assert(buf@ == blur_pixel(spx, gw, grr, p as int, ch as int));
                }
            }
            p = p + 1;
            proof {
                assert(buf@ == blur_pixels(sp, gw, grr, p as int));
            }
        }
        pass = pass + 1;
        proof {
            assert(len_image as int == gw * gh);
            assert(buf@ == blur_pass(sp, gw, gh, grr));
            assert(buf@ == blur_steps(s0, gw, gh, grr, pass as int));
        }
    }
}

/// The validation preamble the blur entry point runs before touching any
/// memory, in order: a missing configuration pointer, undecodable
/// configuration text, a missing buffer, a zero dimension, and a
/// non-positive radius or pass count each end the call with an error
/// before any pixel is read.
pub fn preamble(width: u32, height: u32, buffer_is_null: bool, params: Option<&str>) -> (res:
    Result<BlurConfig, Error>)
    ensures
        (res == Err::<BlurConfig, Error>(Error::NullPointerParams)) <==> params is None,
        params matches Some(s) ==> (match blur_decode(s@) {
            Err(e) => res == Err::<BlurConfig, Error>(Error::ParamsAreNotValidJSON(e)),
            Ok((br, bs, bl)) => {
                if buffer_is_null {
                    res matches Err(e) && e is NullPointerRGBABuffer
                } else if width == 0 {
                    res matches Err(e) && e matches Error::ErrorValue(m) && m@
                        == "width cannot be 0"@
                } else if height == 0 {
                    res matches Err(e) && e matches Error::ErrorValue(m) && m@
                        == "height cannot be 0"@
                } else if br == 0 {
                    res matches Err(e) && e matches Error::ErrorValue(m) && m@
                        == "Radius cannot be 0"@
                } else if bs == 0 {
                    res matches Err(e) && e matches Error::ErrorValue(m) && m@
                        == "Step cannot be 0"@
                } else {
                    res matches Ok(cfg) && cfg.radius == br && cfg.step == bs && (match cfg
                        .log_level {
                        Some(t) => bl == Some(t@),
                        None => bl is None,
                    })
                }
            },
        }),
        res matches Ok(cfg) ==> ({
            &&& !buffer_is_null
            &&& width >= 1
            &&& height >= 1
            &&& cfg.radius >= 1
            &&& cfg.step >= 1
            &&& params is Some
        }),
        buffer_is_null ==> res is Err,
        width == 0 ==> res is Err,
        height == 0 ==> res is Err,
        (res matches Err(e) && e is NullPointerRGBABuffer) ==> buffer_is_null,
{
    let s = match params {
        Some(s) => s,
        None => { return Err(Error::NullPointerParams) },
    };
    let reader = match ConfigReader::<BlurConfig>::try_from(s) {
        Ok(rd) => rd,
        Err(e) => { return Err(e) },
    };
    let cfg = reader.config;
    if buffer_is_null {
        return Err(Error::NullPointerRGBABuffer);
    }
    if width == 0 {
        return Err(Error::ErrorValue("width cannot be 0".to_owned()));
    }
    if height == 0 {
        return Err(Error::ErrorValue("height cannot be 0".to_owned()));
    }
    if cfg.radius == 0 {
        return Err(Error::ErrorValue("Radius cannot be 0".to_owned()));
    }
    if cfg.step == 0 {
        return Err(Error::ErrorValue("Step cannot be 0".to_owned()));
    }
    Ok(cfg)
}

/// The blur plugin's entry point over safe arguments: validates the
/// arguments, decodes the configuration, checks that the buffer's length
/// matches the declared dimensions, and runs the blur in place. On every
/// failure the buffer is left byte-for-byte unchanged; on success the
/// decoded configuration is returned beside the transformed buffer.
pub fn process_image(width: u32, height: u32, rgba_data: &mut Vec<u8>, params: Option<&str>) -> (res:
    Result<BlurConfig, Error>)
    ensures
        res is Err ==> final(rgba_data)@ == old(rgba_data)@,
        final(rgba_data)@.len() == old(rgba_data)@.len(),
        (res == Err::<BlurConfig, Error>(Error::NullPointerParams)) <==> params is None,
        width == 0 ==> res is Err,
        height == 0 ==> res is Err,
        params matches Some(s) ==> (match blur_decode(s@) {
            Err(e) => res == Err::<BlurConfig, Error>(Error::ParamsAreNotValidJSON(e)),
            Ok(t) => (t.0 >= 1 && t.1 >= 1 && width >= 1 && height >= 1 && old(rgba_data)@.len()
                == width * height * 4) ==> (res matches Ok(cfg) && cfg.radius == t.0 && cfg.step
                == t.1 && final(rgba_data)@ == blur_steps(
                old(rgba_data)@,
                width as int,
                height as int,
                t.0 as int,
                t.1 as int,
            )),
        }),
        res matches Ok(cfg) ==> ({
            &&& width >= 1
            &&& height >= 1
            &&& cfg.radius >= 1
            &&& cfg.step >= 1
            &&& old(rgba_data)@.len() == width as int * height as int * 4
            &&& final(rgba_data)@ == blur_steps(
                old(rgba_data)@,
                width as int,
                height as int,
                cfg.radius as int,
                cfg.step as int,
            )
        }),
{
    let cfg = match preamble(width, height, false, params) {
        Ok(c) => c,
        Err(e) => { return Err(e) },
    };
    let n = rgba_data.len();
    let w = width as usize;
    let h = height as usize;
    proof {
        assert(w as int * (h as int) <= w as int * (h as int) * 4) by (nonlinear_arith)
            requires
                w >= 0,
                h >= 0,
        ;
    }
    let len_image = match w.checked_mul(h) {
        Some(l) => l,
        None => { return Err(Error::ErrorValue("Length calculation failed".to_owned())) },
    };
    let len_in_pixel = match len_image.checked_mul(4) {
        Some(l) => l,
        None => { return Err(Error::ErrorValue("Length calculation failed".to_owned())) },
    };
    if rgba_data.len() != len_in_pixel {
        return Err(Error::ErrorValue("Buffer length does not match dimensions".to_owned()));
    }
    apply_blur(rgba_data, w, h, cfg.radius, cfg.step);
    Ok(cfg)
}

} // verus!
