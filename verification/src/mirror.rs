//! The mirror flip engine: in-place vertical and horizontal reflection of a
//! flat RGBA buffer.
//!
//! A vertical flip exchanges whole byte rows top-for-bottom; a horizontal
//! flip exchanges whole 4-byte pixels left-for-right within each row. Both
//! are pure permutations of the buffer's bytes, performed as disjoint
//! swaps, and both are involutions.

use vstd::arithmetic::div_mod::{
    lemma_fundamental_div_mod, lemma_fundamental_div_mod_converse, lemma_mod_pos_bound,
};
use vstd::prelude::*;

use crate::config::{mirror_decode, ConfigReader, MirrorConfig};
use crate::error::Error;

verus! {

/// The row a byte offset belongs to, for rows of `w` 4-byte pixels.
pub open spec fn byte_row(k: int, w: int) -> int {
    k / (4 * w)
}

/// Where the byte at offset `k` of a vertically flipped buffer comes from:
/// the same offset within the row mirrored about the horizontal middle.
pub open spec fn vflip_src(k: int, w: int, h: int) -> int {
    let rs = 4 * w;
    let y = k / rs;
    let d = k % rs;
    (h - 1 - y) * rs + d
}

/// A buffer of `h` rows of `w` pixels with its rows exchanged
/// top-for-bottom.
pub open spec fn vflip(s: Seq<u8>, w: int, h: int) -> Seq<u8> {
    Seq::new(s.len(), |k: int| s[vflip_src(k, w, h)])
}

/// Where the byte at offset `k` of a horizontally flipped buffer comes
/// from: the same channel of the pixel mirrored about the row's middle.
pub open spec fn hflip_src(k: int, w: int) -> int {
    let rs = 4 * w;
    let y = k / rs;
    let d = k % rs;
    let x = d / 4;
    let c = d % 4;
    y * rs + (w - 1 - x) * 4 + c
}

/// A buffer of rows of `w` pixels with each row's pixels exchanged
/// left-for-right.
pub open spec fn hflip(s: Seq<u8>, w: int) -> Seq<u8> {
    Seq::new(s.len(), |k: int| s[hflip_src(k, w)])
}

/// A buffer after the requested combination of flips: the vertical one
/// first, then the horizontal one, as the mirror transform applies them.
pub open spec fn mirrored(s: Seq<u8>, w: int, h: int, vertical: bool, horizontal: bool) -> Seq<
    u8,
> {
    let s1 = if vertical {
        vflip(s, w, h)
    } else {
        s
    };
    if horizontal {
        hflip(s1, w)
    } else {
        s1
    }
}

/// Splits a byte offset into its row and its offset within the row.
proof fn lemma_row_decomp(k: int, w: int, h: int)
    requires
        w >= 1,
        0 <= k < 4 * w * h,
    ensures
        ({
            let rs = 4 * w;
            let y = k / rs;
            let d = k % rs;
            &&& k == y * rs + d
            &&& 0 <= d < rs
            &&& 0 <= y < h
        }),
{
    let rs = 4 * w;
    lemma_fundamental_div_mod(k, rs);
    lemma_mod_pos_bound(k, rs);
    let y = k / rs;
    let d = k % rs;
    assert(0 <= y && y < h) by (nonlinear_arith)
        requires
            k == rs * y + d,
            0 <= d < rs,
            0 <= k < rs * h,
            rs >= 4,
    ;
}

/// Rebuilds a byte offset from a row and an offset within the row, and
/// shows the division that [`lemma_row_decomp`] performs inverts it.
proof fn lemma_row_comp(w: int, h: int, y: int, d: int)
    requires
        w >= 1,
        0 <= y < h,
        0 <= d < 4 * w,
    ensures
        ({
            let rs = 4 * w;
            let k = y * rs + d;
            &&& 0 <= k < 4 * w * h
            &&& k / rs == y
            &&& k % rs == d
        }),
{
    let rs = 4 * w;
    let k = y * rs + d;
    assert(0 <= k && k < rs * h) by (nonlinear_arith)
        requires
            k == y * rs + d,
            0 <= y < h,
            0 <= d < rs,
            rs >= 4,
    ;
    lemma_fundamental_div_mod_converse(k, rs, y, d);
}

/// Splits an offset within a row into its pixel column and its channel.
proof fn lemma_pix_decomp(d: int, w: int)
    requires
        w >= 1,
        0 <= d < 4 * w,
    ensures
        ({
            let x = d / 4;
            let c = d % 4;
            &&& d == x * 4 + c
            &&& 0 <= c < 4
            &&& 0 <= x < w
        }),
{
    lemma_fundamental_div_mod(d, 4);
    lemma_mod_pos_bound(d, 4);
    let x = d / 4;
    let c = d % 4;
    assert(0 <= x && x < w) by (nonlinear_arith)
        requires
            d == 4 * x + c,
            0 <= c < 4,
            0 <= d < 4 * w,
    ;
}

/// Rebuilds an offset within a row from a pixel column and a channel, and
/// shows the division that [`lemma_pix_decomp`] performs inverts it.
proof fn lemma_pix_comp(w: int, x: int, c: int)
    requires
        w >= 1,
        0 <= x < w,
        0 <= c < 4,
    ensures
        ({
            let d = x * 4 + c;
            &&& 0 <= d < 4 * w
            &&& d / 4 == x
            &&& d % 4 == c
        }),
{
    let d = x * 4 + c;
    assert(0 <= d && d < 4 * w) by (nonlinear_arith)
        requires
            d == x * 4 + c,
            0 <= x < w,
            0 <= c < 4,
    ;
    lemma_fundamental_div_mod_converse(d, 4, x, c);
}

/// The vertical source map stays inside the buffer and is its own inverse.
proof fn lemma_vflip_src_involution(k: int, w: int, h: int)
    requires
        w >= 1,
        h >= 1,
        0 <= k < 4 * w * h,
    ensures
        0 <= vflip_src(k, w, h) < 4 * w * h,
        vflip_src(vflip_src(k, w, h), w, h) == k,
{
    let rs = 4 * w;
    lemma_row_decomp(k, w, h);
    let y = k / rs;
    let d = k % rs;
    lemma_row_comp(w, h, h - 1 - y, d);
}

/// The horizontal source map stays inside the buffer, stays inside its own
/// row, and is its own inverse.
proof fn lemma_hflip_src_involution(k: int, w: int, h: int)
    requires
        w >= 1,
        h >= 1,
        0 <= k < 4 * w * h,
    ensures
        0 <= hflip_src(k, w) < 4 * w * h,
        hflip_src(k, w) / (4 * w) == k / (4 * w),
        hflip_src(hflip_src(k, w), w) == k,
{
    let rs = 4 * w;
    lemma_row_decomp(k, w, h);
    let y = k / rs;
    let d = k % rs;
    lemma_pix_decomp(d, w);
    let x = d / 4;
    let c = d % 4;
    lemma_pix_comp(w, w - 1 - x, c);
    lemma_row_comp(w, h, y, (w - 1 - x) * 4 + c);
}

/// Flipping vertically twice returns every byte to its place.
pub proof fn lemma_vflip_involution(s: Seq<u8>, w: int, h: int)
    requires
        w >= 1,
        h >= 1,
        s.len() == 4 * w * h,
    ensures
        vflip(vflip(s, w, h), w, h) == s,
{
    let t = vflip(s, w, h);
    let u = vflip(t, w, h);
    assert forall|k: int| 0 <= k < s.len() implies u[k] == s[k] by {
        lemma_vflip_src_involution(k, w, h);
        lemma_vflip_src_involution(vflip_src(k, w, h), w, h);
    }
    assert(u =~= s);
}

/// Flipping horizontally twice returns every byte to its place.
pub proof fn lemma_hflip_involution(s: Seq<u8>, w: int, h: int)
    requires
        w >= 1,
        h >= 1,
        s.len() == 4 * w * h,
    ensures
        hflip(hflip(s, w), w) == s,
{
    let t = hflip(s, w);
    let u = hflip(t, w);
    assert forall|k: int| 0 <= k < s.len() implies u[k] == s[k] by {
        lemma_hflip_src_involution(k, w, h);
        lemma_hflip_src_involution(hflip_src(k, w), w, h);
    }
    assert(u =~= s);
}

/// The two flips commute: flipping vertically then horizontally gives the
/// same buffer as flipping horizontally then vertically.
pub proof fn lemma_flip_order_commutes(s: Seq<u8>, w: int, h: int)
    requires
        w >= 1,
        h >= 1,
        s.len() == 4 * w * h,
    ensures
        hflip(vflip(s, w, h), w) == vflip(hflip(s, w), w, h),
{
    let rs = 4 * w;
    let vh = hflip(vflip(s, w, h), w);
    let hv = vflip(hflip(s, w), w, h);
    assert forall|k: int| 0 <= k < s.len() implies vh[k] == hv[k] by {
        lemma_row_decomp(k, w, h);
        let y = k / rs;
        let d = k % rs;
        lemma_pix_decomp(d, w);
        let x = d / 4;
        let c = d % 4;
        // vh[k] reads the vertical flip at the horizontally mirrored offset.
        lemma_hflip_src_involution(k, w, h);
        lemma_pix_comp(w, w - 1 - x, c);
        lemma_row_comp(w, h, y, (w - 1 - x) * 4 + c);
        lemma_vflip_src_involution(hflip_src(k, w), w, h);
        lemma_row_comp(w, h, h - 1 - y, (w - 1 - x) * 4 + c);
        // hv[k] reads the horizontal flip at the vertically mirrored offset.
        lemma_vflip_src_involution(k, w, h);
        lemma_row_comp(w, h, h - 1 - y, d);
        lemma_hflip_src_involution(vflip_src(k, w, h), w, h);
        assert(vh[k] == s[(h - 1 - y) * rs + (w - 1 - x) * 4 + c]);
        assert(hv[k] == s[(h - 1 - y) * rs + (w - 1 - x) * 4 + c]);
    }
    assert(vh =~= hv);
}

/// The mirror never resizes the buffer: any combination of flips yields a
/// buffer of the input's length.
pub proof fn lemma_mirrored_preserves_len(s: Seq<u8>, w: int, h: int, vertical: bool, horizontal: bool)
    ensures
        mirrored(s, w, h, vertical, horizontal).len() == s.len(),
{
}

/// Exchanges the byte ranges `[a, a + n)` and `[b, b + n)`, which must be
/// disjoint, leaving every other byte in place.
#[verifier::loop_isolation(false)]
fn swap_range(buf: &mut Vec<u8>, a: usize, b: usize, n: usize)
    requires
        a + n <= old(buf)@.len(),
        b + n <= old(buf)@.len(),
        a + n <= b || b + n <= a,
    ensures
        final(buf)@.len() == old(buf)@.len(),
        forall|k: int|
            0 <= k < old(buf)@.len() ==> #[trigger] final(buf)@[k] == (if a as int <= k < a as int
                + n as int {
                old(buf)@[b as int + (k - a as int)]
            } else if b as int <= k < b as int + n as int {
                old(buf)@[a as int + (k - b as int)]
            } else {
                old(buf)@[k]
            }),
{
    let ghost s0 = old(buf)@;
    let total = buf.len();
    let mut j: usize = 0;
    while j < n
        invariant
            j <= n,
            buf@.len() == s0.len(),
            forall|k: int|
                0 <= k < s0.len() ==> #[trigger] buf@[k] == (if a as int <= k < a as int + j as int {
                    s0[b as int + (k - a as int)]
                } else if b as int <= k < b as int + j as int {
                    s0[a as int + (k - b as int)]
                } else {
                    s0[k]
                }),
        decreases n - j,
    {
        assert(a + j < total && b + j < total);
        let x = buf[a + j];
        let y = buf[b + j];
        buf[a + j] = y;
        buf[b + j] = x;
        j = j + 1;
    }
}

/// Exchanges whole byte rows top-for-bottom, in place, by disjoint
/// range swaps; an odd height leaves the middle row untouched.
#[verifier::loop_isolation(false)]
pub fn flip_vertical(buf: &mut Vec<u8>, width: usize, height: usize)
    requires
        old(buf)@.len() == width * height * 4,
        width >= 1,
        height >= 1,
    ensures
        final(buf)@ == vflip(old(buf)@, width as int, height as int),
        final(buf)@.len() == old(buf)@.len(),
{
    let ghost gw = width as int;
    let ghost gh = height as int;
    let ghost s0 = old(buf)@;
    let ghost rs_g = 4 * gw;
    let total = buf.len();
    proof {
        assert(total as int == 4 * gw * gh && gh * rs_g == total as int && rs_g <= total as int)
            by (nonlinear_arith)
            requires
                total as int == gw * gh * 4,
                rs_g == 4 * gw,
                gw >= 1,
                gh >= 1,
        ;
        assert forall|k: int| 0 <= k < s0.len() implies 0 <= #[trigger] byte_row(k, gw) <= gh
            - 1 by {
            lemma_row_decomp(k, gw, gh);
        }
    }
    let rs = width * 4;
    let half = height / 2;
    let mut i: usize = 0;
    while i < half
        invariant
            i <= half,
            buf@.len() == s0.len(),
            forall|k: int|
                0 <= k < s0.len() ==> #[trigger] buf@[k] == (if byte_row(k, gw) < i as int
                    || byte_row(k, gw) > gh - 1 - i as int {
                    s0[vflip_src(k, gw, gh)]
                } else {
                    s0[k]
                }),
        decreases half - i,
    {
        let ghost si = buf@;
        let ghost gi = i as int;
        proof {
            lemma_fundamental_div_mod(gh, 2);
            assert(gi * rs_g + rs_g <= (gh - 1 - gi) * rs_g && (gh - 1 - gi) * rs_g + rs_g <= gh
                * rs_g) by (nonlinear_arith)
                requires
                    rs_g >= 4,
                    0 <= gi,
                    2 * gi + 2 <= gh,
            ;
        }
        let top = i * rs;
        let bot = (height - 1 - i) * rs;
        proof {
            assert(top as int == gi * rs_g && bot as int == (gh - 1 - gi) * rs_g);
        }
        swap_range(buf, top, bot, rs);
        i = i + 1;
        proof {
            assert forall|k: int| 0 <= k < s0.len() implies buf@[k] == (if byte_row(k, gw)
                < i as int || byte_row(k, gw) > gh - 1 - i as int {
                s0[vflip_src(k, gw, gh)]
            } else {
                s0[k]
            }) by {
                lemma_row_decomp(k, gw, gh);
                let y = byte_row(k, gw);
                let d = k % rs_g;
                lemma_row_comp(gw, gh, gh - 1 - y, d);
                assert(k == y * rs_g + d);
                if y == gi {
                    assert(k == top as int + d);
                    assert(buf@[k] == si[bot as int + d]);
                    assert(byte_row(bot as int + d, gw) == gh - 1 - gi);
                    assert(si[bot as int + d] == s0[bot as int + d]);
                    assert(vflip_src(k, gw, gh) == bot as int + d);
                } else if y == gh - 1 - gi {
                    assert(k == bot as int + d);
                    assert(buf@[k] == si[top as int + d]);
                    assert(byte_row(top as int + d, gw) == gi);
                    assert(si[top as int + d] == s0[top as int + d]);
                    assert(vflip_src(k, gw, gh) == top as int + d);
                } else {
                    assert(!(top as int <= k < top as int + rs_g) && !(bot as int <= k < bot as int
                        + rs_g)) by (nonlinear_arith)
                        requires
                            k == y * rs_g + d,
                            0 <= d < rs_g,
                            y != gi,
                            y != gh - 1 - gi,
                            top as int == gi * rs_g,
                            bot as int == (gh - 1 - gi) * rs_g,
                            rs_g >= 4,
                    ;
                    assert(buf@[k] == si[k]);
                }
            }
        }
    }
    proof {
        lemma_fundamental_div_mod(gh, 2);
        assert forall|k: int| 0 <= k < s0.len() implies buf@[k] == vflip(s0, gw, gh)[k] by {
            lemma_row_decomp(k, gw, gh);
            let y = byte_row(k, gw);
            let d = k % rs_g;
            if half as int <= y <= gh - 1 - half as int {
                assert(y == gh - 1 - y);
                lemma_row_comp(gw, gh, gh - 1 - y, d);
                assert(vflip_src(k, gw, gh) == k);
            }
        }
        assert(buf@ =~= vflip(s0, gw, gh));
    }
}

/// Exchanges each row's pixels left-for-right, in place, by disjoint
/// 4-byte range swaps; an odd width leaves each row's middle pixel
/// untouched.
#[verifier::loop_isolation(false)]
pub fn flip_horizontal(buf: &mut Vec<u8>, width: usize, height: usize)
    requires
        old(buf)@.len() == width * height * 4,
        width >= 1,
        height >= 1,
    ensures
        final(buf)@ == hflip(old(buf)@, width as int),
        final(buf)@.len() == old(buf)@.len(),
{
    let ghost gw = width as int;
    let ghost gh = height as int;
    let ghost s0 = old(buf)@;
    let ghost rs_g = 4 * gw;
    let total = buf.len();
    proof {
        assert(total as int == 4 * gw * gh && gh * rs_g == total as int && rs_g <= total as int)
            by (nonlinear_arith)
            requires
                total as int == gw * gh * 4,
                rs_g == 4 * gw,
                gw >= 1,
                gh >= 1,
        ;
    }
    let rs = width * 4;
    let half = width / 2;
    let mut y: usize = 0;
    while y < height
        invariant
            y <= height,
            buf@.len() == s0.len(),
            forall|k: int|
                0 <= k < s0.len() ==> #[trigger] buf@[k] == (if byte_row(k, gw) < y as int {
                    s0[hflip_src(k, gw)]
                } else {
                    s0[k]
                }),
        decreases height - y,
    {
        let ghost sy = buf@;
        let ghost gy = y as int;
        proof {
            assert(gy * rs_g + rs_g <= gh * rs_g) by (nonlinear_arith)
                requires
                    rs_g >= 4,
                    0 <= gy < gh,
            ;
            assert forall|k: int| 0 <= k < s0.len() implies ({
                let d2 = k - #[trigger] byte_row(k, gw) * rs_g;
                &&& 0 <= byte_row(k, gw) <= gh - 1
                &&& 0 <= d2 < rs_g
                &&& 0 <= d2 / 4 <= gw - 1
            }) by {
                lemma_row_decomp(k, gw, gh);
                lemma_pix_decomp(k % rs_g, gw);
                assert(k % rs_g == k - byte_row(k, gw) * rs_g);
            }
        }
        let row_start = y * rs;
        let mut x: usize = 0;
        while x < half
            invariant
                x <= half,
                buf@.len() == s0.len(),
                row_start as int == gy * rs_g,
                forall|k: int|
                    0 <= k < s0.len() ==> #[trigger] buf@[k] == (if byte_row(k, gw) == gy && ((k
                        - gy * rs_g) / 4 < x as int || (k - gy * rs_g) / 4 > gw - 1 - x as int) {
                        sy[hflip_src(k, gw)]
                    } else {
                        sy[k]
                    }),
            decreases half - x,
        {
            let ghost sx = buf@;
            let ghost gx = x as int;
            proof {
                lemma_fundamental_div_mod(gw, 2);
                assert(2 * gx + 2 <= gw);
                assert(gx * 4 + 4 <= (gw - 1 - gx) * 4 && (gw - 1 - gx) * 4 + 4 <= rs_g) by (
                nonlinear_arith)
                    requires
                        0 <= gx,
                        2 * gx + 2 <= gw,
                        rs_g == 4 * gw,
                ;
                assert(row_start as int + rs_g <= total as int);
            }
            let li = row_start + x * 4;
            let ri = row_start + (width - 1 - x) * 4;
            proof {
                assert(li as int == gy * rs_g + gx * 4);
                assert(ri as int == gy * rs_g + (gw - 1 - gx) * 4);
            }
            swap_range(buf, li, ri, 4);
            x = x + 1;
            proof {
                assert forall|k: int| 0 <= k < s0.len() implies buf@[k] == (if byte_row(k, gw)
                    == gy && ((k - gy * rs_g) / 4 < x as int || (k - gy * rs_g) / 4 > gw - 1
                    - x as int) {
                    sy[hflip_src(k, gw)]
                } else {
                    sy[k]
                }) by {
                    lemma_row_decomp(k, gw, gh);
                    let yy = byte_row(k, gw);
                    let d = k % rs_g;
                    lemma_pix_decomp(d, gw);
                    let px = d / 4;
                    let c = d % 4;
                    lemma_pix_comp(gw, gw - 1 - px, c);
                    lemma_row_comp(gw, gh, yy, (gw - 1 - px) * 4 + c);
                    if yy == gy && px == gx {
                        assert(k == li as int + c);
                        assert(buf@[k] == sx[ri as int + c]);
                        assert(ri as int + c == gy * rs_g + (gw - 1 - gx) * 4 + c);
                        assert((ri as int + c - gy * rs_g) / 4 == gw - 1 - gx);
                        assert(sx[ri as int + c] == sy[ri as int + c]);
                        assert(hflip_src(k, gw) == ri as int + c);
                    } else if yy == gy && px == gw - 1 - gx {
                        assert(k == ri as int + c);
                        assert(buf@[k] == sx[li as int + c]);
                        assert(li as int + c == gy * rs_g + gx * 4 + c);
                        assert((li as int + c - gy * rs_g) / 4 == gx);
                        assert(sx[li as int + c] == sy[li as int + c]);
                        assert(hflip_src(k, gw) == li as int + c);
                    } else {
                        assert(!(li as int <= k < li as int + 4) && !(ri as int <= k < ri as int
                            + 4)) by (nonlinear_arith)
                            requires
                                k == yy * rs_g + d,
                                d == px * 4 + c,
                                0 <= d < rs_g,
                                0 <= c < 4,
                                0 <= px,
                                !(yy == gy && px == gx),
                                !(yy == gy && px == gw - 1 - gx),
                                li as int == gy * rs_g + gx * 4,
                                ri as int == gy * rs_g + (gw - 1 - gx) * 4,
                                rs_g == 4 * gw,
                                0 <= gx,
                                2 * gx + 2 <= gw,
                        ;
                        assert(buf@[k] == sx[k]);
                    }
                }
            }
        }
        y = y + 1;
        proof {
            lemma_fundamental_div_mod(gw, 2);
            assert forall|k: int| 0 <= k < s0.len() implies buf@[k] == (if byte_row(k, gw)
                < y as int {
                s0[hflip_src(k, gw)]
            } else {
                s0[k]
            }) by {
                lemma_row_decomp(k, gw, gh);
                let yy = byte_row(k, gw);
                let d = k % rs_g;
                lemma_pix_decomp(d, gw);
                let px = d / 4;
                let c = d % 4;
                lemma_pix_comp(gw, gw - 1 - px, c);
                lemma_row_comp(gw, gh, yy, (gw - 1 - px) * 4 + c);
                if yy == gy {
                    assert(hflip_src(k, gw) == gy * rs_g + (gw - 1 - px) * 4 + c);
                    assert(byte_row(hflip_src(k, gw), gw) == gy);
                    if half as int <= px <= gw - 1 - half as int {
                        assert(px == gw - 1 - px);
                        assert(hflip_src(k, gw) == k);
                        assert(buf@[k] == sy[k]);
                        assert(sy[hflip_src(k, gw)] == sy[k]);
                    } else {
                        assert(buf@[k] == sy[hflip_src(k, gw)]);
                    }
                    assert(sy[hflip_src(k, gw)] == s0[hflip_src(k, gw)]);
                    assert(buf@[k] == s0[hflip_src(k, gw)]);
                }
            }
        }
    }
    proof {
        assert forall|k: int| 0 <= k < s0.len() implies buf@[k] == hflip(s0, gw)[k] by {
            lemma_row_decomp(k, gw, gh);
        }
        assert(buf@ =~= hflip(s0, gw));
    }
}

/// Applies the requested combination of flips in place: the vertical one
/// first, then the horizontal one.
pub fn apply_mirror(buf: &mut Vec<u8>, width: usize, height: usize, vertical: bool, horizontal: bool)
    requires
        old(buf)@.len() == width * height * 4,
        width >= 1,
        height >= 1,
    ensures
        final(buf)@ == mirrored(old(buf)@, width as int, height as int, vertical, horizontal),
        final(buf)@.len() == old(buf)@.len(),
{
    if vertical {
        flip_vertical(buf, width, height);
    }
    if horizontal {
        flip_horizontal(buf, width, height);
    }
}

/// The validation preamble the mirror entry point runs before touching any
/// memory, in order: a missing configuration pointer, undecodable
/// configuration text, a missing buffer, and a zero dimension each end the
/// call with an error before any pixel is read.
pub fn preamble(width: u32, height: u32, buffer_is_null: bool, params: Option<&str>) -> (res:
    Result<MirrorConfig, Error>)
    ensures
        (res == Err::<MirrorConfig, Error>(Error::NullPointerParams)) <==> params is None,
        params matches Some(s) ==> (match mirror_decode(s@) {
            Err(e) => res == Err::<MirrorConfig, Error>(Error::ParamsAreNotValidJSON(e)),
            Ok((mv, mh, ml)) => {
                if buffer_is_null {
                    res matches Err(e) && e is NullPointerRGBABuffer
                } else if width == 0 {
                    res matches Err(e) && e matches Error::ErrorValue(m) && m@
                        == "width cannot be 0"@
                } else if height == 0 {
                    res matches Err(e) && e matches Error::ErrorValue(m) && m@
                        == "height cannot be 0"@
                } else {
                    res matches Ok(cfg) && cfg.vertical_flip == mv && cfg.horizontal_flip == mh
                        && (match cfg.log_level {
                        Some(t) => ml == Some(t@),
                        None => ml is None,
                    })
                }
            },
        }),
        res matches Ok(cfg) ==> ({
            &&& !buffer_is_null
            &&& width >= 1
            &&& height >= 1
            &&& params is Some
        }),
        buffer_is_null ==> res is Err,
        width == 0 ==> res is Err,
        height == 0 ==> res is Err,
        (res matches Err(e) && e is NullPointerRGBABuffer) ==> buffer_is_null,
{
    let s = match params {
        Some(s) => s,
        None => { return Err(Error::NullPointerParams) },
    };
    let reader = match ConfigReader::<MirrorConfig>::try_from(s) {
        Ok(rd) => rd,
        Err(e) => { return Err(e) },
    };
    let cfg = reader.config;
    if buffer_is_null {
        return Err(Error::NullPointerRGBABuffer);
    }
    if width == 0 {
        return Err(Error::ErrorValue("width cannot be 0".to_owned()));
    }
    if height == 0 {
        return Err(Error::ErrorValue("height cannot be 0".to_owned()));
    }
    Ok(cfg)
}

/// The mirror plugin's entry point over safe arguments: validates the
/// arguments, decodes the configuration, checks that the buffer's length
/// matches the declared dimensions, and applies the requested flips in
/// place. On every failure the buffer is left byte-for-byte unchanged; on
/// success the decoded configuration is returned beside the transformed
/// buffer.
pub fn process_image(width: u32, height: u32, rgba_data: &mut Vec<u8>, params: Option<&str>) -> (res:
    Result<MirrorConfig, Error>)
    ensures
        res is Err ==> final(rgba_data)@ == old(rgba_data)@,
        final(rgba_data)@.len() == old(rgba_data)@.len(),
        (res == Err::<MirrorConfig, Error>(Error::NullPointerParams)) <==> params is None,
        width == 0 ==> res is Err,
        height == 0 ==> res is Err,
        params matches Some(s) ==> (match mirror_decode(s@) {
            Err(e) => res == Err::<MirrorConfig, Error>(Error::ParamsAreNotValidJSON(e)),
            Ok(t) => (width >= 1 && height >= 1 && old(rgba_data)@.len() == width * height
                * 4) ==> (res matches Ok(cfg) && cfg.vertical_flip == t.0 && cfg.horizontal_flip
                == t.1 && final(rgba_data)@ == mirrored(
                old(rgba_data)@,
                width as int,
                height as int,
                t.0 == Some(true),
                t.1 == Some(true),
            )),
        }),
        res matches Ok(cfg) ==> ({
            &&& width >= 1
            &&& height >= 1
            &&& old(rgba_data)@.len() == width as int * height as int * 4
            &&& final(rgba_data)@ == mirrored(
                old(rgba_data)@,
                width as int,
                height as int,
                cfg.vertical_flip == Some(true),
                cfg.horizontal_flip == Some(true),
            )
        }),
{
    let cfg = match preamble(width, height, false, params) {
        Ok(c) => c,
        Err(e) => { return Err(e) },
    };
    let n = rgba_data.len();
    let w = width as usize;
    let h = height as usize;
    proof {
        assert(w as int * (h as int) <= w as int * (h as int) * 4) by (nonlinear_arith)
            requires
                w >= 0,
                h >= 0,
        ;
    }
    let len_image = match w.checked_mul(h) {
        Some(l) => l,
        None => { return Err(Error::ErrorValue("Length calculation failed".to_owned())) },
    };
    let len_in_pixel = match len_image.checked_mul(4) {
        Some(l) => l,
        None => { return Err(Error::ErrorValue("Length calculation failed".to_owned())) },
    };
    if rgba_data.len() != len_in_pixel {
        return Err(Error::ErrorValue("Buffer length does not match dimensions".to_owned()));
    }
    let vertical = match cfg.vertical_flip {
        Some(true) => true,
        _ => false,
    };
    let horizontal = match cfg.horizontal_flip {
        Some(true) => true,
        _ => false,
    };
    apply_mirror(rgba_data, w, h, vertical, horizontal);
    Ok(cfg)
}

} // verus!
