//! The packed RGBA framebuffer the renderer paints into, and nearest-neighbour presentation.

use vstd::prelude::*;

use crate::color::Color;

verus! {

/// Packed RGBA framebuffer.
#[derive(Clone, Debug)]
pub struct Surface {
    /// Width in pixels.
    pub width: u32,
    /// Height in pixels.
    pub height: u32,
    /// Row-major RGBA.
    pub pixels: Vec<u8>,
}

impl Surface {
    /// Four bytes per pixel, and the byte count fits the `u32` index arithmetic.
    pub open spec fn wf(&self) -> bool {
        &&& self.pixels@.len() == self.width * self.height * 4
        &&& self.width * self.height * 4 <= u32::MAX
    }

    /// An opaque surface of `width` x `height` pixels, every pixel `color` with alpha 255.
    pub fn filled(width: u32, height: u32, color: Color) -> (s: Self)
        requires
            width * height * 4 <= u32::MAX,
        ensures
            s.wf(),
            s.width == width,
            s.height == height,
            forall|k: int|
                0 <= k < width * height ==> {
                    &&& #[trigger] s.pixels@[4 * k] == color.r
                    &&& s.pixels@[4 * k + 1] == color.g
                    &&& s.pixels@[4 * k + 2] == color.b
                    &&& s.pixels@[4 * k + 3] == 255
                },
    {
        let n: u32 = width * height;
        let mut pixels: Vec<u8> = Vec::new();
        let mut k: u32 = 0;
        while k < n
            invariant
                n == width * height,
                n * 4 <= u32::MAX,
                k <= n,
                pixels@.len() == 4 * k,
                forall|j: int|
                    0 <= j < k ==> {
                        &&& #[trigger] pixels@[4 * j] == color.r
                        &&& pixels@[4 * j + 1] == color.g
                        &&& pixels@[4 * j + 2] == color.b
                        &&& pixels@[4 * j + 3] == 255
                    },
            decreases n - k,
        {
            let ghost p0 = pixels@;
            pixels.push(color.r);
            pixels.push(color.g);
            pixels.push(color.b);
            pixels.push(255);
            assert(pixels@ =~= p0 + seq![color.r, color.g, color.b, 255u8]);
            assert forall|j: int| 0 <= j < k + 1 implies {
                &&& #[trigger] pixels@[4 * j] == color.r
                &&& pixels@[4 * j + 1] == color.g
                &&& pixels@[4 * j + 2] == color.b
                &&& pixels@[4 * j + 3] == 255
            } by {
                if j < k {
                    assert(pixels@[4 * j] == p0[4 * j]);
                    assert(pixels@[4 * j + 1] == p0[4 * j + 1]);
                    assert(pixels@[4 * j + 2] == p0[4 * j + 2]);
                    assert(pixels@[4 * j + 3] == p0[4 * j + 3]);
                }
            }
            k += 1;
        }
        Surface { width, height, pixels }
    }

    /// Byte index of pixel `(x, y)`, or `None` outside the surface.
    pub fn idx(&self, x: i32, y: i32) -> (r: Option<usize>)
        requires
            self.wf(),
        ensures
            r == if x < 0 || y < 0 || x >= self.width || y >= self.height {
                None::<usize>
            } else {
                Some(((y * self.width + x) * 4) as usize)
            },
            r matches Some(i) ==> i + 4 <= self.pixels@.len(),
    {
        if x < 0 || y < 0 {
            return None;
        }
        let x = x as u32;
        let y = y as u32;
        if x >= self.width || y >= self.height {
            return None;
        }
        proof {
            assert(y * self.width + x < self.width * self.height) by (nonlinear_arith)
                requires
                    x < self.width,
                    y < self.height,
            ;
        }
        Some(((y * self.width + x) * 4) as usize)
    }
}

/// `a * b`, saturating at `u32::MAX`.
pub open spec fn sat_mul(a: u32, b: u32) -> u32 {
    if a * b > u32::MAX {
        u32::MAX
    } else {
        (a * b) as u32
    }
}

fn saturating_mul(a: u32, b: u32) -> (r: u32)
    ensures
        r == sat_mul(a, b),
{
    assert((a as u64) * (b as u64) <= 0xFFFF_FFFF_FFFF_FFFFu64) by (nonlinear_arith);
    let p: u64 = a as u64 * b as u64;
    if p > 0xFFFF_FFFFu64 {
        0xFFFF_FFFF
    } else {
        p as u32
    }
}

/// The `0x00RRGGBB` word of the source pixel shown at destination `(x, y)` when `src` is
/// scaled to `dw` x `dh` by nearest neighbour.
pub open spec fn blit_pixel(src: Surface, dw: u32, dh: u32, x: u32, y: u32) -> u32 {
    let sy = sat_mul(y, src.height) / dh;
    let sx = sat_mul(x, src.width) / dw;
    let i = (sy * src.width + sx) * 4;
    let r = src.pixels@[i] as u32;
    let g = src.pixels@[i + 1] as u32;
    let b = src.pixels@[i + 2] as u32;
    (r << 16u32) | (g << 8u32) | b
}

proof fn lemma_scaled_index(v: u32, n: u32, d: u32)
    requires
        v < d,
        n > 0,
    ensures
        sat_mul(v, n) / d < n,
{
    if v * n > u32::MAX {
        assert(u32::MAX < d * n) by (nonlinear_arith)
            requires
                v * n > u32::MAX,
                v < d,
                n > 0,
        ;
        assert((u32::MAX as int) / (d as int) < n) by (nonlinear_arith)
            requires
                u32::MAX < d * n,
                d > 0,
        ;
    } else {
        assert((v * n) / (d as int) < n) by (nonlinear_arith)
            requires
                v < d,
                n > 0,
        ;
    }
}

/// Scale `src` into the `dw` x `dh` word buffer `dest` (nearest neighbour, `0x00RRGGBB`).
pub fn blit_nearest(dest: &mut Vec<u32>, dest_w: u32, dest_h: u32, src: &Surface)
    requires
        src.wf(),
        dest_w * dest_h <= u32::MAX,
        dest_w * dest_h <= old(dest)@.len(),
    ensures
        final(dest)@.len() == old(dest)@.len(),
        forall|k: int|
            0 <= k < final(dest)@.len() ==> #[trigger] final(dest)@[k] == if dest_w == 0 || dest_h
                == 0 || src.width == 0 || src.height == 0 || k >= dest_w * dest_h {
                old(dest)@[k]
            } else {
                blit_pixel(*src, dest_w, dest_h, (k % dest_w as int) as u32, (k / dest_w as int) as u32)
            },
{
    if dest_w == 0 || dest_h == 0 || src.width == 0 || src.height == 0 {
        return;
    }
    let ghost d0 = dest@;
    let src_w = src.width;
    let src_h = src.height;
    let mut y: u32 = 0;
    while y < dest_h
        invariant
            src.wf(),
            src_w == src.width,
            src_h == src.height,
            src_w > 0,
            src_h > 0,
            dest_w > 0,
            dest_h > 0,
            dest_w * dest_h <= u32::MAX,
            dest_w * dest_h <= d0.len(),
            dest@.len() == d0.len(),
            y <= dest_h,
            forall|k: int|
                0 <= k < dest@.len() ==> #[trigger] dest@[k] == if k >= y * dest_w {
                    d0[k]
                } else {
                    blit_pixel(*src, dest_w, dest_h, (k % dest_w as int) as u32, (k / dest_w as int) as u32)
                },
        decreases dest_h - y,
    {
        let sy = saturating_mul(y, src_h) / dest_h;
        proof {
            lemma_scaled_index(y, src_h, dest_h);
        }
        let mut x: u32 = 0;
        while x < dest_w
            invariant
                src.wf(),
                src_w == src.width,
                src_h == src.height,
                src_w > 0,
                dest_w > 0,
                dest_h > 0,
                dest_w * dest_h <= u32::MAX,
                dest_w * dest_h <= d0.len(),
                dest@.len() == d0.len(),
                y < dest_h,
                sy == sat_mul(y, src_h) / dest_h,
                sy < src_h,
                x <= dest_w,
                forall|k: int|
                    0 <= k < dest@.len() ==> #[trigger] dest@[k] == if k >= y * dest_w + x {
                        d0[k]
                    } else {
                        blit_pixel(*src, dest_w, dest_h, (k % dest_w as int) as u32, (k / dest_w as int) as u32)
                    },
            decreases dest_w - x,
        {
            let sx = saturating_mul(x, src_w) / dest_w;
            proof {
                lemma_scaled_index(x, src_w, dest_w);
                assert(sy * src_w + sx < src_w * src_h) by (nonlinear_arith)
                    requires
                        sy < src_h,
                        sx < src_w,
                ;
                assert(y * dest_w + x < dest_w * dest_h) by (nonlinear_arith)
                    requires
                        y < dest_h,
                        x < dest_w,
                ;
            }
            let i = ((sy * src_w + sx) * 4) as usize;
            let r = src.pixels[i] as u32;
            let g = src.pixels[i + 1] as u32;
            let b = src.pixels[i + 2] as u32;
            let at = (y * dest_w + x) as usize;
            let ghost before = dest@;
            dest.set(at, (r << 16) | (g << 8) | b);
            proof {
                let kk = at as int;
                assert(kk % dest_w as int == x as int && kk / dest_w as int == y as int) by (nonlinear_arith)
                    requires
                        kk == y * dest_w + x,
                        x < dest_w,
                ;
                assert forall|k: int| 0 <= k < dest@.len() implies #[trigger] dest@[k] == if k >= y
                    * dest_w + x + 1 {
                    d0[k]
                } else {
                    blit_pixel(*src, dest_w, dest_h, (k % dest_w as int) as u32, (k / dest_w as int) as u32)
                } by {
                    if k != kk {
                        assert(dest@[k] == before[k]);
                    }
                }
            }
            x += 1;
        }
        proof {
            assert((y + 1) * dest_w == y * dest_w + dest_w) by (nonlinear_arith);
        }
        y += 1;
    }
    assert(dest_h * dest_w == dest_w * dest_h) by (nonlinear_arith);
}

} // verus!
