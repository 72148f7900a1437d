//! Software rendering into a premultiplied ARGB8888 buffer.

use vstd::prelude::*;

use crate::sprites::FRAME;

verus! {

/// Everything is in buffer pixels: the surface is `size` logical pixels
/// square and the buffer is `size * scale` pixels.
pub struct Canvas<'a> {
    pub pixels: &'a mut [u32],
    pub width: usize,
    pub height: usize,
}

/// A 5x5 pixel-font "z".
pub const Z_GLYPH: [u8; 5] = [0b11111, 0b00010, 0b00100, 0b01000, 0b11111];

/// Whether cell (`col`, `row`) of the "z" glyph is inked.
pub open spec fn z_inked(row: int, col: int) -> bool {
    0 <= row < 5 && 0 <= col < 5 && Z_GLYPH[row] & (0b10000u8 >> (col as u8)) != 0
}

/// The colours of a "z" drawn with cells `p` pixels square: `color` where
/// the glyph is inked, nothing elsewhere.
pub open spec fn glyph_paint(color: u32, p: int) -> spec_fn(int, int) -> u32 {
    |bx: int, by: int|
        if z_inked(by / p, bx / p) {
            color
        } else {
            0u32
        }
}

/// Channel `c` (its low byte) scaled by the alpha `a`, of 255.
pub open spec fn premultiplied(c: u32, a: u32) -> u32 {
    (((c & 0xff) * a / 255) as u32) & 0xff
}

/// An opaque-scaled colour `rgb` with alpha `a`, premultiplied.
pub open spec fn tint(a: u32, rgb: u32) -> u32 {
    (a << 24u32) | (premultiplied(rgb >> 16u32, a) << 16u32) | (premultiplied(rgb >> 8u32, a)
        << 8u32) | premultiplied(rgb, a)
}

/// The premultiplied colour of `rgb` at alpha `a` (of 255).
pub fn tint_color(a: u32, rgb: u32) -> (c: u32)
    requires
        a <= 255,
    ensures
        c == tint(a, rgb),
{
    proof {
        assert((rgb >> 16u32) & 0xff <= 255) by (bit_vector);
        assert((rgb >> 8u32) & 0xff <= 255) by (bit_vector);
        assert(rgb & 0xff <= 255) by (bit_vector);
        assert(((rgb >> 16u32) & 0xff) * a <= 255 * 255) by (nonlinear_arith)
            requires
                (rgb >> 16u32) & 0xff <= 255,
                a <= 255,
        ;
        assert(((rgb >> 8u32) & 0xff) * a <= 255 * 255) by (nonlinear_arith)
            requires
                (rgb >> 8u32) & 0xff <= 255,
                a <= 255,
        ;
        assert((rgb & 0xff) * a <= 255 * 255) by (nonlinear_arith)
            requires
                rgb & 0xff <= 255,
                a <= 255,
        ;
    }
    let r = (((rgb >> 16) & 0xff) * a / 255) & 0xff;
    let g = (((rgb >> 8) & 0xff) * a / 255) & 0xff;
    let b = ((rgb & 0xff) * a / 255) & 0xff;
    (a << 24) | (r << 16) | (g << 8) | b
}

/// Byte `shift / 8` of a pixel: one of its four channels.
pub open spec fn channel(p: u32, shift: u32) -> u32 {
    (p >> shift) & 0xff
}

/// A destination channel `d` under a source channel `s` whose coverage
/// leaves `inv / 255` of the destination showing, rounded, at most 255.
pub open spec fn mix(s: u32, d: u32, inv: u32) -> u32 {
    let v = s + (d * inv + 127) / 255;
    if v < 255 {
        v as u32
    } else {
        255
    }
}

/// Premultiplied `src` over `dst`: an opaque source replaces the
/// destination, anything else mixes each channel by the source's alpha.
pub open spec fn over(src: u32, dst: u32) -> u32 {
    let a = src >> 24u32;
    if a == 255 {
        src
    } else {
        let inv = (255 - a) as u32;
        (mix(channel(src, 24), channel(dst, 24), inv) << 24u32) | (mix(
            channel(src, 16),
            channel(dst, 16),
            inv,
        ) << 16u32) | (mix(channel(src, 8), channel(dst, 8), inv) << 8u32) | mix(
            channel(src, 0),
            channel(dst, 0),
            inv,
        )
    }
}

/// The pixels after blending `src` at (`x`, `y`) into `pixels`, a buffer
/// `width` by `height`: points off the buffer and fully transparent
/// sources change nothing.
pub open spec fn blended(
    pixels: Seq<u32>,
    width: int,
    height: int,
    x: int,
    y: int,
    src: u32,
) -> Seq<u32> {
    if 0 <= x < width && 0 <= y < height && src >> 24u32 != 0 {
        pixels.update(y * width + x, over(src, pixels[y * width + x]))
    } else {
        pixels
    }
}

proof fn lemma_index_in_bounds(x: int, y: int, width: int, height: int)
    requires
        0 <= x < width,
        0 <= y < height,
    ensures
        0 <= y * width + x < width * height,
{
    assert(y * width + x < width * height) by (nonlinear_arith)
        requires
            0 <= x < width,
            0 <= y < height,
    ;
    assert(0 <= y * width) by (nonlinear_arith)
        requires
            0 <= y,
            0 <= width,
    ;
}

impl<'a> Canvas<'a> {
    /// The buffer holds a pixel for every point of the canvas.
    pub open spec fn fits(&self) -> bool {
        self.width * self.height <= self.pixels@.len()
    }

    pub fn clear(&mut self)
        ensures
            final(self).width == old(self).width,
            final(self).height == old(self).height,
            final(self).pixels@ == Seq::new(old(self).pixels@.len(), |i: int| 0u32),
    {
        let n = self.pixels.len();
        let mut i: usize = 0;
        while i < n
            invariant
                n == self.pixels@.len(),
                self.width == old(self).width,
                self.height == old(self).height,
                i <= n,
                forall|j: int| 0 <= j < i ==> self.pixels@[j] == 0u32,
            decreases n - i,
        {
            self.pixels[i] = 0;
            i = i + 1;
        }
        assert(self.pixels@ =~= Seq::new(old(self).pixels@.len(), |i: int| 0u32));
    }

    /// Nearest-neighbour blit of a sprite frame, `n` buffer pixels square,
    /// with its top-left corner at (`x0`, `y0`).
    pub fn blit(&mut self, frame: &[u32], x0: i64, y0: i64, n: i64)
        requires
            old(self).fits(),
            frame@.len() >= FRAME * FRAME,
            n * (FRAME as int) <= usize::MAX,
            x0 + n <= i64::MAX,
            y0 + n <= i64::MAX,
        ensures
            final(self).width == old(self).width,
            final(self).height == old(self).height,
            final(self).pixels@ == painted(
                old(self).pixels@,
                old(self).width as int,
                old(self).height as int,
                x0 as int,
                y0 as int,
                n as int,
                sprite_paint(frame@, n as int),
                n * n,
            ),
    {
        let ghost start = self.pixels@;
        let ghost (w, h) = (self.width as int, self.height as int);
        let ghost paint = sprite_paint(frame@, n as int);
        assert(start =~= painted(start, w, h, x0 as int, y0 as int, n as int, paint, 0));
        let mut by: i64 = 0;
        while by < n
            invariant
                0 <= by,
                n >= 0 ==> by <= n,
                self.width == w,
                self.height == h,
                self.fits(),
                self.pixels@.len() == start.len(),
                w * h <= start.len(),
                frame@.len() >= FRAME * FRAME,
                n * (FRAME as int) <= usize::MAX,
                x0 + n <= i64::MAX,
                y0 + n <= i64::MAX,
                paint == sprite_paint(frame@, n as int),
                self.pixels@ == painted(start, w, h, x0 as int, y0 as int, n as int, paint, by * n),
            decreases n - by,
        {
            let sy = (by as usize * FRAME) / n as usize;
            proof {
                assert(sy < 128) by (nonlinear_arith)
                    requires
                        sy == (by * 128) / (n as int),
                        0 <= by < n,
                ;
            }
            let mut bx: i64 = 0;
            while bx < n
                invariant
                    0 <= by < n,
                    0 <= bx <= n,
                    self.width == w,
                    self.height == h,
                    self.fits(),
                    self.pixels@.len() == start.len(),
                    w * h <= start.len(),
                    frame@.len() >= FRAME * FRAME,
                    n * (FRAME as int) <= usize::MAX,
                    x0 + n <= i64::MAX,
                    y0 + n <= i64::MAX,
                    sy == (by * 128) / (n as int),
                    sy < 128,
                    paint == sprite_paint(frame@, n as int),
                    self.pixels@ == painted(
                        start,
                        w,
                        h,
                        x0 as int,
                        y0 as int,
                        n as int,
                        paint,
                        by * n + bx,
                    ),
                decreases n - bx,
            {
                let sx = (bx as usize * FRAME) / n as usize;
                proof {
                    assert(sx < 128) by (nonlinear_arith)
                        requires
                            sx == (bx * 128) / (n as int),
                            0 <= bx < n,
                    ;
                    assert(sy * 128 + sx < 128 * 128) by (nonlinear_arith)
                        requires
                            sx < 128,
                            sy < 128,
                    ;
                    lemma_paint_step(start, w, h, x0 as int, y0 as int, n as int, paint, bx as int, by as int);
                }
                self.blend(x0 + bx, y0 + by, frame[sy * FRAME + sx]);
                bx = bx + 1;
            }
            proof {
                assert(by * n + n == (by + 1) * n) by (nonlinear_arith);
            }
            by = by + 1;
        }
        proof {
            if n < 0 {
                assert(self.pixels@ =~= painted(start, w, h, x0 as int, y0 as int, n as int, paint, n * n));
            }
        }
    }

    /// A "z" whose glyph cells are `p` pixels square, top-left corner at
    /// (`x0`, `y0`), in the premultiplied colour `color`.
    pub fn glyph(&mut self, x0: i64, y0: i64, p: i64, color: u32)
        requires
            old(self).fits(),
            p >= 1,
            5 * p <= i64::MAX,
            5 * p + x0 <= i64::MAX,
            5 * p + y0 <= i64::MAX,
        ensures
            final(self).width == old(self).width,
            final(self).height == old(self).height,
            final(self).pixels@ == painted(
                old(self).pixels@,
                old(self).width as int,
                old(self).height as int,
                x0 as int,
                y0 as int,
                5 * p,
                glyph_paint(color, p as int),
                (5 * p) * (5 * p),
            ),
    {
        let ghost start = self.pixels@;
        let ghost (w, h) = (self.width as int, self.height as int);
        let ghost paint = glyph_paint(color, p as int);
        let n = 5 * p;
        assert(start =~= painted(start, w, h, x0 as int, y0 as int, n as int, paint, 0));
        let mut by: i64 = 0;
        while by < n
            invariant
                0 <= by <= n,
                n == 5 * p,
                p >= 1,
                self.width == w,
                self.height == h,
                self.fits(),
                self.pixels@.len() == start.len(),
                w * h <= start.len(),
                x0 + n <= i64::MAX,
                y0 + n <= i64::MAX,
                paint == glyph_paint(color, p as int),
                self.pixels@ == painted(start, w, h, x0 as int, y0 as int, n as int, paint, by * n),
            decreases n - by,
        {
            let r = by / p;
            proof {
                assert(0 <= r < 5) by (nonlinear_arith)
                    requires
                        r == by / p,
                        0 <= by < 5 * p,
                        p >= 1,
                ;
            }
            let row = r as usize;
            let bits = Z_GLYPH[row];
            let mut bx: i64 = 0;
            while bx < n
                invariant
                    0 <= by < n,
                    0 <= bx <= n,
                    n == 5 * p,
                    p >= 1,
                    row as int == by as int / p as int,
                    row < 5,
                    bits == Z_GLYPH[row as int],
                    self.width == w,
                    self.height == h,
                    self.fits(),
                    self.pixels@.len() == start.len(),
                    w * h <= start.len(),
                    x0 + n <= i64::MAX,
                    y0 + n <= i64::MAX,
                    paint == glyph_paint(color, p as int),
                    self.pixels@ == painted(
                        start,
                        w,
                        h,
                        x0 as int,
                        y0 as int,
                        n as int,
                        paint,
                        by * n + bx,
                    ),
                decreases n - bx,
            {
                let c = bx / p;
                proof {
                    assert(0 <= c < 5) by (nonlinear_arith)
                        requires
                            c == bx / p,
                            0 <= bx < 5 * p,
                            p >= 1,
                    ;
                }
                let col = c as u8;
                proof {
                    lemma_paint_step(
                        start,
                        w,
                        h,
                        x0 as int,
                        y0 as int,
                        n as int,
                        paint,
                        bx as int,
                        by as int,
                    );
                }
                if bits & (0b10000u8 >> col) != 0 {
                    self.blend(x0 + bx, y0 + by, color);
                } else {
                    proof {
                        assert(paint(bx as int, by as int) == 0u32);
                        assert(0u32 >> 24u32 == 0) by (bit_vector);
                    }
                }
                bx = bx + 1;
            }
            proof {
                assert(by * n + n == (by + 1) * n) by (nonlinear_arith);
            }
            by = by + 1;
        }
    }

    /// Blend the premultiplied colour `src` over the pixel at (`x`, `y`).
    pub fn blend(&mut self, x: i64, y: i64, src: u32)
        requires
            old(self).fits(),
        ensures
            final(self).width == old(self).width,
            final(self).height == old(self).height,
            final(self).pixels@ == blended(
                old(self).pixels@,
                old(self).width as int,
                old(self).height as int,
                x as int,
                y as int,
                src,
            ),
    {
        if x < 0 || y < 0 || x as u64 >= self.width as u64 || y as u64 >= self.height as u64 {
            return;
        }
        let a = src >> 24;
        proof {
            assert(src >> 24u32 <= 255) by (bit_vector);
            assert((src >> 24u32) & 0xff <= 255) by (bit_vector);
            assert((src >> 16u32) & 0xff <= 255) by (bit_vector);
            assert((src >> 8u32) & 0xff <= 255) by (bit_vector);
            assert(src & 0xff <= 255) by (bit_vector);
        }
        if a == 0 {
            return;
        }
        let (xi, yi) = (x as usize, y as usize);
        let len = self.pixels.len();
        proof {
            lemma_index_in_bounds(xi as int, yi as int, self.width as int, self.height as int);
        }
        let i = yi * self.width + xi;
        let dst = self.pixels[i];
        proof {
            assert((dst >> 24u32) & 0xff <= 255) by (bit_vector);
            assert((dst >> 16u32) & 0xff <= 255) by (bit_vector);
            assert((dst >> 8u32) & 0xff <= 255) by (bit_vector);
            assert(dst & 0xff <= 255) by (bit_vector);
        }
        if a == 255 {
            self.pixels[i] = src;
            return;
        }
        let inv = 255 - a;
        let c3 = mix_channel((src >> 24) & 0xff, (dst >> 24) & 0xff, inv);
        let c2 = mix_channel((src >> 16) & 0xff, (dst >> 16) & 0xff, inv);
        let c1 = mix_channel((src >> 8) & 0xff, (dst >> 8) & 0xff, inv);
        let c0 = mix_channel(src & 0xff, dst & 0xff, inv);
        proof {
            assert(src & 0xff == (src >> 0u32) & 0xff) by (bit_vector);
            assert(dst & 0xff == (dst >> 0u32) & 0xff) by (bit_vector);
        }
        self.pixels[i] = (c3 << 24) | (c2 << 16) | (c1 << 8) | c0;
    }
}

/// The frame pixel that lands on pixel (`bx`, `by`) of an `n` by `n` copy
/// of a `FRAME` by `FRAME` sprite, nearest neighbour.
pub open spec fn texel(frame: Seq<u32>, n: int, bx: int, by: int) -> u32 {
    frame[(by * 128 / n) * 128 + bx * 128 / n]
}

/// The colours of an `n`-pixel-square copy of `frame`, point by point.
pub open spec fn sprite_paint(frame: Seq<u32>, n: int) -> spec_fn(int, int) -> u32 {
    |bx: int, by: int| texel(frame, n, bx, by)
}

/// Pixel `i` of a `width` by `height` buffer lies in the patch `cols` wide
/// with its top-left corner at (`x0`, `y0`), among its first `k` points in
/// row-major order.
pub open spec fn in_patch(
    i: int,
    width: int,
    height: int,
    x0: int,
    y0: int,
    cols: int,
    k: int,
) -> bool {
    let bx = i % width - x0;
    let by = i / width - y0;
    &&& width > 0
    &&& 0 <= i < width * height
    &&& 0 <= bx < cols
    &&& 0 <= by
    &&& by * cols + bx < k
}

/// `pixels` with the first `k` points of a patch `cols` wide, top-left
/// corner at (`x0`, `y0`), blended over them; point (`bx`, `by`) of the
/// patch has colour `paint(bx, by)`, and fully transparent ones change
/// nothing.
pub open spec fn painted(
    pixels: Seq<u32>,
    width: int,
    height: int,
    x0: int,
    y0: int,
    cols: int,
    paint: spec_fn(int, int) -> u32,
    k: int,
) -> Seq<u32> {
    Seq::new(
        pixels.len(),
        |i: int|
            {
                let t = paint(i % width - x0, i / width - y0);
                if in_patch(i, width, height, x0, y0, cols, k) && t >> 24u32 != 0 {
                    over(t, pixels[i])
                } else {
                    pixels[i]
                }
            },
    )
}

proof fn lemma_div_mod_of(x: int, y: int, w: int)
    requires
        0 <= x < w,
        0 <= y,
    ensures
        (y * w + x) % w == x,
        (y * w + x) / w == y,
{
    vstd::arithmetic::div_mod::lemma_fundamental_div_mod_converse(y * w + x, w, y, x);
}

proof fn lemma_row_major(a: int, b: int, c: int, d: int, n: int)
    requires
        0 <= b < n,
        0 <= d < n,
        0 <= a,
        0 <= c,
        a * n + b == c * n + d,
    ensures
        a == c,
        b == d,
{
    lemma_div_mod_of(b, a, n);
    lemma_div_mod_of(d, c, n);
}

/// One more point of the patch: painting point `k` is blending it.
proof fn lemma_paint_step(
    pixels: Seq<u32>,
    width: int,
    height: int,
    x0: int,
    y0: int,
    n: int,
    paint: spec_fn(int, int) -> u32,
    bx: int,
    by: int,
)
    requires
        width * height <= pixels.len(),
        0 <= bx < n,
        0 <= by,
        width >= 0,
        height >= 0,
    ensures
        blended(
            painted(pixels, width, height, x0, y0, n, paint, by * n + bx),
            width,
            height,
            x0 + bx,
            y0 + by,
            paint(bx, by),
        ) =~= painted(pixels, width, height, x0, y0, n, paint, by * n + bx + 1),
{
    let k = by * n + bx;
    let before = painted(pixels, width, height, x0, y0, n, paint, k);
    let after = painted(pixels, width, height, x0, y0, n, paint, k + 1);
    let (x, y) = (x0 + bx, y0 + by);
    let t = paint(bx, by);
    let res = blended(before, width, height, x, y, t);
    if 0 <= x < width && 0 <= y < height {
        lemma_index_in_bounds(x, y, width, height);
    }
    assert(res.len() == pixels.len());
    assert(after.len() == pixels.len());
    assert forall|i: int| 0 <= i < pixels.len() implies res[i] == after[i] by {
        let ibx = i % width - x0;
        let iby = i / width - y0;
        let ti = paint(ibx, iby);
        assert(before[i] == if in_patch(i, width, height, x0, y0, n, k) && ti >> 24u32 != 0 {
            over(ti, pixels[i])
        } else {
            pixels[i]
        });
        assert(after[i] == if in_patch(i, width, height, x0, y0, n, k + 1) && ti >> 24u32 != 0 {
            over(ti, pixels[i])
        } else {
            pixels[i]
        });
        let fresh = in_patch(i, width, height, x0, y0, n, k + 1) && !in_patch(
            i,
            width,
            height,
            x0,
            y0,
            n,
            k,
        );
        if fresh {
            assert(iby * n + ibx == k);
            lemma_row_major(iby, ibx, by, bx, n);
            assert(i == (i / width) * width + i % width) by {
                vstd::arithmetic::div_mod::lemma_fundamental_div_mod(i, width);
            }
            assert(0 <= x < width);
            assert(i == y * width + x) by (nonlinear_arith)
                requires
                    i == (i / width) * width + i % width,
                    i / width == y,
                    i % width == x,
            ;
            assert(0 <= y < height) by (nonlinear_arith)
                requires
                    i == y * width + x,
                    0 <= x < width,
                    0 <= i < width * height,
                    y == i / width,
                    width > 0,
            ;
            assert(ti == t);
            assert(res[i] == after[i]);
        } else {
            assert(after[i] == before[i]);
            if 0 <= x < width && 0 <= y < height && t >> 24u32 != 0 {
                lemma_div_mod_of(x, y, width);
                lemma_index_in_bounds(x, y, width, height);
                if i == y * width + x {
                    assert(in_patch(i, width, height, x0, y0, n, k + 1));
                    assert(!in_patch(i, width, height, x0, y0, n, k));
                    assert(false);
                }
                assert(res[i] == before[i]);
            } else {
                assert(res == before);
            }
        }
    }
}

fn mix_channel(s: u32, d: u32, inv: u32) -> (r: u32)
    requires
        s <= 255,
        d <= 255,
        inv <= 255,
    ensures
        r == mix(s, d, inv),
        r <= 255,
{
    proof {
        assert(d * inv <= 255 * 255) by (nonlinear_arith)
            requires
                d <= 255,
                inv <= 255,
        ;
    }
    let v = s + (d * inv + 127) / 255;
    if v < 255 {
        v
    } else {
        255
    }
}

} // verus!

verus! {

/// An opaque pixel covers whatever was below it; a fully transparent one
/// leaves the canvas as it was.
pub proof fn law_opaque_covers_clear_keeps(
    pixels: Seq<u32>,
    width: int,
    height: int,
    x: int,
    y: int,
    src: u32,
)
    requires
        width * height <= pixels.len(),
    ensures
        src >> 24u32 == 0 ==> blended(pixels, width, height, x, y, src) == pixels,
        src >> 24u32 == 255 && 0 <= x < width && 0 <= y < height ==> blended(
            pixels,
            width,
            height,
            x,
            y,
            src,
        )[y * width + x] == src,
{
    if 0 <= x < width && 0 <= y < height {
        lemma_index_in_bounds(x, y, width, height);
    }
}

/// A blit `n` pixels square with its top-left corner at (`x0`, `y0`) is
/// nearest-neighbour scaling: canvas pixel (`x`, `y`) inside it takes the
/// frame texel in row `(y - y0) * 128 / n` and column `(x - x0) * 128 / n`
/// (the top row of the blit shows the frame's top row, its left column the
/// frame's left column), blended over what was there: an opaque texel
/// replaces it, a transparent one keeps it. Pixels outside the blit keep
/// their colour.
pub proof fn law_blit_is_nearest_neighbour(
    pixels: Seq<u32>,
    width: int,
    height: int,
    x0: int,
    y0: int,
    n: int,
    frame: Seq<u32>,
    x: int,
    y: int,
)
    requires
        width * height <= pixels.len(),
        0 <= x < width,
        0 <= y < height,
    ensures
        ({
            let after = painted(pixels, width, height, x0, y0, n, sprite_paint(frame, n), n * n);
            let i = y * width + x;
            let inside = x0 <= x < x0 + n && y0 <= y < y0 + n;
            let t = frame[((y - y0) * 128 / n) * 128 + (x - x0) * 128 / n];
            &&& after.len() == pixels.len()
            &&& 0 <= i < pixels.len()
            &&& inside && t >> 24u32 == 0 ==> after[i] == pixels[i]
            &&& inside && t >> 24u32 == 255 ==> after[i] == t
            &&& inside && t >> 24u32 != 0 ==> after[i] == over(t, pixels[i])
            &&& !inside ==> after[i] == pixels[i]
        }),
{
    let i = y * width + x;
    lemma_index_in_bounds(x, y, width, height);
    lemma_div_mod_of(x, y, width);
    let (bx, by) = (x - x0, y - y0);
    if x0 <= x < x0 + n && y0 <= y < y0 + n {
        assert(by * n + bx < n * n) by (nonlinear_arith)
            requires
                0 <= bx < n,
                0 <= by < n,
        ;
        assert(in_patch(i, width, height, x0, y0, n, n * n));
    } else if 0 <= bx < n && 0 <= by {
        assert(by * n + bx >= n * n) by (nonlinear_arith)
            requires
                0 <= bx < n,
                by >= n,
        ;
    }
}

/// A "z" glyph with cells `p` pixels square at (`x0`, `y0`) paints canvas
/// pixel (`x`, `y`) inside it with `color` exactly where the 5x5 glyph cell
/// in row `(y - y0) / p` and column `(x - x0) / p` is inked (an opaque
/// colour replaces what was there), and leaves every other pixel as it was.
pub proof fn law_glyph_cells(
    pixels: Seq<u32>,
    width: int,
    height: int,
    x0: int,
    y0: int,
    p: int,
    color: u32,
    x: int,
    y: int,
)
    requires
        width * height <= pixels.len(),
        0 <= x < width,
        0 <= y < height,
        p >= 1,
    ensures
        ({
            let after = painted(pixels, width, height, x0, y0, 5 * p, glyph_paint(color, p), (5 * p) * (5 * p));
            let i = y * width + x;
            let inside = x0 <= x < x0 + 5 * p && y0 <= y < y0 + 5 * p;
            let inked = z_inked((y - y0) / p, (x - x0) / p);
            &&& after.len() == pixels.len()
            &&& inside && inked && color >> 24u32 != 0 ==> after[i] == over(color, pixels[i])
            &&& inside && inked && color >> 24u32 == 255 ==> after[i] == color
            &&& !(inside && inked) ==> after[i] == pixels[i]
        }),
{
    let i = y * width + x;
    let n = 5 * p;
    lemma_index_in_bounds(x, y, width, height);
    lemma_div_mod_of(x, y, width);
    let (bx, by) = (x - x0, y - y0);
    if x0 <= x < x0 + n && y0 <= y < y0 + n {
        assert(by * n + bx < n * n) by (nonlinear_arith)
            requires
                0 <= bx < n,
                0 <= by < n,
        ;
        assert(0 <= by / p < 5 && 0 <= bx / p < 5) by (nonlinear_arith)
            requires
                0 <= bx < 5 * p,
                0 <= by < 5 * p,
                p >= 1,
        ;
        assert(in_patch(i, width, height, x0, y0, n, n * n));
        assert(0u32 >> 24u32 == 0) by (bit_vector);
    } else if 0 <= bx < n && 0 <= by {
        assert(by * n + bx >= n * n) by (nonlinear_arith)
            requires
                0 <= bx < n,
                by >= n,
        ;
    }
}

/// Blending channel by channel: with nothing of the destination showing the
/// source channel stands; a fully transparent source lets the destination
/// channel through unchanged; the result never exceeds a byte. A source that
/// is not opaque mixes each of the four channels of the destination on its
/// own.
pub proof fn law_blending_channels(src: u32, dst: u32, s: u32, d: u32, inv: u32)
    requires
        s <= 255,
        d <= 255,
        inv <= 255,
    ensures
        mix(s, d, 0) == s,
        mix(0, d, 255) == d,
        mix(s, d, inv) <= 255,
        src >> 24u32 == 255 ==> over(src, dst) == src,
        src >> 24u32 != 255 ==> ({
            let a = src >> 24u32;
            let keep = (255 - a) as u32;
            &&& channel(over(src, dst), 24) == mix(channel(src, 24), channel(dst, 24), keep)
            &&& channel(over(src, dst), 16) == mix(channel(src, 16), channel(dst, 16), keep)
            &&& channel(over(src, dst), 8) == mix(channel(src, 8), channel(dst, 8), keep)
            &&& channel(over(src, dst), 0) == mix(channel(src, 0), channel(dst, 0), keep)
        }),
{
    assert((d * 255 + 127) / 255 == d) by (nonlinear_arith)
        requires
            d <= 255,
    ;
    assert(src >> 24u32 <= 255) by (bit_vector);
    let a = src >> 24u32;
    if a != 255 {
        let keep = (255 - a) as u32;
        let m3 = mix(channel(src, 24), channel(dst, 24), keep);
        let m2 = mix(channel(src, 16), channel(dst, 16), keep);
        let m1 = mix(channel(src, 8), channel(dst, 8), keep);
        let m0 = mix(channel(src, 0), channel(dst, 0), keep);
        assert(m3 <= 255 && m2 <= 255 && m1 <= 255 && m0 <= 255);
        let v = (m3 << 24u32) | (m2 << 16u32) | (m1 << 8u32) | m0;
        assert(over(src, dst) == v);
        assert((v >> 24u32) & 0xff == m3 && (v >> 16u32) & 0xff == m2 && (v >> 8u32) & 0xff == m1
            && (v >> 0u32) & 0xff == m0) by (bit_vector)
            requires
                m3 <= 255,
                m2 <= 255,
                m1 <= 255,
                m0 <= 255,
                v == (m3 << 24u32) | (m2 << 16u32) | (m1 << 8u32) | m0,
        ;
    }
}

/// A tint with alpha `a` has `a` as its alpha and each colour channel of
/// `rgb` scaled by `a / 255`, rounded down: fully opaque keeps the colour,
/// fully transparent is nothing at all.
pub proof fn law_tint(a: u32, rgb: u32)
    requires
        a <= 255,
    ensures
        channel(tint(a, rgb), 24) == a,
        channel(tint(a, rgb), 16) == channel(rgb, 16) * a / 255,
        channel(tint(a, rgb), 8) == channel(rgb, 8) * a / 255,
        channel(tint(a, rgb), 0) == channel(rgb, 0) * a / 255,
        tint(0, rgb) == 0,
{
    let r = premultiplied(rgb >> 16u32, a);
    let g = premultiplied(rgb >> 8u32, a);
    let b = premultiplied(rgb, a);
    assert(channel(rgb, 16) == (rgb >> 16u32) & 0xff && channel(rgb, 0) == rgb & 0xff
        && channel(rgb, 8) == (rgb >> 8u32) & 0xff) by (bit_vector);
    assert((rgb >> 16u32) & 0xff <= 255 && (rgb >> 8u32) & 0xff <= 255 && rgb & 0xff <= 255)
        by (bit_vector);
    let (cr, cg, cb) = ((rgb >> 16u32) & 0xff, (rgb >> 8u32) & 0xff, rgb & 0xff);
    assert(cr * a / 255 <= 255 && cg * a / 255 <= 255 && cb * a / 255 <= 255) by (nonlinear_arith)
        requires
            cr <= 255,
            cg <= 255,
            cb <= 255,
            a <= 255,
    ;
    let (vr, vg, vb) = ((cr * a / 255) as u32, (cg * a / 255) as u32, (cb * a / 255) as u32);
    assert(r == vr & 0xff && g == vg & 0xff && b == vb & 0xff);
    assert(vr & 0xff == vr && vg & 0xff == vg && vb & 0xff == vb) by (bit_vector)
        requires
            vr <= 255,
            vg <= 255,
            vb <= 255,
    ;
    let t = (a << 24u32) | (r << 16u32) | (g << 8u32) | b;
    assert(tint(a, rgb) == t);
    assert((t >> 24u32) & 0xff == a && (t >> 16u32) & 0xff == r && (t >> 8u32) & 0xff == g
        && (t >> 0u32) & 0xff == b) by (bit_vector)
        requires
            a <= 255,
            r <= 255,
            g <= 255,
            b <= 255,
            t == (a << 24u32) | (r << 16u32) | (g << 8u32) | b,
    ;
    assert(premultiplied(rgb >> 16u32, 0) == 0 && premultiplied(rgb >> 8u32, 0) == 0
        && premultiplied(rgb, 0) == 0) by {
        assert(((rgb >> 16u32) & 0xff) * 0 == 0);
        assert(((rgb >> 8u32) & 0xff) * 0 == 0);
        assert((rgb & 0xff) * 0 == 0);
        assert(0u32 & 0xff == 0) by (bit_vector);
    }
    assert((0u32 << 24u32) | (0u32 << 16u32) | (0u32 << 8u32) | 0u32 == 0u32) by (bit_vector);
}

} // verus!
