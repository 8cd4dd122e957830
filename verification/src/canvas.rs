//! The pixel store of the top-down software renderer: an RGB8 canvas that is
//! cleared to the background colour, painted pixel by pixel and disc by disc,
//! and written out as a binary PPM image.

use vstd::prelude::*;
use vstd::arithmetic::div_mod::lemma_fundamental_div_mod_converse;
use crate::raster::{rgb_offset, lemma_rgb_offset_decomposes, lemma_rgb_offset_in_buffer, lemma_rgb_offset_injective};
use crate::render::RenderOutput;

verus! {

/// Background colour of the top-down view.
pub open spec fn background_rgb() -> Seq<u8> {
    seq![24u8, 24u8, 28u8]
}

/// Can the pixel `(x, y)` be painted on a `w` by `h` canvas? Coordinates are
/// compared as `i32`, as the renderer computes them.
pub open spec fn drawable(w: u32, h: u32, x: int, y: int) -> bool {
    0 <= x && 0 <= y && x < (w as i32) && y < (h as i32)
}

/// Is the offset `(dx, dy)` inside the disc of pixel radius `r`?
pub open spec fn in_disc(dx: int, dy: int, r: int) -> bool {
    -r <= dx <= r && -r <= dy <= r && dx * dx + dy * dy <= r * r
}

/// `bytes` with the pixel `(x, y)` of a `w`-wide buffer set to `c`.
pub open spec fn with_pixel(bytes: Seq<u8>, w: int, x: int, y: int, c: Seq<u8>) -> Seq<u8> {
    bytes.update(rgb_offset(w, x, y, 0), c[0]).update(rgb_offset(w, x, y, 1), c[1]).update(
        rgb_offset(w, x, y, 2),
        c[2],
    )
}

/// ASCII decimal digits of `n`, most significant first, no leading zeros.
pub open spec fn decimal_digits(n: nat) -> Seq<u8>
    decreases n,
{
    if n < 10 {
        seq![(48 + n) as u8]
    } else {
        decimal_digits(n / 10).push((48 + n % 10) as u8)
    }
}

/// The header of a binary PPM (P6) image of `w` by `h` pixels with 8-bit
/// channels: `P6\n<w> <h>\n255\n`.
pub open spec fn ppm_header(w: nat, h: nat) -> Seq<u8> {
    seq![80u8, 54u8, 10u8] + decimal_digits(w) + seq![32u8] + decimal_digits(h) + seq![
        10u8,
        50u8,
        53u8,
        53u8,
        10u8,
    ]
}

/// The number written by the ASCII decimal digits `s`, most significant
/// first.
pub open spec fn decimal_value(s: Seq<u8>) -> int
    decreases s.len(),
{
    if s.len() == 0 {
        0
    } else {
        decimal_value(s.drop_last()) * 10 + (s.last() - 48)
    }
}

/// Is `s` the shortest base-10 text of `n`: ASCII digits, at least one,
/// with no leading zero, reading as `n`?
pub open spec fn is_decimal_text(s: Seq<u8>, n: int) -> bool {
    &&& s.len() >= 1
    &&& forall|i: int| 0 <= i < s.len() ==> 48 <= #[trigger] s[i] <= 57
    &&& s.len() > 1 ==> s[0] != 48
    &&& decimal_value(s) == n
}

/// `decimal_digits(n)` is the shortest base-10 text of `n`.
pub proof fn lemma_decimal_digits_text(n: nat)
    ensures
        is_decimal_text(decimal_digits(n), n as int),
    decreases n,
{
    let d = decimal_digits(n);
    if n < 10 {
        assert(d.drop_last() =~= Seq::<u8>::empty());
        assert(d[0] == 48 + n);
        assert(decimal_value(d) == decimal_value(d.drop_last()) * 10 + (d.last() - 48));
    } else {
        let q = n / 10;
        lemma_decimal_digits_text(q);
        let p = decimal_digits(q);
        assert(d.drop_last() =~= p);
        assert(d[0] == p[0]);
        assert(q * 10 + n % 10 == n);
        assert forall|i: int| 0 <= i < d.len() implies 48 <= #[trigger] d[i] <= 57 by {
            if i < p.len() {
                assert(d[i] == p[i]);
            }
        }
        if p.len() == 1 {
            assert(p.drop_last() =~= Seq::<u8>::empty());
            assert(decimal_value(p) == decimal_value(p.drop_last()) * 10 + (p.last() - 48));
        }
        assert(d.last() == 48 + n % 10);
        assert(decimal_value(d) == decimal_value(d.drop_last()) * 10 + (d.last() - 48));
    }
}

/// The PPM header of a `w` by `h` image reads, field by field: `P6` and a
/// newline, the shortest base-10 text of `w`, a space, the shortest base-10
/// text of `h`, a newline, `255` and a newline.
pub proof fn lemma_ppm_header_fields(w: nat, h: nat)
    ensures
        ({
            let head = ppm_header(w, h);
            let lw = decimal_digits(w).len() as int;
            let lh = decimal_digits(h).len() as int;
            &&& head.len() == lw + lh + 9
            &&& head.subrange(0, 3) == seq![80u8, 54u8, 10u8]
            &&& is_decimal_text(head.subrange(3, 3 + lw), w as int)
            &&& head[3 + lw] == 32u8
            &&& is_decimal_text(head.subrange(4 + lw, 4 + lw + lh), h as int)
            &&& head.subrange(4 + lw + lh, head.len() as int) == seq![10u8, 50u8, 53u8, 53u8, 10u8]
        }),
{
    lemma_decimal_digits_text(w);
    lemma_decimal_digits_text(h);
    let head = ppm_header(w, h);
    let dw = decimal_digits(w);
    let dh = decimal_digits(h);
    let lw = dw.len() as int;
    let lh = dh.len() as int;
    assert(head.subrange(0, 3) =~= seq![80u8, 54u8, 10u8]);
    assert(head.subrange(3, 3 + lw) =~= dw);
    assert(head.subrange(4 + lw, 4 + lw + lh) =~= dh);
    assert(head.subrange(4 + lw + lh, head.len() as int) =~= seq![10u8, 50u8, 53u8, 53u8, 10u8]);
}

/// A pixel offset lies in the disc of radius `r >= 0` exactly when its
/// squared Euclidean length is at most `r * r`; a disc of negative radius
/// holds nothing.
pub proof fn lemma_in_disc_euclidean(dx: int, dy: int, r: int)
    ensures
        r >= 0 ==> (in_disc(dx, dy, r) <==> dx * dx + dy * dy <= r * r),
        r < 0 ==> !in_disc(dx, dy, r),
{
    if r >= 0 && dx * dx + dy * dy <= r * r {
        assert(-r <= dx <= r && -r <= dy <= r) by (nonlinear_arith)
            requires
                r >= 0,
                dx * dx + dy * dy <= r * r,
        ;
    }
}

/// On a canvas whose sides fit in `i32`, a pixel can be painted exactly when
/// it lies on the canvas.
pub proof fn lemma_drawable_on_canvas(w: u32, h: u32, x: int, y: int)
    requires
        w <= i32::MAX,
        h <= i32::MAX,
    ensures
        drawable(w, h, x, y) <==> (0 <= x < w && 0 <= y < h),
{
}

/// Append the decimal digits of `n` to `out`.
fn push_decimal(out: &mut Vec<u8>, n: u32)
    ensures
        final(out)@ == old(out)@ + decimal_digits(n as nat),
    decreases n,
{
    if n >= 10 {
        push_decimal(out, n / 10);
    }
    let d: u8 = (n % 10) as u8;
    out.push(48u8 + d);
    proof {
        assert(final(out)@ =~= old(out)@ + decimal_digits(n as nat));
    }
}

/// Writable RGB8 frame of the software renderer.
pub struct RgbCanvas {
    width: u32,
    height: u32,
    buf: Vec<u8>,
}

impl RgbCanvas {
    /// Width in pixels.
    pub closed spec fn w(&self) -> u32 {
        self.width
    }

    /// Height in pixels.
    pub closed spec fn h(&self) -> u32 {
        self.height
    }

    /// Row-major RGB bytes.
    pub closed spec fn bytes(&self) -> Seq<u8> {
        self.buf@
    }

    /// The buffer holds exactly three bytes per pixel.
    pub open spec fn wf(&self) -> bool {
        self.bytes().len() == self.w() * self.h() * 3
    }

    /// Channel `k` of pixel `(x, y)`.
    pub open spec fn byte(&self, x: int, y: int, k: int) -> u8 {
        self.bytes()[rgb_offset(self.w() as int, x, y, k)]
    }

    /// An empty 0 by 0 canvas.
    pub fn new() -> (c: Self)
        ensures
            c.w() == 0,
            c.h() == 0,
            c.bytes() == Seq::<u8>::empty(),
            c.wf(),
    {
        RgbCanvas { width: 0, height: 0, buf: Vec::new() }
    }

    /// Width in pixels.
    pub fn width(&self) -> (r: u32)
        ensures
            r == self.w(),
    {
        self.width
    }

    /// Height in pixels.
    pub fn height(&self) -> (r: u32)
        ensures
            r == self.h(),
    {
        self.height
    }

    /// Resize to `w` by `h` and clear every pixel to the background colour.
    pub fn begin_frame(&mut self, w: u32, h: u32)
        requires
            w * h * 3 <= usize::MAX,
        ensures
            final(self).w() == w,
            final(self).h() == h,
            final(self).wf(),
            forall|j: int| 0 <= j < final(self).bytes().len() ==> #[trigger] final(self).bytes()[j] == background_rgb()[j % 3],
            forall|x: int, y: int, k: int|
                0 <= x < w && 0 <= y < h && 0 <= k < 3 ==> #[trigger] final(self).byte(x, y, k) == background_rgb()[k],
    {
        let n: usize = w as usize * h as usize;
        let mut buf: Vec<u8> = Vec::new();
        let mut i: usize = 0;
        while i < n
            invariant
                n == w * h,
                n * 3 <= usize::MAX,
                i <= n,
                buf@.len() == i * 3,
                forall|j: int| 0 <= j < buf@.len() ==> #[trigger] buf@[j] == background_rgb()[j % 3],
            decreases n - i,
        {
            let ghost before = buf@;
            buf.push(24u8);
            buf.push(24u8);
            buf.push(28u8);
            proof {
                assert forall|j: int| 0 <= j < buf@.len() implies #[trigger] buf@[j] == background_rgb()[j % 3] by {
                    if j >= before.len() {
                        lemma_fundamental_div_mod_converse(j, 3, i as int, j - before.len());
                    } else {
                        assert(buf@[j] == before[j]);
                    }
                }
            }
            i = i + 1;
        }
        self.width = w;
        self.height = h;
        self.buf = buf;
        proof {
            assert forall|x: int, y: int, k: int|
                0 <= x < w && 0 <= y < h && 0 <= k < 3 implies #[trigger] self.byte(x, y, k) == background_rgb()[k] by {
                lemma_rgb_offset_decomposes(w as int, x, y, k);
                lemma_rgb_offset_in_buffer(w as int, h as int, x, y, k);
            }
        }
    }

    /// Paint pixel `(x, y)` with `c`; pixels off the canvas are ignored.
    pub fn put(&mut self, x: i32, y: i32, c: [u8; 3])
        requires
            old(self).wf(),
        ensures
            final(self).w() == old(self).w(),
            final(self).h() == old(self).h(),
            final(self).wf(),
            final(self).bytes() == (if drawable(old(self).w(), old(self).h(), x as int, y as int) {
                with_pixel(old(self).bytes(), old(self).w() as int, x as int, y as int, c@)
            } else {
                old(self).bytes()
            }),
            old(self).w() <= i32::MAX && old(self).h() <= i32::MAX ==> forall|px: int, py: int, k: int|
                0 <= px < old(self).w() && 0 <= py < old(self).h() && 0 <= k < 3 ==> #[trigger] final(self).byte(px, py, k)
                    == if px == x && py == y {
                    c@[k]
                } else {
                    old(self).byte(px, py, k)
                },
    {
        let ghost w0 = self.w();
        let ghost h0 = self.h();
        let ghost b0 = self.bytes();
        proof {
            if w0 <= i32::MAX && h0 <= i32::MAX {
                lemma_drawable_on_canvas(w0, h0, x as int, y as int);
            }
        }
        let wi = self.width as i32;
        let hi = self.height as i32;
        if x >= 0 && y >= 0 && x < wi && y < hi {
            let len = self.buf.len();
            proof {
                assert(x < self.w() && y < self.h());
                lemma_rgb_offset_in_buffer(self.w() as int, self.h() as int, x as int, y as int, 2);
                assert(y * self.w() + x < self.w() * self.h()) by (nonlinear_arith)
                    requires
                        0 <= x < self.w(),
                        0 <= y < self.h(),
                ;
                assert(0 <= y * self.w()) by (nonlinear_arith)
                    requires
                        0 <= y,
                ;
            }
            let i: usize = (y as usize * self.width as usize + x as usize) * 3;
            self.buf[i] = c[0];
            self.buf[i + 1] = c[1];
            self.buf[i + 2] = c[2];
        }
        proof {
            if w0 <= i32::MAX && h0 <= i32::MAX {
                assert forall|px: int, py: int, k: int|
                    0 <= px < w0 && 0 <= py < h0 && 0 <= k < 3 implies #[trigger] self.byte(px, py, k) == if px == x
                        && py == y {
                        c@[k]
                    } else {
                        b0[rgb_offset(w0 as int, px, py, k)]
                    } by {
                    lemma_rgb_offset_in_buffer(w0 as int, h0 as int, px, py, k);
                    let o = rgb_offset(w0 as int, px, py, k);
                    if drawable(w0, h0, x as int, y as int) {
                        if o == rgb_offset(w0 as int, x as int, y as int, 0) {
                            lemma_rgb_offset_injective(w0 as int, px, py, k, x as int, y as int, 0);
                        } else if o == rgb_offset(w0 as int, x as int, y as int, 1) {
                            lemma_rgb_offset_injective(w0 as int, px, py, k, x as int, y as int, 1);
                        } else if o == rgb_offset(w0 as int, x as int, y as int, 2) {
                            lemma_rgb_offset_injective(w0 as int, px, py, k, x as int, y as int, 2);
                        } else {
                            if px == x && py == y {
                                lemma_rgb_offset_decomposes(w0 as int, px, py, k);
                                assert(k == 0 || k == 1 || k == 2);
                            }
                        }
                    }
                }
            }
        }
    }

    /// Fill the disc of pixel radius `r` around `(cx, cy)` with `c`, clipped
    /// to the canvas.
    pub fn fill_disc(&mut self, cx: i32, cy: i32, r: i32, c: [u8; 3])
        requires
            old(self).wf(),
            i32::MIN < r <= 32767,
            r >= 0 ==> i32::MIN <= cx - r && cx + r <= i32::MAX && i32::MIN <= cy - r && cy + r <= i32::MAX,
        ensures
            final(self).w() == old(self).w(),
            final(self).h() == old(self).h(),
            final(self).wf(),
            forall|x: int, y: int, k: int|
                0 <= x < old(self).w() && 0 <= y < old(self).h() && 0 <= k < 3 ==> #[trigger] final(self).byte(x, y, k)
                    == if drawable(old(self).w(), old(self).h(), x, y) && in_disc(x - cx, y - cy, r as int) {
                    c@[k]
                } else {
                    old(self).byte(x, y, k)
                },
            r < 0 ==> final(self).bytes() == old(self).bytes(),
            r >= 0 && old(self).w() <= i32::MAX && old(self).h() <= i32::MAX ==> forall|x: int, y: int, k: int|
                0 <= x < old(self).w() && 0 <= y < old(self).h() && 0 <= k < 3 ==> #[trigger] final(self).byte(x, y, k)
                    == if (x - cx) * (x - cx) + (y - cy) * (y - cy) <= r * r {
                    c@[k]
                } else {
                    old(self).byte(x, y, k)
                },
    {
        let ghost w = self.w();
        let ghost h = self.h();
        let ghost start = self.bytes();
        if r < 0 {
            return;
        }
        let mut dy: i32 = -r;
        while dy <= r
            invariant
                self.w() == w,
                self.h() == h,
                self.wf(),
                start.len() == w * h * 3,
                0 <= r <= 32767,
                -r <= dy <= r + 1,
                i32::MIN <= cx - r,
                cx + r <= i32::MAX,
                i32::MIN <= cy - r,
                cy + r <= i32::MAX,
                forall|x: int, y: int, k: int|
                    0 <= x < w && 0 <= y < h && 0 <= k < 3 ==> #[trigger] self.byte(x, y, k)
                        == if drawable(w, h, x, y) && in_disc(x - cx, y - cy, r as int) && y - cy < dy {
                        c@[k]
                    } else {
                        start[rgb_offset(w as int, x, y, k)]
                    },
            decreases r + 1 - dy,
        {
            let mut dx: i32 = -r;
            while dx <= r
                invariant
                    self.w() == w,
                    self.h() == h,
                    self.wf(),
                    start.len() == w * h * 3,
                    0 <= r <= 32767,
                    -r <= dy <= r,
                    -r <= dx <= r + 1,
                    i32::MIN <= cx - r,
                    cx + r <= i32::MAX,
                    i32::MIN <= cy - r,
                    cy + r <= i32::MAX,
                    forall|x: int, y: int, k: int|
                        0 <= x < w && 0 <= y < h && 0 <= k < 3 ==> #[trigger] self.byte(x, y, k)
                            == if drawable(w, h, x, y) && in_disc(x - cx, y - cy, r as int) && (y - cy
                            < dy || (y - cy == dy && x - cx < dx)) {
                            c@[k]
                        } else {
                            start[rgb_offset(w as int, x, y, k)]
                        },
                decreases r + 1 - dx,
            {
                assert(dx * dx <= 32767 * 32767 && dy * dy <= 32767 * 32767 && r * r <= 32767 * 32767)
                    by (nonlinear_arith)
                    requires
                        -32767 <= dx <= 32767,
                        -32767 <= dy <= 32767,
                        0 <= r <= 32767,
                ;
                assert(0 <= dx * dx && 0 <= dy * dy) by (nonlinear_arith);
                let ghost before = self.bytes();
                assert forall|x: int, y: int, k: int|
                    0 <= x < w && 0 <= y < h && 0 <= k < 3 implies #[trigger] before[rgb_offset(w as int, x, y, k)]
                        == if drawable(w, h, x, y) && in_disc(x - cx, y - cy, r as int) && (y - cy
                        < dy || (y - cy == dy && x - cx < dx)) {
                        c@[k]
                    } else {
                        start[rgb_offset(w as int, x, y, k)]
                    } by {
                    assert(self.byte(x, y, k) == before[rgb_offset(w as int, x, y, k)]);
                }
                let inside = dx * dx + dy * dy <= r * r;
                let ghost px: int = cx + dx;
                let ghost py: int = cy + dy;
                let ghost painted = inside && drawable(w, h, px, py);
                if inside {
                    self.put(cx + dx, cy + dy, c);
                }
                proof {
                    if !painted {
                        assert(self.bytes() == before);
                    } else {
                        assert(self.bytes() == with_pixel(before, w as int, px, py, c@));
                    }
                    assert forall|x: int, y: int, k: int|
                        0 <= x < w && 0 <= y < h && 0 <= k < 3 implies #[trigger] self.byte(x, y, k)
                            == if drawable(w, h, x, y) && in_disc(x - cx, y - cy, r as int) && (y - cy
                            < dy || (y - cy == dy && x - cx < dx + 1)) {
                            c@[k]
                        } else {
                            start[rgb_offset(w as int, x, y, k)]
                        } by {
                        lemma_rgb_offset_in_buffer(w as int, h as int, x, y, k);
                        let o = rgb_offset(w as int, x, y, k);
                        let is_here = x == px && y == py;
                        if painted {
                            assert(0 <= px < w);
                            lemma_rgb_offset_in_buffer(w as int, h as int, px, py, 0);
                            lemma_rgb_offset_in_buffer(w as int, h as int, px, py, 1);
                            lemma_rgb_offset_in_buffer(w as int, h as int, px, py, 2);
                            if o == rgb_offset(w as int, px, py, 0) {
                                lemma_rgb_offset_injective(w as int, x, y, k, px, py, 0);
                            } else if o == rgb_offset(w as int, px, py, 1) {
                                lemma_rgb_offset_injective(w as int, x, y, k, px, py, 1);
                            } else if o == rgb_offset(w as int, px, py, 2) {
                                lemma_rgb_offset_injective(w as int, x, y, k, px, py, 2);
                            } else {
                                assert(!is_here);
                                assert(self.bytes()[o] == before[o]);
                            }
                        } else {
                            assert(self.bytes()[o] == before[o]);
                            if is_here {
                                assert(!(drawable(w, h, x, y) && in_disc(x - cx, y - cy, r as int)));
                            }
                        }
                    }
                }
                dx = dx + 1;
            }
            dy = dy + 1;
        }
        proof {
            if w <= i32::MAX && h <= i32::MAX {
                assert forall|x: int, y: int, k: int|
                    0 <= x < w && 0 <= y < h && 0 <= k < 3 implies #[trigger] self.byte(x, y, k) == if (x - cx) * (x
                        - cx) + (y - cy) * (y - cy) <= r * r {
                        c@[k]
                    } else {
                        start[rgb_offset(w as int, x, y, k)]
                    } by {
                    lemma_drawable_on_canvas(w, h, x, y);
                    lemma_in_disc_euclidean(x - cx, y - cy, r as int);
                }
            }
        }
    }

    /// The finished frame.
    pub fn end_frame(&self) -> (out: RenderOutput)
        ensures
            out matches RenderOutput::Pixels { width, height, rgb } && width == self.w() && height == self.h()
                && rgb@ == self.bytes(),
    {
        let rgb = self.buf.clone();
        proof {
            assert(rgb@ =~= self.buf@);
        }
        RenderOutput::Pixels { width: self.width, height: self.height, rgb }
    }

    /// The frame as a binary PPM (P6) file.
    pub fn ppm_bytes(&self) -> (out: Vec<u8>)
        ensures
            out@ == ppm_header(self.w() as nat, self.h() as nat) + self.bytes(),
            ({
                let lw = decimal_digits(self.w() as nat).len() as int;
                let lh = decimal_digits(self.h() as nat).len() as int;
                &&& out@.len() == lw + lh + 9 + self.bytes().len()
                &&& out@.subrange(0, 3) == seq![80u8, 54u8, 10u8]
                &&& is_decimal_text(out@.subrange(3, 3 + lw), self.w() as int)
                &&& out@[3 + lw] == 32u8
                &&& is_decimal_text(out@.subrange(4 + lw, 4 + lw + lh), self.h() as int)
                &&& out@.subrange(4 + lw + lh, 9 + lw + lh) == seq![10u8, 50u8, 53u8, 53u8, 10u8]
                &&& out@.subrange(9 + lw + lh, out@.len() as int) == self.bytes()
            }),
    {
        let mut out: Vec<u8> = Vec::new();
        out.push(80u8);
        out.push(54u8);
        out.push(10u8);
        push_decimal(&mut out, self.width);
        out.push(32u8);
        push_decimal(&mut out, self.height);
        out.push(10u8);
        out.push(50u8);
        out.push(53u8);
        out.push(53u8);
        out.push(10u8);
        let ghost head = out@;
        assert(head =~= ppm_header(self.w() as nat, self.h() as nat));
        let n = self.buf.len();
        let mut i: usize = 0;
        while i < n
            invariant
                n == self.bytes().len(),
                i <= n,
                out@ == head + self.bytes().subrange(0, i as int),
            decreases n - i,
        {
            out.push(self.buf[i]);
            proof {
                assert(out@ =~= head + self.bytes().subrange(0, i + 1));
            }
            i = i + 1;
        }
        assert(self.bytes().subrange(0, n as int) =~= self.bytes());
        proof {
            let head = ppm_header(self.w() as nat, self.h() as nat);
            lemma_ppm_header_fields(self.w() as nat, self.h() as nat);
            let lw = decimal_digits(self.w() as nat).len() as int;
            let lh = decimal_digits(self.h() as nat).len() as int;
            assert(out@.subrange(0, 3) =~= head.subrange(0, 3));
            assert(out@.subrange(3, 3 + lw) =~= head.subrange(3, 3 + lw));
            assert(out@.subrange(4 + lw, 4 + lw + lh) =~= head.subrange(4 + lw, 4 + lw + lh));
            assert(out@.subrange(4 + lw + lh, 9 + lw + lh) =~= head.subrange(4 + lw + lh, head.len() as int));
            assert(out@.subrange(9 + lw + lh, out@.len() as int) =~= self.bytes());
        }
        out
    }
}

} // verus!
