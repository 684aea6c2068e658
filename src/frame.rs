//! A pixel buffer with clipped line drawing.
use vstd::prelude::*;
use crate::color::{Color, packed_rgb};
use crate::raster::{
    BOTTOM, INSIDE, LEFT, RIGHT, TOP, bresenham, bresenham_from, clip_segment, clip_step, dist,
    in_span, inside, lemma_clip_segment_inside, lemma_bresenham_error_bound, lemma_bresenham_step, lemma_clip_step_progress,
    lemma_outcode_bits, lemma_outcode_pair, lemma_round_scaled, outcode, round_scaled,
    shares_side, sides,
};
use crate::space::ScreenPoint;

verus! {

/// The contents of a frame buffer: row-major pixels, origin top-left.
pub struct FrameView {
    pub pixels: Seq<u32>,
    pub width: nat,
    pub height: nat,
}

/// A `width × height` buffer of packed `0x00RRGGBB` pixels, row-major, with
/// the origin at the top-left corner.
pub struct FrameBuffer {
    data: Vec<u32>,
    width: u32,
    height: u32,
}

impl View for FrameBuffer {
    type V = FrameView;

    closed spec fn view(&self) -> FrameView {
        FrameView { pixels: self.data@, width: self.width as nat, height: self.height as nat }
    }
}

/// The buffer after writing `c` at `p`, or unchanged when `p` is outside it.
pub open spec fn plot(v: FrameView, p: (int, int), c: u32) -> FrameView {
    if 0 <= p.0 < v.width && 0 <= p.1 < v.height {
        FrameView {
            pixels: v.pixels.update(p.1 * v.width + p.0, c),
            width: v.width,
            height: v.height,
        }
    } else {
        v
    }
}

/// The buffer after writing `c` at each of `pts` in turn.
pub open spec fn plot_all(v: FrameView, pts: Seq<(int, int)>, c: u32) -> FrameView
    decreases pts.len(),
{
    if pts.len() == 0 {
        v
    } else {
        plot(plot_all(v, pts.drop_last(), c), pts.last(), c)
    }
}

/// The buffer after drawing the segment `a`–`b` in `c`: the segment is
/// clipped to `[0, width] × [0, height]` and, unless rejected, its
/// Bresenham pixels are written.
pub open spec fn line_drawn(v: FrameView, a: (int, int), b: (int, int), c: u32) -> FrameView {
    match clip_segment(v.width as int, v.height as int, a, b) {
        Some((p, q)) => plot_all(v, bresenham(p.0, p.1, q.0, q.1), c),
        None => v,
    }
}

/// An endpoint of a segment being clipped, as a pair of integers.
pub open spec fn pair_of(p: (i64, i64)) -> (int, int) {
    (p.0 as int, p.1 as int)
}

/// `d · num / den` rounded to the nearest integer, for `num / den` in `[0, 1]`.
fn scale_rounded(d: i64, num: i64, den: i64) -> (r: i64)
    requires
        (0 <= num <= den && den > 0) || (den <= num <= 0 && den < 0),
        -17179869184 <= d <= 17179869184,
        -17179869184 <= num <= 17179869184,
        -17179869184 <= den <= 17179869184,
    ensures
        r == round_scaled(d as int, num as int, den as int),
{
    let n: i128 = if den < 0 { -(num as i128) } else { num as i128 };
    let m: i128 = if den < 0 { -(den as i128) } else { den as i128 };
    let ad: i128 = if d < 0 { -(d as i128) } else { d as i128 };
    assert(0 <= ad * n <= 17179869184 * 17179869184) by (nonlinear_arith)
        requires
            0 <= ad <= 17179869184,
            0 <= n <= 17179869184,
    ;
    assert(2 * ad * n == 2 * (ad * n)) by (nonlinear_arith);
    let q: i128 = (2 * (ad * n) + m) / (2 * m);
    proof {
        lemma_round_scaled(d as int, num as int, den as int);
    }
    if d < 0 {
        -(q as i64)
    } else {
        q as i64
    }
}

impl FrameBuffer {
    /// The pixel count matches the dimensions.
    pub open spec fn wf(&self) -> bool {
        self@.pixels.len() == self@.width * self@.height
    }

    /// Wraps `buffer`, which holds `width * height` pixels.
    pub fn new(buffer: Vec<u32>, width: u32, height: u32) -> (r: FrameBuffer)
        requires
            buffer@.len() == width * height,
        ensures
            r.wf(),
            r@ == (FrameView { pixels: buffer@, width: width as nat, height: height as nat }),
    {
        FrameBuffer { data: buffer, width, height }
    }

    pub fn width(&self) -> (r: u32)
        ensures
            r == self@.width,
    {
        self.width
    }

    pub fn height(&self) -> (r: u32)
        ensures
            r == self@.height,
    {
        self.height
    }

    /// The pixels, row by row.
    pub fn data(&self) -> (r: &Vec<u32>)
        ensures
            r@ == self@.pixels,
    {
        &self.data
    }

    /// Gives the pixel storage back.
    pub fn into_data(self) -> (r: Vec<u32>)
        ensures
            r@ == self@.pixels,
    {
        self.data
    }

    /// Writes `color` at `(x, y)`; a position outside the buffer is ignored.
    pub fn set_pixel(&mut self, x: u32, y: u32, color: Color)
        requires
            old(self).wf(),
        ensures
            final(self).wf(),
            final(self)@ == plot(old(self)@, (x as int, y as int), packed_rgb(color)),
    {
        let rgb_color = color.to_pixel();
        let n = self.data.len();
        if x < self.width && y < self.height {
            proof {
                assert((y as int) * (self.width as int) + (x as int) < (self.width as int) * (
                self.height as int)) by (nonlinear_arith)
                    requires
                        x < self.width,
                        y < self.height,
                ;
                assert((y as int) * (self.width as int) <= (y as int) * (self.width as int) + (x as int));
            }
            let index = y as usize * self.width as usize + x as usize;
            self.data[index] = rgb_color;
        }
    }

    /// Fills the buffer with zero, opaque black.
    pub fn clear(&mut self)
        requires
            old(self).wf(),
        ensures
            final(self).wf(),
            final(self)@.width == old(self)@.width,
            final(self)@.height == old(self)@.height,
            final(self)@.pixels == Seq::new(old(self)@.pixels.len(), |i: int| 0u32),
    {
        let n = self.data.len();
        let mut i: usize = 0;
        while i < n
            invariant
                n == self.data@.len(),
                n == old(self)@.pixels.len(),
                self.width == old(self).width,
                self.height == old(self).height,
                i <= n,
                forall|k: int| 0 <= k < i ==> self.data@[k] == 0u32,
            decreases n - i,
        {
            self.data[i] = 0;
            i = i + 1;
        }
        assert(self.data@ =~= Seq::new(n as nat, |i: int| 0u32));
    }

    /// Bresenham's walk from `(x_start, y_start)` to `(x_end, y_end)`, both
    /// on the closed viewport rectangle.
    fn draw_line_inside(&mut self, x_start: i64, y_start: i64, x_end: i64, y_end: i64, color: Color)
        requires
            old(self).wf(),
            0 <= x_start <= old(self)@.width,
            0 <= x_end <= old(self)@.width,
            0 <= y_start <= old(self)@.height,
            0 <= y_end <= old(self)@.height,
        ensures
            final(self).wf(),
            final(self)@ == plot_all(
                old(self)@,
                bresenham(x_start as int, y_start as int, x_end as int, y_end as int),
                packed_rgb(color),
            ),
    {
        let ghost start = self@;
        let ghost c = packed_rgb(color);
        let mut x0: i128 = x_start as i128;
        let mut y0: i128 = y_start as i128;
        let x1: i128 = x_end as i128;
        let y1: i128 = y_end as i128;
        let dx: i128 = if x1 >= x0 {
            x1 - x0
        } else {
            x0 - x1
        };
        let dy: i128 = if y1 >= y0 {
            y0 - y1
        } else {
            y1 - y0
        };
        let sx: i128 = if x0 < x1 {
            1
        } else {
            -1
        };
        let sy: i128 = if y0 < y1 {
            1
        } else {
            -1
        };
        let mut error: i128 = dx + dy;
        let ghost line = bresenham(x_start as int, y_start as int, x_end as int, y_end as int);
        let ghost mut drawn: Seq<(int, int)> = Seq::empty();
        assert(dist(x1 as int, x0 as int) * (-dy) - dist(y1 as int, y0 as int) * dx == 0)
            by (nonlinear_arith)
            requires
                dx == dist(x1 as int, x0 as int),
                dy == -dist(y1 as int, y0 as int),
        ;
        assert(line =~= drawn + line);
        loop
            invariant_except_break
                line == drawn + bresenham_from(
                    x0 as int,
                    y0 as int,
                    x1 as int,
                    y1 as int,
                    dx as int,
                    dy as int,
                    sx as int,
                    sy as int,
                    error as int,
                ),
            invariant
                start == old(self)@,
                c == packed_rgb(color),
                line == bresenham(x_start as int, y_start as int, x_end as int, y_end as int),
                self.wf(),
                self@.width == start.width,
                self@.height == start.height,
                self@ == plot_all(start, drawn, c),
                x1 == x_end,
                y1 == y_end,
                dx == dist(x_end as int, x_start as int),
                dy == -dist(y_end as int, y_start as int),
                sx == (if x_start < x_end { 1int } else { -1int }),
                sy == (if y_start < y_end { 1int } else { -1int }),
                sx == 1 ==> x_start <= x0 <= x1,
                sx == -1 ==> x1 <= x0 <= x_start,
                sy == 1 ==> y_start <= y0 <= y1,
                sy == -1 ==> y1 <= y0 <= y_start,
                0 <= x_start <= start.width <= 4294967295,
                0 <= x_end <= start.width,
                0 <= y_start <= start.height <= 4294967295,
                0 <= y_end <= start.height,
                error == dx + dy + dist(x1 as int, x0 as int) * (-dy) - dist(y1 as int, y0 as int)
                    * dx,
            ensures
                self.wf(),
                self@ == plot_all(start, line, c),
            decreases dist(x1 as int, x0 as int) + dist(y1 as int, y0 as int),
        {
            let ghost a = dist(x1 as int, x0 as int);
            let ghost b = dist(y1 as int, y0 as int);
            let ghost (ox, oy, oerr) = (x0 as int, y0 as int, error as int);
            proof {
                lemma_bresenham_error_bound(dx as int, -dy, a, b);
            }
            self.set_pixel(x0 as u32, y0 as u32, color);
            proof {
                let pushed = drawn.push((ox, oy));
                assert(pushed.drop_last() =~= drawn);
                drawn = pushed;
            }
            if x0 == x1 && y0 == y1 {
                assert(line =~= drawn);
                break;
            }
            proof {
                lemma_bresenham_step(dx as int, -dy, a, b, oerr);
            }
            let e2 = 2 * error;
            if e2 >= dy {
                error = error + dy;
                x0 = x0 + sx;
            }
            if e2 <= dx {
                error = error + dx;
                y0 = y0 + sy;
            }
            proof {
                assert(bresenham_from(ox, oy, x1 as int, y1 as int, dx as int, dy as int, sx as int, sy as int, oerr)
                    == seq![(ox, oy)] + bresenham_from(x0 as int, y0 as int, x1 as int, y1 as int, dx as int, dy as int, sx as int, sy as int, error as int));
                assert(line =~= drawn + bresenham_from(x0 as int, y0 as int, x1 as int, y1 as int, dx as int, dy as int, sx as int, sy as int, error as int));
            }
        }
    }

    /// Draws the segment `p1`–`p2` in `color`, clipped to the buffer: a
    /// segment wholly outside writes nothing; otherwise the Bresenham pixels
    /// of its clipped part are written.
    pub fn draw_line(&mut self, p1: &ScreenPoint, p2: &ScreenPoint, color: Color)
        requires
            old(self).wf(),
        ensures
            final(self).wf(),
            final(self)@ == line_drawn(old(self)@, p1.pair(), p2.pair(), packed_rgb(color)),
    {
        let outcode1 = self.compute_outcode(p1.x as i64, p1.y as i64);
        let outcode2 = self.compute_outcode(p2.x as i64, p2.y as i64);
        proof {
            lemma_outcode_bits(self@.width as int, self@.height as int, p1.x as int, p1.y as int);
            lemma_outcode_bits(self@.width as int, self@.height as int, p2.x as int, p2.y as int);
            lemma_outcode_pair(outcode1, outcode2);
        }
        if (outcode1 | outcode2) == INSIDE {
            self.draw_line_inside(p1.x as i64, p1.y as i64, p2.x as i64, p2.y as i64, color);
        } else {
            let mut cloned_p1: (i64, i64) = (p1.x as i64, p1.y as i64);
            let mut cloned_p2: (i64, i64) = (p2.x as i64, p2.y as i64);
            proof {
                lemma_clip_segment_inside(
                    self@.width as int,
                    self@.height as int,
                    p1.pair(),
                    p2.pair(),
                );
            }
            if self.clip_line(&mut cloned_p1, &mut cloned_p2, outcode1, outcode2) {
                self.draw_line_inside(cloned_p1.0, cloned_p1.1, cloned_p2.0, cloned_p2.1, color);
            }
        }
    }

    /// Cohen–Sutherland region code of `(x, y)`.
    fn compute_outcode(&self, x: i64, y: i64) -> (r: u8)
        ensures
            r == outcode(self@.width as int, self@.height as int, x as int, y as int),
    {
        let xc: u8 = if x < 0 {
            LEFT
        } else if x > self.width as i64 {
            RIGHT
        } else {
            INSIDE
        };
        let yc: u8 = if y < 0 {
            BOTTOM
        } else if y > self.height as i64 {
            TOP
        } else {
            INSIDE
        };
        xc | yc
    }

    /// Cohen–Sutherland clipping: moves the endpoints onto the viewport
    /// rectangle and returns `true`, or returns `false` when the segment lies
    /// wholly outside.
    fn clip_line(&self, p1: &mut (i64, i64), p2: &mut (i64, i64), outcode1: u8, outcode2: u8) -> (r:
        bool)
        requires
            in_span(pair_of(*old(p1))),
            in_span(pair_of(*old(p2))),
            outcode1 == outcode(
                self@.width as int,
                self@.height as int,
                old(p1).0 as int,
                old(p1).1 as int,
            ),
            outcode2 == outcode(
                self@.width as int,
                self@.height as int,
                old(p2).0 as int,
                old(p2).1 as int,
            ),
        ensures
            r == clip_segment(
                self@.width as int,
                self@.height as int,
                pair_of(*old(p1)),
                pair_of(*old(p2)),
            ) is Some,
            r ==> clip_segment(
                self@.width as int,
                self@.height as int,
                pair_of(*old(p1)),
                pair_of(*old(p2)),
            ) == Some((pair_of(*final(p1)), pair_of(*final(p2)))),
    {
        let ghost w = self@.width as int;
        let ghost h = self@.height as int;
        let ghost whole = clip_segment(w, h, pair_of(*p1), pair_of(*p2));
        assert(whole == clip_segment(w, h, pair_of(*old(p1)), pair_of(*old(p2))));
        let mut outcode1 = outcode1;
        let mut outcode2 = outcode2;
        let width = self.width as i64;
        let height = self.height as i64;
        loop
            invariant
                w == self@.width,
                h == self@.height,
                whole == clip_segment(w, h, pair_of(*old(p1)), pair_of(*old(p2))),
                w == width,
                h == height,
                0 <= w <= 4294967295,
                0 <= h <= 4294967295,
                in_span(pair_of(*p1)),
                in_span(pair_of(*p2)),
                outcode1 == outcode(w, h, p1.0 as int, p1.1 as int),
                outcode2 == outcode(w, h, p2.0 as int, p2.1 as int),
                clip_segment(w, h, pair_of(*p1), pair_of(*p2)) == whole,
            decreases sides(w, h, pair_of(*p1), pair_of(*p2)),
        {
            proof {
                lemma_outcode_bits(w, h, p1.0 as int, p1.1 as int);
                lemma_outcode_bits(w, h, p2.0 as int, p2.1 as int);
                lemma_outcode_pair(outcode1, outcode2);
            }
            if (outcode1 | outcode2) == 0 {
                assert(whole == Some((pair_of(*p1), pair_of(*p2))));
                return true;
            } else if (outcode1 & outcode2) != 0 {
                assert(shares_side(w, h, pair_of(*p1), pair_of(*p2)));
                assert(whole is None);
                return false;
            } else {
                let ghost a = pair_of(*p1);
                let ghost b = pair_of(*p2);
                assert(!shares_side(w, h, a, b));
                let outcode_out = if outcode1 != 0 {
                    outcode1
                } else {
                    outcode2
                };
                proof {
                    lemma_clip_step_progress(w, h, a, b);
                    if outcode1 != 0 {
                        lemma_outcode_bits(w, h, a.0, a.1);
                    } else {
                        lemma_outcode_bits(w, h, b.0, b.1);
                    }
                }
                let x: i64;
                let y: i64;
                if (outcode_out & TOP) != 0 {
                    x = p1.0 + scale_rounded(p2.0 - p1.0, height - p1.1, p2.1 - p1.1);
                    y = height;
                } else if (outcode_out & BOTTOM) != 0 {
                    x = p1.0 + scale_rounded(p2.0 - p1.0, 0 - p1.1, p2.1 - p1.1);
                    y = 0;
                } else if (outcode_out & RIGHT) != 0 {
                    y = p1.1 + scale_rounded(p2.1 - p1.1, width - p1.0, p2.0 - p1.0);
                    x = width;
                } else {
                    y = p1.1 + scale_rounded(p2.1 - p1.1, 0 - p1.0, p2.0 - p1.0);
                    x = 0;
                }
                if outcode_out == outcode1 {
                    *p1 = (x, y);
                    outcode1 = self.compute_outcode(x, y);
                } else {
                    *p2 = (x, y);
                    outcode2 = self.compute_outcode(x, y);
                }
                assert((pair_of(*p1), pair_of(*p2)) == clip_step(w, h, a, b));
            }
        }
    }
}

/// A segment with both endpoints in the viewport rectangle is drawn as the
/// plain Bresenham line between them: no clipping takes place.
pub proof fn lemma_inside_line_unclipped(v: FrameView, a: (int, int), b: (int, int), c: u32)
    requires
        inside(v.width as int, v.height as int, a),
        inside(v.width as int, v.height as int, b),
    ensures
        line_drawn(v, a, b, c) == plot_all(v, bresenham(a.0, a.1, b.0, b.1), c),
{
}

/// A segment whose endpoints are both beyond the same boundary writes no
/// pixel: the buffer is unchanged.
pub proof fn lemma_outside_line_untouched(v: FrameView, a: (int, int), b: (int, int), c: u32)
    requires
        shares_side(v.width as int, v.height as int, a, b),
    ensures
        line_drawn(v, a, b, c) == v,
{
}

} // verus!
