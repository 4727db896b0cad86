//! A pixel buffer and the outline of a circle on it.
//!
//! The buffer is a row-major array of colour words. Drawing never fails:
//! what falls outside the buffer is left out.

use vstd::prelude::*;

verus! {

/// The abstract state of a pixel buffer.
pub struct FrameView {
    /// Pixels per row.
    pub width: nat,
    /// Number of rows.
    pub height: nat,
    /// The colour words, row after row.
    pub pixels: Seq<u32>,
}

impl FrameView {
    /// There is one colour word per pixel.
    pub open spec fn wf(self) -> bool {
        self.pixels.len() == self.width * self.height
    }

    /// The buffer has a pixel at column `x` of row `y`.
    pub open spec fn covers(self, x: int, y: int) -> bool {
        0 <= x < self.width && 0 <= y < self.height
    }

    /// The colour at column `x` of row `y`.
    pub open spec fn at(self, x: int, y: int) -> u32 {
        self.pixels[y * self.width + x]
    }

    /// This buffer is `before` with `color` put on each of its pixels that
    /// `painted` selects, and nothing else changed.
    pub open spec fn paints(
        self,
        before: FrameView,
        painted: spec_fn(int, int) -> bool,
        color: u32,
    ) -> bool {
        &&& self.wf()
        &&& self.width == before.width
        &&& self.height == before.height
        &&& forall|x: int, y: int|
            self.covers(x, y) ==> #[trigger] self.at(x, y) == if painted(x, y) {
                color
            } else {
                before.at(x, y)
            }
    }
}

/// The state of the circle trace after `step` rows: the column reached and
/// the running error term. The trace starts on the axis at the radius and
/// moves one column inwards whenever the error term has caught up with the
/// column.
pub open spec fn arc_state(radius: int, step: nat) -> (int, int)
    decreases step,
{
    if step == 0 {
        (radius, 0)
    } else {
        let (x, err) = arc_state(radius, (step - 1) as nat);
        let raised = err + 1 + 2 * step;
        if raised >= x {
            (x - 1, raised + 1 - 2 * (x - 1))
        } else {
            (x, raised)
        }
    }
}

/// The offset `(across, along)` lies on the traced arc of the first octant:
/// `along` rows from the axis the trace stands at column `across`, and has
/// not yet crossed the diagonal.
pub open spec fn on_arc(radius: int, across: int, along: int) -> bool {
    0 <= along <= across && arc_state(radius, along as nat).0 == across
}

/// The offset `(dx, dy)` from the centre lies on the outline of the circle:
/// on the traced arc or on one of its seven mirror images.
pub open spec fn on_circle(radius: int, dx: int, dy: int) -> bool {
    let ax = if dx < 0 { -dx } else { dx };
    let ay = if dy < 0 { -dy } else { dy };
    on_arc(radius, ax, ay) || on_arc(radius, ay, ax)
}

/// The part of the outline that the trace has drawn before row `limit`.
spec fn on_circle_below(radius: int, dx: int, dy: int, limit: int) -> bool {
    let ax = if dx < 0 { -dx } else { dx };
    let ay = if dy < 0 { -dy } else { dy };
    (on_arc(radius, ax, ay) && ay < limit) || (on_arc(radius, ay, ax) && ax < limit)
}

/// The offset `(dx, dy)` is `(x, y)` or one of its seven mirror images.
spec fn mirrors(dx: int, dy: int, x: int, y: int) -> bool {
    let ax = if dx < 0 { -dx } else { dx };
    let ay = if dy < 0 { -dy } else { dy };
    (ax == x && ay == y) || (ax == y && ay == x)
}

/// The error term counts how far the point reached lies outside the
/// circle, plus two for every move made so far; and the trace only ever
/// moves inwards.
proof fn lemma_arc_state(radius: int, step: nat)
    ensures
        ({
            let (x, err) = arc_state(radius, step);
            &&& err == x * x + step * step - radius * radius + 2 * step + 2 * (radius - x)
            &&& x <= radius
            &&& step > 0 ==> x <= arc_state(radius, (step - 1) as nat).0
        }),
    decreases step,
{
    if step == 0 {
        assert(0 == radius * radius + 0 * 0 - radius * radius + 2 * 0 + 2 * (radius - radius))
            by (nonlinear_arith);
    } else {
        lemma_arc_state(radius, (step - 1) as nat);
        let (px, perr) = arc_state(radius, (step - 1) as nat);
        let (x, err) = arc_state(radius, step);
        let raised = perr + 1 + 2 * step;
        if raised >= px {
            assert(err == x * x + step * step - radius * radius + 2 * step + 2 * (radius - x))
                by (nonlinear_arith)
                requires
                    perr == px * px + (step - 1) * (step - 1) - radius * radius + 2 * (step - 1)
                        + 2 * (radius - px),
                    x == px - 1,
                    err == perr + 1 + 2 * step + 1 - 2 * (px - 1),
            ;
        } else {
            assert(err == x * x + step * step - radius * radius + 2 * step + 2 * (radius - x))
                by (nonlinear_arith)
                requires
                    perr == px * px + (step - 1) * (step - 1) - radius * radius + 2 * (step - 1)
                        + 2 * (radius - px),
                    x == px,
                    err == perr + 1 + 2 * step,
            ;
        }
    }
}

/// Once the trace has crossed the diagonal it stays across.
proof fn lemma_arc_crossed(radius: int, crossed: nat, later: nat)
    requires
        crossed <= later,
        arc_state(radius, crossed).0 < crossed,
    ensures
        arc_state(radius, later).0 < later,
    decreases later - crossed,
{
    if crossed < later {
        lemma_arc_crossed(radius, crossed, (later - 1) as nat);
        lemma_arc_state(radius, later);
    }
}

/// A pixel's place in the row-major array is within the array and
/// belongs to no other pixel.
proof fn lemma_row_major(width: int, height: int, x: int, y: int, x2: int, y2: int)
    requires
        0 <= x < width,
        0 <= y < height,
        0 <= x2 < width,
        0 <= y2 < height,
    ensures
        0 <= y * width,
        0 <= y * width + x < width * height,
        y * width + x == y2 * width + x2 ==> x == x2 && y == y2,
{
    assert(y * width + x < width * height) by (nonlinear_arith)
        requires
            0 <= x < width,
            0 <= y < height,
    ;
    assert(y * width >= 0) by (nonlinear_arith)
        requires
            0 <= y,
            0 < width,
    ;
    if y < y2 {
        assert(y2 * width >= y * width + width) by (nonlinear_arith)
            requires
                y < y2,
                width > 0,
        ;
    }
    if y2 < y {
        assert(y * width >= y2 * width + width) by (nonlinear_arith)
            requires
                y2 < y,
                width > 0,
        ;
    }
}

/// A rectangle of pixels, each one colour word.
pub struct FrameBuffer {
    width: usize,
    height: usize,
    pixels: Vec<u32>,
}

impl View for FrameBuffer {
    type V = FrameView;

    closed spec fn view(&self) -> FrameView {
        FrameView { width: self.width as nat, height: self.height as nat, pixels: self.pixels@ }
    }
}

impl FrameBuffer {
    /// There is one colour word per pixel.
    pub open spec fn wf(&self) -> bool {
        self@.wf()
    }

    /// A buffer of `width` by `height` pixels, all of colour zero.
    pub fn new(width: usize, height: usize) -> (frame: FrameBuffer)
        requires
            width * height <= usize::MAX,
        ensures
            frame.wf(),
            frame@.width == width,
            frame@.height == height,
            frame@.pixels == Seq::new((width * height) as nat, |i: int| 0u32),
    {
        let pixels: Vec<u32> = vec![0u32; width * height];
        FrameBuffer { width, height, pixels }
    }

    /// Pixels per row.
    pub fn width(&self) -> (width: usize)
        ensures
            width == self@.width,
    {
        self.width
    }

    /// Number of rows.
    pub fn height(&self) -> (height: usize)
        ensures
            height == self@.height,
    {
        self.height
    }

    /// The colour words, row after row.
    pub fn pixels(&self) -> (pixels: &Vec<u32>)
        ensures
            pixels@ == self@.pixels,
    {
        &self.pixels
    }

    /// Sets every pixel to colour zero.
    pub fn clear(&mut self)
        requires
            old(self).wf(),
        ensures
            final(self).wf(),
            final(self)@.width == old(self)@.width,
            final(self)@.height == old(self)@.height,
            final(self)@.pixels == Seq::new(old(self)@.pixels.len(), |i: int| 0u32),
    {
        let count = self.pixels.len();
        let mut i: usize = 0;
        while i < count
            invariant
                i <= count,
                count == self.pixels.len(),
                self.width == old(self).width,
                self.height == old(self).height,
                forall|k: int| 0 <= k < i ==> self.pixels[k] == 0u32,
            decreases count - i,
        {
            self.pixels[i] = 0;
            i += 1;
        }
    }

    /// Puts `color` on the pixel at column `x` of row `y`, if the buffer has
    /// such a pixel.
    pub fn draw_pixel(&mut self, x: i64, y: i64, color: u32)
        requires
            old(self).wf(),
        ensures
            final(self)@.paints(old(self)@, |px: int, py: int| px == x && py == y, color),
    {
        if x >= 0 && y >= 0 && (x as u64) < (self.width as u64) && (y as u64) < (
        self.height as u64) {
            let column: usize = x as usize;
            let row: usize = y as usize;
            let ghost before = self@;
            proof {
                lemma_row_major(
                    self.width as int,
                    self.height as int,
                    x as int,
                    y as int,
                    x as int,
                    y as int,
                );
            }
            assert(row * self.width + column < self.pixels.len());
            let place: usize = row * self.width + column;
            self.pixels[place] = color;
            proof {
                assert forall|px: int, py: int| self@.covers(px, py) implies #[trigger] self@.at(
                    px,
                    py,
                ) == if px == x && py == y {
                    color
                } else {
                    before.at(px, py)
                } by {
                    lemma_row_major(self.width as int, self.height as int, px, py, x as int, y as int);
                }
            }
        }
    }

    /// Puts `color` on the eight mirror images of the offset `(x, y)` from
    /// the centre, as far as the buffer has them.
    fn draw_mirrored(&mut self, center_x: i64, center_y: i64, x: i64, y: i64, color: u32)
        requires
            old(self).wf(),
            -0x1_0000_0000 <= center_x <= 0x1_0000_0000,
            -0x1_0000_0000 <= center_y <= 0x1_0000_0000,
            0 <= y <= x <= 0x1_0000_0000,
        ensures
            final(self)@.paints(
                old(self)@,
                |px: int, py: int| mirrors(px - center_x, py - center_y, x as int, y as int),
                color,
            ),
    {
        self.draw_pixel(center_x + x, center_y + y, color);
        self.draw_pixel(center_x + y, center_y + x, color);
        self.draw_pixel(center_x - y, center_y + x, color);
        self.draw_pixel(center_x - x, center_y + y, color);
        self.draw_pixel(center_x - x, center_y - y, color);
        self.draw_pixel(center_x - y, center_y - x, color);
        self.draw_pixel(center_x + y, center_y - x, color);
        self.draw_pixel(center_x + x, center_y - y, color);
    }

    /// Outlines a circle: puts `color` on every pixel of the buffer whose
    /// offset from the centre lies on the outline of the given radius. A
    /// negative radius outlines nothing.
    pub fn draw_circle(&mut self, center_x: i32, center_y: i32, radius: i32, color: u32)
        requires
            old(self).wf(),
        ensures
            final(self)@.paints(
                old(self)@,
                |px: int, py: int| on_circle(radius as int, px - center_x, py - center_y),
                color,
            ),
    {
        let cx: i64 = center_x as i64;
        let cy: i64 = center_y as i64;
        let mut x: i64 = radius as i64;
        let mut y: i64 = 0;
        let mut err: i64 = 0;
        while x >= y
            invariant
                self@.paints(
                    old(self)@,
                    |px: int, py: int| on_circle_below(radius as int, px - cx, py - cy, y as int),
                    color,
                ),
                cx == center_x,
                cy == center_y,
                0 <= y <= 0x8000_0000,
                (x as int, err as int) == arc_state(radius as int, y as nat),
            decreases x - y + 2,
        {
            proof {
                lemma_arc_state(radius as int, y as nat);
                lemma_arc_state(radius as int, (y + 1) as nat);
                lemma_error_bound(x as int, y as int, radius as int);
            }
            self.draw_mirrored(cx, cy, x, y, color);
            y += 1;
            err += 1 + 2 * y;
            if err >= x {
                x -= 1;
                err += 1 - 2 * x;
            }
        }
        proof {
            assert forall|px: int, py: int| self@.covers(px, py) implies #[trigger] self@.at(
                px,
                py,
            ) == if on_circle(radius as int, px - center_x, py - center_y) {
                color
            } else {
                old(self)@.at(px, py)
            } by {
                let dx = px - center_x;
                let dy = py - center_y;
                let ax = if dx < 0 { -dx } else { dx };
                let ay = if dy < 0 { -dy } else { dy };
                if ay >= y {
                    lemma_arc_crossed(radius as int, y as nat, ay as nat);
                }
                if ax >= y {
                    lemma_arc_crossed(radius as int, y as nat, ax as nat);
                }
            }
        }
    }
}

/// While the trace is between the axis and the diagonal, its error term
/// is within the square of the radius, give or take a few radii.
proof fn lemma_error_bound(x: int, y: int, radius: int)
    requires
        0 <= y <= x <= radius <= 0x7fff_ffff,
    ensures
        -0x4000_0002_0000_0000 <= x * x + y * y - radius * radius + 2 * y + 2 * (radius - x)
            <= 0x4000_0002_0000_0000,
{
    assert(x * x <= radius * radius) by (nonlinear_arith)
        requires
            0 <= x <= radius,
    ;
    assert(y * y <= radius * radius) by (nonlinear_arith)
        requires
            0 <= y <= radius,
    ;
    assert(y * y >= 0 && x * x >= 0) by (nonlinear_arith);
    assert(radius * radius <= 0x7fff_ffff * 0x7fff_ffff) by (nonlinear_arith)
        requires
            0 <= radius <= 0x7fff_ffff,
    ;
}

} // verus!
