//! The vector rendering of the pattern: sweeping a bounds rectangle at
//! fixed spacing, one dashed line per sweep position, each line's starting
//! phase taken cyclically from the selector sequence.

use vstd::prelude::*;
use crate::dash::DashSpan;
use crate::dash::dash_spans;
use crate::dash::spans_ok;

verus! {

/// A bounds rectangle in screen coordinates: the top edge is the larger
/// of the two vertical coordinates. Horizontal sweeps go from the top edge
/// down, vertical sweeps from the left edge right.
pub struct Bounds {
    pub left: i32,
    pub right: i32,
    pub top: i32,
    pub bottom: i32,
}

impl Bounds {
    /// A non-degenerate rectangle.
    pub open spec fn wf(self) -> bool {
        &&& self.left < self.right
        &&& self.bottom < self.top
    }
}

/// One sweep line: its coordinate along the sweep axis (a row for
/// horizontal lines, a column for vertical ones) and its dash spans,
/// offsets measured from the line's starting edge.
pub struct SweepLine {
    pub pos: i32,
    pub spans: Vec<DashSpan>,
}

/// One dash segment as a drawing command: its two endpoints and whether it
/// is drawn or a gap.
pub struct Segment {
    pub x0: i32,
    pub y0: i32,
    pub x1: i32,
    pub y1: i32,
    pub drawn: bool,
}

/// The horizontal sweep of `bounds`: one dashed line per row `top - k * d`
/// while that row lies strictly above the bottom edge, the `k`-th line's
/// starting phase taken from `selectors[k mod len]`, its spans running
/// over the full width of the rectangle.
pub fn horizontal_sweep(bounds: &Bounds, d: u32, selectors: &Vec<bool>) -> (r: Vec<SweepLine>)
    requires
        bounds.wf(),
        d >= 1,
        selectors@.len() >= 1,
    ensures
        forall|k: int|
            0 <= k < r@.len() ==> (#[trigger] r@[k]).pos == bounds.top - k * d,
        forall|k: int| 0 <= k < r@.len() ==> bounds.top - #[trigger] (k * d) > bounds.bottom,
        bounds.top - r@.len() * d <= bounds.bottom,
        forall|k: int|
            0 <= k < r@.len() ==> spans_ok(
                (#[trigger] r@[k]).spans@,
                bounds.right - bounds.left,
                d as int,
                selectors@[k % (selectors@.len() as int)],
            ),
{
    let length: u32 = ((bounds.right as i64) - (bounds.left as i64)) as u32;
    let mut lines: Vec<SweepLine> = Vec::new();
    let mut y: i64 = bounds.top as i64;
    let mut k: u64 = 0;
    while y > bounds.bottom as i64
        invariant
            bounds.wf(),
            d >= 1,
            selectors@.len() >= 1,
            length == bounds.right - bounds.left,
            k == lines@.len(),
            y == bounds.top - k * d,
            y <= bounds.top,
            forall|j: int|
                0 <= j < lines@.len() ==> (#[trigger] lines@[j]).pos == bounds.top - j * d,
            forall|j: int|
                0 <= j < lines@.len() ==> bounds.top - #[trigger] (j * d) > bounds.bottom,
            forall|j: int|
                0 <= j < lines@.len() ==> spans_ok(
                    (#[trigger] lines@[j]).spans@,
                    bounds.right - bounds.left,
                    d as int,
                    selectors@[j % (selectors@.len() as int)],
                ),
        decreases y + d - bounds.bottom,
    {
        let idx = (k % (selectors.len() as u64)) as usize;
        let start_drawn = selectors[idx];
        let spans = dash_spans(length, d, start_drawn);
        lines.push(SweepLine { pos: y as i32, spans });
        proof {
            assert(k * d + d == (k + 1) * d) by (nonlinear_arith);
            assert(k <= k * d) by (nonlinear_arith)
                requires
                    0 <= k,
                    1 <= d,
            ;
            assert(k < 0xffff_ffff_ffff_ffffu64);
        }
        y = y - d as i64;
        k = k + 1;
    }
    lines
}

/// The vertical sweep of `bounds`: one dashed line per column
/// `left + k * d` while that column lies strictly left of the right edge,
/// the `k`-th line's starting phase taken from `selectors[k mod len]`, its
/// spans running over the full height of the rectangle.
pub fn vertical_sweep(bounds: &Bounds, d: u32, selectors: &Vec<bool>) -> (r: Vec<SweepLine>)
    requires
        bounds.wf(),
        d >= 1,
        selectors@.len() >= 1,
    ensures
        forall|k: int|
            0 <= k < r@.len() ==> (#[trigger] r@[k]).pos == bounds.left + k * d,
        forall|k: int| 0 <= k < r@.len() ==> bounds.left + #[trigger] (k * d) < bounds.right,
        bounds.left + r@.len() * d >= bounds.right,
        forall|k: int|
            0 <= k < r@.len() ==> spans_ok(
                (#[trigger] r@[k]).spans@,
                bounds.top - bounds.bottom,
                d as int,
                selectors@[k % (selectors@.len() as int)],
            ),
{
    let length: u32 = ((bounds.top as i64) - (bounds.bottom as i64)) as u32;
    let mut lines: Vec<SweepLine> = Vec::new();
    let mut x: i64 = bounds.left as i64;
    let mut k: u64 = 0;
    while x < bounds.right as i64
        invariant
            bounds.wf(),
            d >= 1,
            selectors@.len() >= 1,
            length == bounds.top - bounds.bottom,
            k == lines@.len(),
            x == bounds.left + k * d,
            x >= bounds.left,
            forall|j: int|
                0 <= j < lines@.len() ==> (#[trigger] lines@[j]).pos == bounds.left + j * d,
            forall|j: int|
                0 <= j < lines@.len() ==> bounds.left + #[trigger] (j * d) < bounds.right,
            forall|j: int|
                0 <= j < lines@.len() ==> spans_ok(
                    (#[trigger] lines@[j]).spans@,
                    bounds.top - bounds.bottom,
                    d as int,
                    selectors@[j % (selectors@.len() as int)],
                ),
        decreases bounds.right + d - x,
    {
        let idx = (k % (selectors.len() as u64)) as usize;
        let start_drawn = selectors[idx];
        let spans = dash_spans(length, d, start_drawn);
        lines.push(SweepLine { pos: x as i32, spans });
        proof {
            assert(k * d + d == (k + 1) * d) by (nonlinear_arith);
            assert(k <= k * d) by (nonlinear_arith)
                requires
                    0 <= k,
                    1 <= d,
            ;
            assert(k < 0xffff_ffff_ffff_ffffu64);
        }
        x = x + d as i64;
        k = k + 1;
    }
    lines
}

/// The undashed vertical grid lines of `bounds`: one full-height drawn
/// line per column `left + (k + 1) * d`, while that column lies strictly
/// left of the right edge.
pub fn vertical_grid_lines(bounds: &Bounds, d: u32) -> (r: Vec<Segment>)
    requires
        bounds.wf(),
        d >= 1,
    ensures
        forall|k: int|
            0 <= k < r@.len() ==> {
                &&& (#[trigger] r@[k]).x0 == bounds.left + (k + 1) * d
                &&& r@[k].x1 == bounds.left + (k + 1) * d
                &&& r@[k].y0 == bounds.top
                &&& r@[k].y1 == bounds.bottom
                &&& r@[k].drawn
            },
        forall|k: int| 0 <= k < r@.len() ==> bounds.left + #[trigger] ((k + 1) * d) < bounds.right,
        bounds.left + (r@.len() + 1) * d >= bounds.right,
{
    let mut lines: Vec<Segment> = Vec::new();
    let mut x: i64 = bounds.left as i64 + d as i64;
    let mut k: u64 = 0;
    while x < bounds.right as i64
        invariant
            bounds.wf(),
            d >= 1,
            k == lines@.len(),
            x == bounds.left + (k + 1) * d,
            x >= bounds.left + 1,
            forall|j: int|
                0 <= j < lines@.len() ==> {
                    &&& (#[trigger] lines@[j]).x0 == bounds.left + (j + 1) * d
                    &&& lines@[j].x1 == bounds.left + (j + 1) * d
                    &&& lines@[j].y0 == bounds.top
                    &&& lines@[j].y1 == bounds.bottom
                    &&& lines@[j].drawn
                },
            forall|j: int|
                0 <= j < lines@.len() ==> bounds.left + #[trigger] ((j + 1) * d) < bounds.right,
        decreases bounds.right + d - x,
    {
        lines.push(
            Segment { x0: x as i32, y0: bounds.top, x1: x as i32, y1: bounds.bottom, drawn: true },
        );
        proof {
            assert((k + 1) * d + d == (k + 2) * d) by (nonlinear_arith);
            assert(k + 1 <= (k + 1) * d) by (nonlinear_arith)
                requires
                    0 <= k,
                    1 <= d,
            ;
            assert(k < 0xffff_ffff_ffff_ffffu64);
        }
        x = x + d as i64;
        k = k + 1;
    }
    lines
}

/// The undashed horizontal grid lines of `bounds`: one full-width drawn
/// line per row `top + d - k * d`, while that row lies strictly above the
/// bottom edge. The walk starts one spacing above the top edge, as the
/// interactive sketch drew it, so the row on the top edge itself is the
/// second one emitted; the first lies just off the surface.
pub fn horizontal_grid_lines(bounds: &Bounds, d: u32) -> (r: Vec<Segment>)
    requires
        bounds.wf(),
        d >= 1,
        bounds.top + d <= i32::MAX,
    ensures
        forall|k: int|
            0 <= k < r@.len() ==> {
                &&& (#[trigger] r@[k]).y0 == bounds.top + d - k * d
                &&& r@[k].y1 == bounds.top + d - k * d
                &&& r@[k].x0 == bounds.left
                &&& r@[k].x1 == bounds.right
                &&& r@[k].drawn
            },
        forall|k: int| 0 <= k < r@.len() ==> bounds.top + d - #[trigger] (k * d) > bounds.bottom,
        bounds.top + d - r@.len() * d <= bounds.bottom,
{
    let mut lines: Vec<Segment> = Vec::new();
    let mut y: i64 = bounds.top as i64 + d as i64;
    let mut k: u64 = 0;
    proof {
        assert(lines@.len() * d == 0) by (nonlinear_arith)
            requires
                lines@.len() == 0,
        ;
    }
    while y > bounds.bottom as i64
        invariant
            bounds.wf(),
            d >= 1,
            bounds.top + d <= i32::MAX,
            k == lines@.len(),
            y == bounds.top + d - k * d,
            y <= bounds.top + d,
            forall|j: int|
                0 <= j < lines@.len() ==> {
                    &&& (#[trigger] lines@[j]).y0 == bounds.top + d - j * d
                    &&& lines@[j].y1 == bounds.top + d - j * d
                    &&& lines@[j].x0 == bounds.left
                    &&& lines@[j].x1 == bounds.right
                    &&& lines@[j].drawn
                },
            forall|j: int|
                0 <= j < lines@.len() ==> bounds.top + d - #[trigger] (j * d) > bounds.bottom,
        decreases y + d - bounds.bottom,
    {
        lines.push(
            Segment { x0: bounds.left, y0: y as i32, x1: bounds.right, y1: y as i32, drawn: true },
        );
        proof {
            assert(k * d + d == (k + 1) * d) by (nonlinear_arith);
            assert(k <= k * d) by (nonlinear_arith)
                requires
                    0 <= k,
                    1 <= d,
            ;
            assert(k < 0xffff_ffff_ffff_ffffu64);
        }
        y = y - d as i64;
        k = k + 1;
    }
    lines
}

impl SweepLine {
    /// The drawing commands of a horizontal sweep line: each span becomes a
    /// segment at row `self.pos`, running rightwards from `line_start` (the
    /// left edge), with its drawn flag.
    pub fn segments_horizontal(&self, line_start: i32) -> (r: Vec<Segment>)
        requires
            forall|k: int|
                0 <= k < self.spans@.len() ==> line_start + (#[trigger] self.spans@[k]).lo
                    <= i32::MAX && line_start + self.spans@[k].hi <= i32::MAX,
        ensures
            r@.len() == self.spans@.len(),
            forall|k: int|
                0 <= k < r@.len() ==> {
                    &&& (#[trigger] r@[k]).x0 == line_start + self.spans@[k].lo
                    &&& r@[k].x1 == line_start + self.spans@[k].hi
                    &&& r@[k].y0 == self.pos
                    &&& r@[k].y1 == self.pos
                    &&& r@[k].drawn == self.spans@[k].drawn
                },
    {
        let mut out: Vec<Segment> = Vec::new();
        let mut i: usize = 0;
        while i < self.spans.len()
            invariant
                i <= self.spans@.len(),
                out@.len() == i,
                forall|k: int|
                    0 <= k < self.spans@.len() ==> line_start + (#[trigger] self.spans@[k]).lo
                        <= i32::MAX && line_start + self.spans@[k].hi <= i32::MAX,
                forall|k: int|
                    0 <= k < out@.len() ==> {
                        &&& (#[trigger] out@[k]).x0 == line_start + self.spans@[k].lo
                        &&& out@[k].x1 == line_start + self.spans@[k].hi
                        &&& out@[k].y0 == self.pos
                        &&& out@[k].y1 == self.pos
                        &&& out@[k].drawn == self.spans@[k].drawn
                    },
            decreases self.spans@.len() - i,
        {
            let s = &self.spans[i];
            let x0 = ((line_start as i64) + (s.lo as i64)) as i32;
            let x1 = ((line_start as i64) + (s.hi as i64)) as i32;
            out.push(Segment { x0, y0: self.pos, x1, y1: self.pos, drawn: s.drawn });
            i = i + 1;
        }
        out
    }

    /// The drawing commands of a vertical sweep line: each span becomes a
    /// segment at column `self.pos`, running downwards from `line_start`
    /// (the top edge), with its drawn flag.
    pub fn segments_vertical(&self, line_start: i32) -> (r: Vec<Segment>)
        requires
            forall|k: int|
                0 <= k < self.spans@.len() ==> line_start - (#[trigger] self.spans@[k]).lo
                    >= i32::MIN && line_start - self.spans@[k].hi >= i32::MIN,
        ensures
            r@.len() == self.spans@.len(),
            forall|k: int|
                0 <= k < r@.len() ==> {
                    &&& (#[trigger] r@[k]).y0 == line_start - self.spans@[k].lo
                    &&& r@[k].y1 == line_start - self.spans@[k].hi
                    &&& r@[k].x0 == self.pos
                    &&& r@[k].x1 == self.pos
                    &&& r@[k].drawn == self.spans@[k].drawn
                },
    {
        let mut out: Vec<Segment> = Vec::new();
        let mut i: usize = 0;
        while i < self.spans.len()
            invariant
                i <= self.spans@.len(),
                out@.len() == i,
                forall|k: int|
                    0 <= k < self.spans@.len() ==> line_start - (#[trigger] self.spans@[k]).lo
                        >= i32::MIN && line_start - self.spans@[k].hi >= i32::MIN,
                forall|k: int|
                    0 <= k < out@.len() ==> {
                        &&& (#[trigger] out@[k]).y0 == line_start - self.spans@[k].lo
                        &&& out@[k].y1 == line_start - self.spans@[k].hi
                        &&& out@[k].x0 == self.pos
                        &&& out@[k].x1 == self.pos
                        &&& out@[k].drawn == self.spans@[k].drawn
                    },
            decreases self.spans@.len() - i,
        {
            let s = &self.spans[i];
            let y0 = ((line_start as i64) - (s.lo as i64)) as i32;
            let y1 = ((line_start as i64) - (s.hi as i64)) as i32;
            out.push(Segment { x0: self.pos, y0, x1: self.pos, y1, drawn: s.drawn });
            i = i + 1;
        }
        out
    }
}

} // verus!
