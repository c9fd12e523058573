use vstd::prelude::*;

verus! {

pub open spec fn abs_int(v: int) -> int {
    if v < 0 {
        -v
    } else {
        v
    }
}

pub open spec fn max_int(a: int, b: int) -> int {
    if a >= b {
        a
    } else {
        b
    }
}

pub open spec fn min_int(a: int, b: int) -> int {
    if a <= b {
        a
    } else {
        b
    }
}

/// The unit step from `a` toward `b` (-1 when they are equal).
pub open spec fn toward(a: int, b: int) -> int {
    if a < b {
        1
    } else {
        -1
    }
}

/// One step of Bresenham's rasterizer from state `(x, y, err)`, for the segment from
/// `(x0, y0)` to `(x1, y1)`: a step along x when `2 err >= -|y1 - y0|`, a step along y when
/// `2 err <= |x1 - x0|`, both tested on the error before the step.
pub open spec fn raster_next(s: (int, int, int), x0: int, y0: int, x1: int, y1: int) -> (int, int, int) {
    let dx = abs_int(x1 - x0);
    let dy = -abs_int(y1 - y0);
    let e2 = 2 * s.2;
    let (x, err) = if e2 >= dy { (s.0 + toward(x0, x1), s.2 + dy) } else { (s.0, s.2) };
    let (y, err) = if e2 <= dx { (s.1 + toward(y0, y1), err + dx) } else { (s.1, err) };
    (x, y, err)
}

/// The rasterizer's state after `k` steps, from `(x0, y0)` with error `|x1 - x0| - |y1 - y0|`.
pub open spec fn raster_state(x0: int, y0: int, x1: int, y1: int, k: nat) -> (int, int, int)
    decreases k,
{
    if k == 0 {
        (x0, y0, abs_int(x1 - x0) - abs_int(y1 - y0))
    } else {
        raster_next(raster_state(x0, y0, x1, y1, (k - 1) as nat), x0, y0, x1, y1)
    }
}

/// The cells that Bresenham's rasterizer visits from `(x0, y0)` to `(x1, y1)`, both included.
pub open spec fn line_points(x0: int, y0: int, x1: int, y1: int) -> Seq<(isize, isize)> {
    Seq::new(
        (max_int(abs_int(x1 - x0), abs_int(y1 - y0)) + 1) as nat,
        |k: int|
            (
                raster_state(x0, y0, x1, y1, k as nat).0 as isize,
                raster_state(x0, y0, x1, y1, k as nat).1 as isize,
            ),
    )
}

/// Point `p` lies within half a cell of the segment from `(x0, y0)` to `(x1, y1)`, measured
/// along its longer axis.
pub open spec fn near_segment(p: (isize, isize), x0: int, y0: int, x1: int, y1: int) -> bool {
    let dx = abs_int(x1 - x0);
    let dy = abs_int(y1 - y0);
    let m = max_int(dx, dy);
    let r = dx * abs_int(p.1 - y0) - dy * abs_int(p.0 - x0);
    -m <= 2 * r <= m
}

/// From `a` to `b` is one step to one of the eight neighbours, moving toward `(x1, y1)` on each
/// axis where it moves.
pub open spec fn king_step(a: (isize, isize), b: (isize, isize), x0: int, y0: int, x1: int, y1: int) -> bool {
    let sx = b.0 - a.0;
    let sy = b.1 - a.1;
    &&& sx == 0 || sx == toward(x0, x1)
    &&& sy == 0 || sy == toward(y0, y1)
    &&& sx != 0 || sy != 0
}

/// `p` is a shortest chain of neighbouring cells from `(x0, y0)` to `(x1, y1)` whose every cell
/// lies within half a cell of the segment between them.
pub open spec fn is_line(p: Seq<(isize, isize)>, x0: int, y0: int, x1: int, y1: int) -> bool {
    &&& p.len() == max_int(abs_int(x1 - x0), abs_int(y1 - y0)) + 1
    &&& p[0].0 == x0 && p[0].1 == y0
    &&& p.last().0 == x1 && p.last().1 == y1
    &&& forall|i: int| 0 <= i < p.len() - 1 ==> #[trigger] king_step(p[i], p[i + 1], x0, y0, x1, y1)
    &&& forall|i: int| 0 <= i < p.len() ==> #[trigger] near_segment(p[i], x0, y0, x1, y1)
}

/// One step of the rasterizer keeps every count in range, moves along the longer axis, and
/// keeps the point within half a cell of the segment. `r` is `dx * ky - dy * kx`.
pub(crate) proof fn lemma_raster_step(dx: int, dy: int, kx: int, ky: int, r: int)
    requires
        0 <= kx <= dx,
        0 <= ky <= dy,
        kx != dx || ky != dy,
        r == dx * ky - dy * kx,
        -max_int(dx, dy) <= 2 * r <= max_int(dx, dy),
    ensures
        ({
            let e2 = 2 * (dx - dy + r);
            let step_x = e2 >= -dy;
            let step_y = e2 <= dx;
            &&& step_x ==> kx < dx
            &&& step_y ==> ky < dy
            &&& step_x || step_y
            &&& dx >= dy ==> step_x
            &&& dy > dx ==> step_y
            &&& -max_int(dx, dy) <= 2 * (r - (if step_x { dy } else { 0 }) + (if step_y { dx } else { 0 }))
                <= max_int(dx, dy)
        }),
{
    if kx == dx {
        assert(dx * (ky - dy) <= -dx) by (nonlinear_arith)
            requires
                dx >= 0,
                ky < dy,
        ;
        assert(r == dx * (ky - dy)) by (nonlinear_arith)
            requires
                r == dx * ky - dy * kx,
                kx == dx,
        ;
    }
    if ky == dy {
        assert(dy * (dx - kx) >= dy) by (nonlinear_arith)
            requires
                dy >= 0,
                kx < dx,
        ;
        assert(r == dy * (dx - kx)) by (nonlinear_arith)
            requires
                r == dx * ky - dy * kx,
                ky == dy,
        ;
    }
}

} // verus!
