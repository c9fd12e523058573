use vstd::prelude::*;

use crate::element::step_outcome;
use crate::view::GridView;

verus! {

/// Column of the `k`-th cell visited in a tick: rows from the bottom up, each left to right.
pub open spec fn scan_x(g: GridView, k: int) -> int {
    k % (g.width as int)
}

/// Row of the `k`-th cell visited in a tick.
pub open spec fn scan_y(g: GridView, k: int) -> int {
    g.height - 1 - k / (g.width as int)
}

/// `trace[k + 1]` is an outcome of stepping, in `trace[k]`, the element found at the `k`-th
/// visited cell.
pub open spec fn traced_step(trace: Seq<GridView>, k: int) -> bool {
    let x = scan_x(trace[0], k);
    let y = scan_y(trace[0], k);
    step_outcome(trace[k].at(x, y).element_type, trace[k], x, y, trace[k + 1])
}

/// The grids met while the first `n` cells of a tick over `g` were visited.
pub open spec fn is_partial_trace(g: GridView, trace: Seq<GridView>, n: int) -> bool {
    &&& trace.len() == n + 1
    &&& trace[0] == g
    &&& forall|k: int| 0 <= k < n ==> #[trigger] traced_step(trace, k)
}

/// The grids met during a whole tick over `g`, one per visited cell.
pub open spec fn is_tick_trace(g: GridView, trace: Seq<GridView>) -> bool {
    is_partial_trace(g, trace, (g.width * g.height) as int)
}

/// `g2` is a grid that one tick over `g` can produce.
pub open spec fn tick_outcome(g: GridView, g2: GridView) -> bool {
    exists|trace: Seq<GridView>| is_tick_trace(g, trace) && trace.last() == g2
}

/// The cell visited at step `(height - 1 - y) * width + x` of a tick is `(x, y)`.
pub proof fn lemma_scan_position(g: GridView, x: int, y: int)
    requires
        g.in_bounds(x, y),
    ensures
        0 <= (g.height - 1 - y) * g.width + x < g.width * g.height,
        scan_x(g, (g.height - 1 - y) * g.width + x) == x,
        scan_y(g, (g.height - 1 - y) * g.width + x) == y,
{
    let w = g.width as int;
    let h = g.height as int;
    let q = h - 1 - y;
    vstd::arithmetic::div_mod::lemma_fundamental_div_mod_converse(q * w + x, w, q, x);
    assert(0 <= q * w + x < w * h) by (nonlinear_arith)
        requires
            0 <= x < w,
            0 <= q < h,
            q == h - 1 - y,
    ;
}

/// Every outcome of stepping the element at `(x, y)` of `g` is `g1`.
pub open spec fn steps_to(g: GridView, x: int, y: int, g1: GridView) -> bool {
    forall|g2: GridView| #[trigger] step_outcome(g.at(x, y).element_type, g, x, y, g2) ==> g2 == g1
}

/// A tick visits `(cx, cy)` before `(x, y)`.
pub open spec fn visited_before(cx: int, cy: int, x: int, y: int) -> bool {
    cy > y || (cy == y && cx < x)
}

/// The `k`-th visited cell is on the grid, and `k` is its place in the visiting order.
pub proof fn lemma_scan_inverse(g: GridView, k: int)
    requires
        0 <= k < g.width * g.height,
    ensures
        g.in_bounds(scan_x(g, k), scan_y(g, k)),
        k == (g.height - 1 - scan_y(g, k)) * g.width + scan_x(g, k),
{
    let w = g.width as int;
    let h = g.height as int;
    assert(w > 0) by (nonlinear_arith)
        requires
            0 <= k < w * h,
            h >= 0,
    ;
    let q = k / w;
    let r = k % w;
    assert(0 <= r < w && 0 <= q < h && q * w + r == k) by (nonlinear_arith)
        requires
            w > 0,
            0 <= k < w * h,
            q == k / w,
            r == k % w,
    ;
}

/// The visiting order of cells on the grid is bottom row first, then left to right.
pub proof fn lemma_scan_order(g: GridView, cx: int, cy: int, x: int, y: int)
    requires
        g.in_bounds(cx, cy),
        g.in_bounds(x, y),
    ensures
        ((g.height - 1 - cy) * g.width + cx < (g.height - 1 - y) * g.width + x) <==> visited_before(
            cx,
            cy,
            x,
            y,
        ),
{
    let w = g.width as int;
    let h = g.height as int;
    let a = h - 1 - cy;
    let b = h - 1 - y;
    if a < b {
        assert(a * w + cx < b * w + x) by (nonlinear_arith)
            requires
                a < b,
                0 <= cx < w,
                0 <= x,
        ;
    } else if a > b {
        assert(a * w + cx > b * w + x) by (nonlinear_arith)
            requires
                a > b,
                0 <= x < w,
                0 <= cx,
        ;
    }
}

/// Along a tick whose steps before the `m`-th leave `g` alone, whose `m`-th step gives `g1`,
/// and whose later steps leave `g1` alone, the grid is `g` up to the `m`-th step and `g1` after.
proof fn lemma_trace_shape(g: GridView, g1: GridView, m: int, trace: Seq<GridView>, k: int)
    requires
        is_tick_trace(g, trace),
        0 <= m <= g.width * g.height,
        0 <= k <= g.width * g.height,
        forall|j: int| 0 <= j < m ==> #[trigger] steps_to(g, scan_x(g, j), scan_y(g, j), g),
        m < g.width * g.height ==> steps_to(g, scan_x(g, m), scan_y(g, m), g1),
        forall|j: int| m < j < g.width * g.height ==> #[trigger] steps_to(g1, scan_x(g, j), scan_y(g, j), g1),
    ensures
        trace[k] == if k <= m { g } else { g1 },
    decreases k,
{
    if k > 0 {
        lemma_trace_shape(g, g1, m, trace, k - 1);
        let j = k - 1;
        assert(traced_step(trace, j));
        if j < m {
            assert(steps_to(g, scan_x(g, j), scan_y(g, j), g));
        } else if j > m {
            assert(steps_to(g1, scan_x(g, j), scan_y(g, j), g1));
        }
    }
}

/// A tick over `g` in which every cell visited before `(x, y)` steps without change, the step
/// at `(x, y)` always gives `g1`, and every cell visited after `(x, y)` then steps without
/// change in `g1`, ends in `g1`.
pub proof fn lemma_tick_one_change(g: GridView, g1: GridView, x: int, y: int, g2: GridView)
    requires
        g.wf(),
        g.in_bounds(x, y),
        g1.width == g.width,
        g1.height == g.height,
        forall|cx: int, cy: int|
            g.in_bounds(cx, cy) && visited_before(cx, cy, x, y) ==> #[trigger] steps_to(g, cx, cy, g),
        steps_to(g, x, y, g1),
        forall|cx: int, cy: int|
            g.in_bounds(cx, cy) && visited_before(x, y, cx, cy) ==> #[trigger] steps_to(g1, cx, cy, g1),
        tick_outcome(g, g2),
    ensures
        g2 == g1,
{
    let trace = choose|trace: Seq<GridView>| is_tick_trace(g, trace) && trace.last() == g2;
    let n = g.width * g.height;
    let m = (g.height - 1 - y) * g.width + x;
    lemma_scan_position(g, x, y);
    assert forall|j: int| 0 <= j < m implies #[trigger] steps_to(g, scan_x(g, j), scan_y(g, j), g) by {
        lemma_scan_inverse(g, j);
        lemma_scan_order(g, scan_x(g, j), scan_y(g, j), x, y);
    }
    assert forall|j: int| m < j < n implies #[trigger] steps_to(g1, scan_x(g, j), scan_y(g, j), g1) by {
        lemma_scan_inverse(g, j);
        lemma_scan_order(g, x, y, scan_x(g, j), scan_y(g, j));
    }
    lemma_trace_shape(g, g1, m, trace, n as int);
}

/// A tick over a grid in which every cell steps without change leaves the grid as it is.
pub proof fn lemma_tick_idle(g: GridView, g2: GridView)
    requires
        g.wf(),
        forall|cx: int, cy: int| g.in_bounds(cx, cy) ==> #[trigger] steps_to(g, cx, cy, g),
        tick_outcome(g, g2),
    ensures
        g2 == g,
{
    let trace = choose|trace: Seq<GridView>| is_tick_trace(g, trace) && trace.last() == g2;
    let n = g.width * g.height;
    assert forall|j: int| 0 <= j < n implies #[trigger] steps_to(g, scan_x(g, j), scan_y(g, j), g) by {
        lemma_scan_inverse(g, j);
    }
    lemma_trace_shape(g, g, n as int, trace, n as int);
}

} // verus!
