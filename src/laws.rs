use vstd::prelude::*;

use crate::element::{
    birth_due, catalog, fire_result, maze_births, maze_count, maze_result, neighbor_offset,
    nothing, step_outcome, Element,
};
use crate::element_type::{
    disperse, gas_probe, gas_result, immoveable_solid_result, liquid_result, moveable_solid_result,
    ElementType,
};
use crate::line::min_int;
use crate::tick::{lemma_tick_idle, lemma_tick_one_change, steps_to, tick_outcome, visited_before};
use crate::view::{group_grid_view, lemma_same_cells, GridView};

verus! {

broadcast use group_grid_view;

/// Off the grid every read gives the empty element and every write leaves the grid as it is.
pub proof fn lemma_off_grid(g: GridView, x: int, y: int, e: Element)
    requires
        !g.in_bounds(x, y),
    ensures
        g.at(x, y) == nothing(),
        g.put(x, y, e) == g,
{
}

/// Moving a cell onto itself empties it.
pub proof fn lemma_move_onto_itself(g: GridView, x: int, y: int)
    requires
        g.wf(),
    ensures
        g.moved(x, y, x, y) == g.put(x, y, nothing()),
{
    let a = g.moved(x, y, x, y);
    let b = g.put(x, y, nothing());
    assert forall|cx: int, cy: int| a.in_bounds(cx, cy) implies #[trigger] a.at(cx, cy) == b.at(cx, cy) by {}
    lemma_same_cells(a, b);
}

/// A tick over an empty grid leaves it as it is.
pub proof fn lemma_empty_tick(g: GridView, g2: GridView)
    requires
        g.wf(),
        g.is_empty(),
        tick_outcome(g, g2),
    ensures
        g2 == g,
{
    assert forall|cx: int, cy: int| g.in_bounds(cx, cy) implies #[trigger] steps_to(g, cx, cy, g) by {
        assert(g.at(cx, cy).element_type == ElementType::Nothing);
    }
    lemma_tick_idle(g, g2);
}

/// Along any run of ticks from an empty grid, every grid is that empty grid.
pub proof fn lemma_empty_stays_empty(ticks: Seq<GridView>)
    requires
        ticks.len() > 0,
        ticks[0].wf(),
        ticks[0].is_empty(),
        forall|i: int| 0 <= i < ticks.len() - 1 ==> #[trigger] tick_outcome(ticks[i], ticks[i + 1]),
    ensures
        forall|i: int| 0 <= i < ticks.len() ==> #[trigger] ticks[i] == ticks[0],
    decreases ticks.len(),
{
    if ticks.len() > 1 {
        let prefix = ticks.drop_last();
        assert forall|i: int| 0 <= i < prefix.len() - 1 implies #[trigger] tick_outcome(prefix[i], prefix[i + 1]) by {
            assert(tick_outcome(ticks[i], ticks[i + 1]));
        }
        lemma_empty_stays_empty(prefix);
        let n = ticks.len() - 1;
        let m = n - 1;
        assert(prefix[m] == ticks[m]);
        assert(tick_outcome(ticks[m], ticks[m + 1]));
        lemma_empty_tick(ticks[0], ticks[n]);
        assert forall|i: int| 0 <= i < ticks.len() implies #[trigger] ticks[i] == ticks[0] by {
            if i < n {
                assert(prefix[i] == ticks[i]);
            }
        }
    }
}

/// `g` holds the falling solid `e` at `(x, y)` above a floor of fixed solids on its bottom
/// row, and nothing anywhere else.
pub open spec fn settling(g: GridView, x: int, y: int, e: Element) -> bool {
    &&& g.wf()
    &&& g.height >= 2
    &&& 0 <= x < g.width
    &&& 0 <= y <= g.height - 2
    &&& e.element_type == ElementType::MoveableSolid
    &&& g.at(x, y) == e
    &&& forall|cx: int, cy: int|
        g.in_bounds(cx, cy) && !(cx == x && cy == y) ==> #[trigger] g.at(cx, cy).element_type == if cy
            == g.height - 1 {
            ElementType::ImmovableSolid
        } else {
            ElementType::Nothing
        }
}

/// A fixed solid or an empty cell of a settling grid steps without change.
proof fn lemma_settling_idle(g: GridView, x: int, y: int, e: Element, cx: int, cy: int)
    requires
        settling(g, x, y, e),
        g.in_bounds(cx, cy),
        !(cx == x && cy == y),
    ensures
        steps_to(g, cx, cy, g),
{
    assert(g.at(cx, cy).element_type == if cy == g.height - 1 {
        ElementType::ImmovableSolid
    } else {
        ElementType::Nothing
    });
    if cy == g.height - 1 {
        assert(immoveable_solid_result(g, cx, cy) == g);
    }
}

/// One tick drops the solid of a settling grid by one row until it rests on the floor; the
/// solid is neither lost nor copied.
pub proof fn lemma_settling_tick(g: GridView, x: int, y: int, e: Element, g2: GridView)
    requires
        settling(g, x, y, e),
        tick_outcome(g, g2),
    ensures
        g2.height == g.height,
        settling(g2, x, min_int(y + 1, g.height - 2), e),
{
    let h = g.height as int;
    if y < h - 2 {
        let g1 = g.moved(x, y, x, y + 1);
        assert forall|cx: int, cy: int| g.in_bounds(cx, cy) && visited_before(cx, cy, x, y) implies #[trigger] steps_to(
            g,
            cx,
            cy,
            g,
        ) by {
            lemma_settling_idle(g, x, y, e, cx, cy);
        }
        assert forall|right: bool| #[trigger] moveable_solid_result(g, x, y, right) == g1 by {
            assert(g.at(x, y + 1).element_type == ElementType::Nothing);
        }
        assert(steps_to(g, x, y, g1));
        assert(settling(g1, x, y + 1, e));
        assert forall|cx: int, cy: int| g.in_bounds(cx, cy) && visited_before(x, y, cx, cy) implies #[trigger] steps_to(
            g1,
            cx,
            cy,
            g1,
        ) by {
            lemma_settling_idle(g1, x, y + 1, e, cx, cy);
        }
        lemma_tick_one_change(g, g1, x, y, g2);
    } else {
        assert forall|cx: int, cy: int| g.in_bounds(cx, cy) implies #[trigger] steps_to(g, cx, cy, g) by {
            if cx == x && cy == y {
                assert(g.at(x, y + 1).element_type == ElementType::ImmovableSolid);
                assert(!g.vacant(x - 1, y + 1));
                assert(!g.vacant(x + 1, y + 1));
                assert forall|right: bool| #[trigger] moveable_solid_result(g, x, y, right) == g by {}
            } else {
                lemma_settling_idle(g, x, y, e, cx, cy);
            }
        }
        lemma_tick_idle(g, g2);
    }
}

/// Along any run of ticks from a settling grid, the solid has fallen one row per tick until it
/// rests on the floor, which it reaches within `height` ticks; it stays a single cell.
pub proof fn lemma_solid_settles(ticks: Seq<GridView>, x: int, y: int, e: Element)
    requires
        ticks.len() > 0,
        settling(ticks[0], x, y, e),
        forall|i: int| 0 <= i < ticks.len() - 1 ==> #[trigger] tick_outcome(ticks[i], ticks[i + 1]),
    ensures
        forall|i: int|
            0 <= i < ticks.len() ==> #[trigger] settling(ticks[i], x, min_int(y + i, ticks[0].height - 2), e),
        forall|i: int| ticks[0].height <= i < ticks.len() ==> #[trigger] ticks[i].at(x, ticks[0].height - 2) == e,
        forall|i: int| 0 <= i < ticks.len() ==> #[trigger] ticks[i].height == ticks[0].height,
    decreases ticks.len(),
{
    let h = ticks[0].height as int;
    if ticks.len() > 1 {
        let prefix = ticks.drop_last();
        assert forall|i: int| 0 <= i < prefix.len() - 1 implies #[trigger] tick_outcome(prefix[i], prefix[i + 1]) by {
            assert(tick_outcome(ticks[i], ticks[i + 1]));
        }
        lemma_solid_settles(prefix, x, y, e);
        let n = ticks.len() - 1;
        let m = n - 1;
        assert(prefix[0] == ticks[0]);
        assert(settling(prefix[m], x, min_int(y + m, prefix[0].height - 2), e));
        assert(prefix[m] == ticks[m]);
        assert(tick_outcome(ticks[m], ticks[m + 1]));
        lemma_settling_tick(ticks[m], x, min_int(y + m, h - 2), e, ticks[n]);
        assert forall|i: int| 0 <= i < ticks.len() implies #[trigger] settling(ticks[i], x, min_int(y + i, h - 2), e) by {
            if i < n {
                assert(prefix[i] == ticks[i]);
                assert(settling(prefix[i], x, min_int(y + i, prefix[0].height - 2), e));
            } else {
                assert(prefix[m].height == prefix[0].height);
                assert(min_int(min_int(y + m, h - 2) + 1, h - 2) == min_int(y + i, h - 2));
            }
        }
    }
    assert forall|i: int| 0 <= i < ticks.len() implies #[trigger] ticks[i].height == h by {
        if i > 0 {
            let prefix = ticks.drop_last();
            if i < ticks.len() - 1 {
                assert(prefix[i] == ticks[i]);
                assert(prefix[i].height == prefix[0].height);
            }
        }
    }
    assert forall|i: int| h <= i < ticks.len() implies #[trigger] ticks[i].at(x, h - 2) == e by {
        assert(settling(ticks[i], x, min_int(y + i, h - 2), e));
    }
}

/// Fire whose cell above, left and right all hold something (or lie off the grid) goes out in
/// its step, and nothing else changes.
pub proof fn lemma_fire_smothered(g: GridView, x: int, y: int)
    requires
        g.wf(),
        g.in_bounds(x, y),
        g.at(x, y).element_type != ElementType::Nothing,
        y == 0 || g.at(x, y - 1).element_type != ElementType::Nothing,
        !g.vacant(x - 1, y),
        !g.vacant(x + 1, y),
    ensures
        forall|g2: GridView| #[trigger] step_outcome(ElementType::Fire, g, x, y, g2) ==> g2 == g.put(x, y, nothing()),
{
    assert forall|rise: bool, drift: int| -1 <= drift <= 1 implies #[trigger] fire_result(g, x, y, rise, drift) == g.put(x, y, nothing()) by {
        assert(!g.vacant(x + drift, y));
    }
}

/// A fire walled in on every side by fixed solids goes out within one tick, and nothing else
/// changes.
pub proof fn lemma_walled_fire_tick(g: GridView, x: int, y: int, g2: GridView)
    requires
        g.wf(),
        g.in_bounds(x, y),
        g.at(x, y).element_type == ElementType::Fire,
        forall|cx: int, cy: int|
            g.in_bounds(cx, cy) && !(cx == x && cy == y) ==> #[trigger] g.at(cx, cy).element_type
                == ElementType::ImmovableSolid,
        tick_outcome(g, g2),
    ensures
        g2 == g.put(x, y, nothing()),
{
    let g1 = g.put(x, y, nothing());
    assert forall|cx: int, cy: int| g.in_bounds(cx, cy) && visited_before(cx, cy, x, y) implies #[trigger] steps_to(
        g,
        cx,
        cy,
        g,
    ) by {
        assert(g.at(cx, cy).element_type == ElementType::ImmovableSolid);
        assert(g.at(cx, cy + 1).element_type != ElementType::Liquid);
        assert(immoveable_solid_result(g, cx, cy) == g);
    }
    if y > 0 {
        assert(g.at(x, y - 1).element_type == ElementType::ImmovableSolid);
    }
    assert(!g.vacant(x - 1, y));
    assert(!g.vacant(x + 1, y));
    lemma_fire_smothered(g, x, y);
    assert forall|cx: int, cy: int| g.in_bounds(cx, cy) && visited_before(x, y, cx, cy) implies #[trigger] steps_to(
        g1,
        cx,
        cy,
        g1,
    ) by {
        assert(g1.at(cx, cy).element_type == ElementType::ImmovableSolid);
        assert(g1.at(cx, cy + 1).element_type != ElementType::Liquid);
        assert(immoveable_solid_result(g1, cx, cy) == g1);
    }
    lemma_tick_one_change(g, g1, x, y, g2);
}

/// A generator's step changes at most the cell right below it, and only when that cell held
/// nothing: it becomes water.
pub proof fn lemma_generator_fills_only_empty(g: GridView, x: int, y: int, g2: GridView)
    requires
        g.wf(),
        step_outcome(ElementType::PixelGenerator, g, x, y, g2),
    ensures
        forall|cx: int, cy: int|
            #[trigger] g2.at(cx, cy) != g.at(cx, cy) ==> cx == x && cy == y + 1 && g.at(cx, cy).element_type
                == ElementType::Nothing && g2.at(cx, cy) == catalog(ElementType::Liquid),
{
}

/// The first `k` births around `(x, y)` leave `g` as it is when none of them is due in `g`.
proof fn lemma_no_births(g: GridView, x: int, y: int, k: nat)
    requires
        k <= 8,
        forall|j: int| 0 <= j < k ==> !#[trigger] birth_due(g, x, y, j),
    ensures
        maze_births(g, x, y, k) == g,
    decreases k,
{
    if k > 0 {
        lemma_no_births(g, x, y, (k - 1) as nat);
    }
}

/// Each of the eight neighbour offsets has both coordinates in -1..=1 and is not `(0, 0)`.
proof fn lemma_neighbor_offset(k: int)
    requires
        0 <= k < 8,
    ensures
        -1 <= neighbor_offset(k).0 <= 1,
        -1 <= neighbor_offset(k).1 <= 1,
        neighbor_offset(k) != (0int, 0int),
{
    assert(k == 0 || k == 1 || k == 2 || k == 3 || k == 4 || k == 5 || k == 6 || k == 7);
}

/// Once maze, a cell stays maze through the later births.
proof fn lemma_births_keep_maze(g: GridView, x: int, y: int, k: nat, cx: int, cy: int)
    requires
        g.wf(),
        k <= 8,
        maze_births(g, x, y, k).at(cx, cy) == catalog(ElementType::Maze),
    ensures
        forall|j: nat| k <= j <= 8 ==> #[trigger] maze_births(g, x, y, j).at(cx, cy) == catalog(ElementType::Maze),
{
    assert forall|j: nat| k <= j <= 8 implies #[trigger] maze_births(g, x, y, j).at(cx, cy) == catalog(ElementType::Maze) by {
        lemma_births_keep_maze_upto(g, x, y, k, j, cx, cy);
    }
}

proof fn lemma_births_keep_maze_upto(g: GridView, x: int, y: int, k: nat, j: nat, cx: int, cy: int)
    requires
        g.wf(),
        k <= j <= 8,
        maze_births(g, x, y, k).at(cx, cy) == catalog(ElementType::Maze),
    ensures
        maze_births(g, x, y, j).at(cx, cy) == catalog(ElementType::Maze),
        maze_births(g, x, y, j).wf(),
    decreases j,
{
    if j > k {
        lemma_births_keep_maze_upto(g, x, y, k, (j - 1) as nat, cx, cy);
    } else {
        lemma_births_wf(g, x, y, j);
    }
}

proof fn lemma_births_wf(g: GridView, x: int, y: int, k: nat)
    requires
        g.wf(),
    ensures
        maze_births(g, x, y, k).wf(),
        maze_births(g, x, y, k).width == g.width,
        maze_births(g, x, y, k).height == g.height,
    decreases k,
{
    if k > 0 {
        lemma_births_wf(g, x, y, (k - 1) as nat);
    }
}

/// A maze step at `(x, y)` turns its `k`-th neighbour into maze when that neighbour is due a
/// birth and none of the neighbours before it is.
pub proof fn lemma_maze_birth(g: GridView, x: int, y: int, k: int)
    requires
        g.wf(),
        g.in_bounds(x, y),
        0 <= k < 8,
        birth_due(g, x, y, k),
        forall|j: int| 0 <= j < k ==> !#[trigger] birth_due(g, x, y, j),
    ensures
        maze_result(g, x, y).at(x + neighbor_offset(k).0, y + neighbor_offset(k).1) == catalog(ElementType::Maze),
{
    let (dx, dy) = neighbor_offset(k);
    lemma_neighbor_offset(k);
    lemma_no_births(g, x, y, k as nat);
    lemma_births_wf(g, x, y, k as nat);
    assert(maze_births(g, x, y, (k + 1) as nat) == g.put(x + dx, y + dy, catalog(ElementType::Maze)));
    lemma_births_keep_maze(g, x, y, (k + 1) as nat, x + dx, y + dy);
    assert(maze_births(g, x, y, 8).at(x + dx, y + dy) == catalog(ElementType::Maze));
    lemma_births_wf(g, x, y, 8);
}

/// A maze cell with fewer than one or more than five maze neighbours, around which no birth is
/// due, is empty after its step.
pub proof fn lemma_maze_death(g: GridView, x: int, y: int)
    requires
        g.wf(),
        g.in_bounds(x, y),
        g.at(x, y).element_type == ElementType::Maze,
        maze_count(g, x, y) < 1 || maze_count(g, x, y) > 5,
        forall|j: int| 0 <= j < 8 ==> !#[trigger] birth_due(g, x, y, j),
    ensures
        maze_result(g, x, y) == g.put(x, y, nothing()),
        maze_result(g, x, y).at(x, y) == nothing(),
{
    lemma_no_births(g, x, y, 8);
}

/// The walk of `disperse` carries the element at `(x, y)` at most `limit` cells along its row,
/// and changes no cell farther than `limit` from `x` or off row `y`.
pub proof fn lemma_disperse_bound(g: GridView, x: int, y: int, d: int, limit: nat)
    requires
        g.wf(),
        d == 1 || d == -1,
    ensures
        exists|k: int| 0 <= k <= limit && #[trigger] disperse(g, x, y, d, limit).at(x + d * k, y) == g.at(x, y),
        forall|cx: int, cy: int|
            cy != y || cx < x - limit || cx > x + limit ==> #[trigger] disperse(g, x, y, d, limit).at(cx, cy)
                == g.at(cx, cy),
        disperse(g, x, y, d, limit).wf(),
        disperse(g, x, y, d, limit).width == g.width,
        disperse(g, x, y, d, limit).height == g.height,
    decreases limit,
{
    let r = disperse(g, x, y, d, limit);
    if limit > 0 && g.vacant(x + d, y) {
        let g1 = g.moved(x, y, x + d, y);
        lemma_disperse_bound(g1, x + d, y, d, (limit - 1) as nat);
        let k1 = choose|k: int| 0 <= k <= limit - 1 && #[trigger] disperse(g1, x + d, y, d, (limit - 1) as nat).at(x + d + d * k, y) == g1.at(x + d, y);
        assert(x + d + d * k1 == x + d * (k1 + 1)) by (nonlinear_arith);
        assert(r.at(x + d * (k1 + 1), y) == g.at(x, y));
    } else {
        assert(r.at(x + d * 0, y) == g.at(x, y));
    }
}

/// A liquid that cannot fall spreads at most `rate` cells along its row in one step, toward
/// `d` (1 to the right, -1 to the left), and changes no cell farther away or off its row.
pub proof fn lemma_liquid_spread_bound(g: GridView, x: int, y: int, rate: nat, right: bool, d: int)
    requires
        g.wf(),
        !(y + 1 < g.height && g.at(x, y + 1).element_type == ElementType::Nothing),
        d == if right { 1int } else { -1int },
    ensures
        exists|k: int| 0 <= k <= rate && #[trigger] liquid_result(g, x, y, rate, right).at(x + d * k, y) == g.at(x, y),
        forall|cx: int, cy: int|
            cy != y || cx < x - rate || cx > x + rate ==> #[trigger] liquid_result(g, x, y, rate, right).at(cx, cy)
                == g.at(cx, cy),
{
    lemma_disperse_bound(g, x, y, d, rate);
    assert(liquid_result(g, x, y, rate, right) == disperse(g, x, y, d, rate));
}

/// The probes from `from` on leave the grid as it is, or move the gas to a free cell `k` steps
/// along `d`, with `from <= k <= rate`.
proof fn lemma_gas_probe_bound(g: GridView, x: int, y: int, d: int, rate: nat, accepted: Seq<bool>, from: nat)
    ensures
        gas_probe(g, x, y, d, rate, accepted, from) == g || exists|k: int|
            from <= k <= rate && g.vacant(x + d * k, y) && gas_probe(g, x, y, d, rate, accepted, from)
                == #[trigger] g.moved(x, y, x + d * k, y),
    decreases rate + 1 - from,
{
    if from >= 1 && from <= rate {
        let nx = x + d * from;
        if !(from - 1 < accepted.len() && accepted[from - 1] && g.vacant(nx, y)) {
            lemma_gas_probe_bound(g, x, y, d, rate, accepted, from + 1);
        }
    }
}

/// A gas step either rises into the empty cell right above, or moves along its row, on the
/// side `d` (1 to the right, -1 to the left) that `right` picks, into a free cell at most
/// `rate` cells away, or changes nothing.
pub proof fn lemma_gas_bound(g: GridView, x: int, y: int, rate: nat, right: bool, accepted: Seq<bool>, d: int)
    requires
        d == if right { 1int } else { -1int },
    ensures
        gas_result(g, x, y, rate, right, accepted) == g
            || (y > 0 && g.at(x, y - 1).element_type == ElementType::Nothing
                && gas_result(g, x, y, rate, right, accepted) == g.moved(x, y, x, y - 1))
            || exists|k: int|
                1 <= k <= rate && g.vacant(x + d * k, y) && gas_result(g, x, y, rate, right, accepted)
                    == #[trigger] g.moved(x, y, x + d * k, y),
{
    if !(y > 0 && g.at(x, y - 1).element_type == ElementType::Nothing) {
        lemma_gas_probe_bound(g, x, y, d, rate, accepted, 1);
    }
}

} // verus!
