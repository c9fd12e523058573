use vstd::prelude::*;

use crate::element::{catalog, Element};
use crate::view::{group_grid_view, GridView};
use crate::Grid;

verus! {

/// The closed set of kinds of matter a cell can hold; each kind has one update rule.
#[derive(Clone, Copy, PartialEq, Eq, Structural, Debug)]
pub enum ElementType {
    ImmovableSolid,
    MoveableSolid,
    Liquid,
    Gas,
    PixelGenerator,
    Nothing,
    Magic,
    Fire,
    Maze,
}

broadcast use group_grid_view;

/// Column of the free cell diagonally below `(x, y)` that a sliding element takes: the one on
/// the side of `right` when both are free.
pub open spec fn diagonal_x(g: GridView, x: int, y: int, right: bool) -> Option<int> {
    let left_free = g.vacant(x - 1, y + 1);
    let right_free = g.vacant(x + 1, y + 1);
    if left_free && right_free {
        if right {
            Some(x + 1)
        } else {
            Some(x - 1)
        }
    } else if left_free {
        Some(x - 1)
    } else if right_free {
        Some(x + 1)
    } else {
        None
    }
}

/// A falling solid at `(x, y)`: down into an empty cell, through a liquid by exchange, else
/// diagonally down into a free cell.
pub open spec fn moveable_solid_result(g: GridView, x: int, y: int, right: bool) -> GridView {
    if y + 1 < g.height && g.at(x, y + 1).element_type == ElementType::Nothing {
        g.moved(x, y, x, y + 1)
    } else if y + 1 < g.height && g.at(x, y + 1).element_type == ElementType::Liquid {
        g.swapped(x, y, x, y + 1)
    } else {
        match diagonal_x(g, x, y, right) {
            Some(nx) => g.moved(x, y, nx, y + 1),
            None => g,
        }
    }
}

/// A fixed solid at `(x, y)` sinks only through a liquid right below it.
pub open spec fn immoveable_solid_result(g: GridView, x: int, y: int) -> GridView {
    if y + 1 < g.height && g.at(x, y + 1).element_type == ElementType::Liquid {
        g.swapped(x, y, x, y + 1)
    } else {
        g
    }
}

/// The walk of the element at `(x, y)` along its row, one cell at a time in direction `d`,
/// through at most `limit` free cells.
pub open spec fn disperse(g: GridView, x: int, y: int, d: int, limit: nat) -> GridView
    decreases limit,
{
    if limit > 0 && g.vacant(x + d, y) {
        disperse(g.moved(x, y, x + d, y), x + d, y, d, (limit - 1) as nat)
    } else {
        g
    }
}

/// A liquid at `(x, y)`: with an empty cell below it slides to a free diagonal below, or falls
/// straight down; otherwise it spreads along its row, to the right when `right` holds.
pub open spec fn liquid_result(g: GridView, x: int, y: int, rate: nat, right: bool) -> GridView {
    if y + 1 < g.height && g.at(x, y + 1).element_type == ElementType::Nothing {
        match diagonal_x(g, x, y, right) {
            Some(nx) => g.moved(x, y, nx, y + 1),
            None => g.moved(x, y, x, y + 1),
        }
    } else {
        disperse(g, x, y, if right { 1 } else { -1 }, rate)
    }
}

/// The first probe `i` from `from` to `rate` whose cell `(x + d * i, y)` was accepted by the
/// draws and is free, with the gas moved there; the grid itself when there is none.
pub open spec fn gas_probe(g: GridView, x: int, y: int, d: int, rate: nat, accepted: Seq<bool>, from: nat) -> GridView
    decreases rate + 1 - from,
{
    if from < 1 || from > rate {
        g
    } else {
        let nx = x + d * from;
        if from - 1 < accepted.len() && accepted[from - 1] && g.vacant(nx, y) {
            g.moved(x, y, nx, y)
        } else {
            gas_probe(g, x, y, d, rate, accepted, from + 1)
        }
    }
}

/// A gas at `(x, y)` rises into an empty cell above it; otherwise (the top row included) it
/// moves to the first accepted free probe among the `rate` cells beside it on one side, to the
/// right when `right` holds.
pub open spec fn gas_result(g: GridView, x: int, y: int, rate: nat, right: bool, accepted: Seq<bool>) -> GridView {
    if y > 0 && g.at(x, y - 1).element_type == ElementType::Nothing {
        g.moved(x, y, x, y - 1)
    } else {
        gas_probe(g, x, y, if right { 1 } else { -1 }, rate, accepted, 1)
    }
}

/// A generator at `(x, y)` fills an empty cell below it with water.
pub open spec fn pixel_generator_result(g: GridView, x: int, y: int) -> GridView {
    if y + 1 < g.height && g.at(x, y + 1).element_type == ElementType::Nothing {
        g.put(x, y + 1, catalog(ElementType::Liquid))
    } else {
        g
    }
}

/// The free cell diagonally below `(x, y)`, as `diagonal_x` chooses it.
fn diagonal_target(grid: &Grid, x: usize, y: usize, right: bool) -> (r: Option<usize>)
    requires
        grid.wf(),
        grid@.in_bounds(x as int, y as int),
    ensures
        r.is_some() == diagonal_x(grid@, x as int, y as int, right).is_some(),
        r.is_some() ==> r.unwrap() as int == diagonal_x(grid@, x as int, y as int, right).unwrap(),
{
    let left_free = x > 0 && grid.is_vacant(x - 1, y + 1);
    let right_free = x + 1 < grid.width() && grid.is_vacant(x + 1, y + 1);
    if left_free && right_free {
        if right {
            Some(x + 1)
        } else {
            Some(x - 1)
        }
    } else if left_free {
        Some(x - 1)
    } else if right_free {
        Some(x + 1)
    } else {
        None
    }
}

/// Whether a random choice between the two diagonals below `(x, y)` is to be drawn, and the
/// draw: `true` for the right one.
fn draw_diagonal(grid: &mut Grid, x: usize, y: usize) -> (right: bool)
    requires
        old(grid).wf(),
        old(grid)@.in_bounds(x as int, y as int),
    ensures
        final(grid).wf(),
        final(grid).keeps_frame(old(grid)),
        final(grid)@ == old(grid)@,
{
    let left_free = x > 0 && grid.is_vacant(x - 1, y + 1);
    let right_free = x + 1 < grid.width() && grid.is_vacant(x + 1, y + 1);
    if left_free && right_free {
        grid.random_below(2) == 1
    } else {
        false
    }
}

/// The falling-solid rule at `(x, y)`, sliding right when both diagonals are free and `right`
/// holds.
pub fn step_moveable_solid_toward(grid: &mut Grid, x: usize, y: usize, right: bool)
    requires
        old(grid).wf(),
        old(grid)@.in_bounds(x as int, y as int),
    ensures
        final(grid).wf(),
        final(grid).keeps_frame(old(grid)),
        final(grid)@ == moveable_solid_result(old(grid)@, x as int, y as int, right),
{
    if y + 1 < grid.height() && grid.get(x, y + 1).element_type == ElementType::Nothing {
        grid.move_element(x, y, x, y + 1);
    } else if y + 1 < grid.height() && grid.get(x, y + 1).element_type == ElementType::Liquid {
        grid.swap_elements(x, y, x, y + 1);
    } else {
        match diagonal_target(grid, x, y, right) {
            Some(nx) => grid.move_element(x, y, nx, y + 1),
            None => {},
        }
    }
}

/// The falling-solid rule at `(x, y)`, with a uniform draw between two free diagonals.
pub fn step_moveable_solid(grid: &mut Grid, x: usize, y: usize)
    requires
        old(grid).wf(),
        old(grid)@.in_bounds(x as int, y as int),
    ensures
        final(grid).wf(),
        final(grid).keeps_frame(old(grid)),
        exists|right: bool| final(grid)@ == #[trigger] moveable_solid_result(old(grid)@, x as int, y as int, right),
{
    let right = draw_diagonal(grid, x, y);
    step_moveable_solid_toward(grid, x, y, right);
}

/// The fixed-solid rule at `(x, y)`.
pub fn step_immoveable_solid(grid: &mut Grid, x: usize, y: usize)
    requires
        old(grid).wf(),
        old(grid)@.in_bounds(x as int, y as int),
    ensures
        final(grid).wf(),
        final(grid).keeps_frame(old(grid)),
        final(grid)@ == immoveable_solid_result(old(grid)@, x as int, y as int),
{
    if y + 1 < grid.height() && grid.get(x, y + 1).element_type == ElementType::Liquid {
        grid.swap_elements(x, y, x, y + 1);
    }
}

/// The liquid rule at `(x, y)`, spreading at most `dispersion_rate` cells, to the right (or
/// sliding to the right diagonal when both are free) when `right` holds.
pub fn step_liquid_toward(grid: &mut Grid, x: usize, y: usize, dispersion_rate: usize, right: bool)
    requires
        old(grid).wf(),
        old(grid)@.in_bounds(x as int, y as int),
    ensures
        final(grid).wf(),
        final(grid).keeps_frame(old(grid)),
        final(grid)@ == liquid_result(old(grid)@, x as int, y as int, dispersion_rate as nat, right),
{
    if y + 1 < grid.height() && grid.get(x, y + 1).element_type == ElementType::Nothing {
        match diagonal_target(grid, x, y, right) {
            Some(nx) => grid.move_element(x, y, nx, y + 1),
            None => grid.move_element(x, y, x, y + 1),
        }
    } else {
        let ghost g0 = grid@;
        let ghost d: int = if right { 1 } else { -1 };
        let mut cx = x;
        let mut steps: usize = 0;
        let mut blocked = false;
        while steps < dispersion_rate && !blocked
            invariant
                grid.wf(),
                grid.keeps_frame(old(grid)),
                grid@.width == g0.width,
                grid@.height == g0.height,
                d == if right { 1int } else { -1int },
                steps <= dispersion_rate,
                grid@.in_bounds(cx as int, y as int),
                disperse(g0, x as int, y as int, d, dispersion_rate as nat) == disperse(
                    grid@,
                    cx as int,
                    y as int,
                    d,
                    (dispersion_rate - steps) as nat,
                ),
                blocked ==> !grid@.vacant(cx + d, y as int),
            decreases dispersion_rate - steps, if blocked { 0int } else { 1int },
        {
            let next: Option<usize> = if right {
                if cx + 1 < grid.width() {
                    Some(cx + 1)
                } else {
                    None
                }
            } else {
                if cx > 0 {
                    Some(cx - 1)
                } else {
                    None
                }
            };
            match next {
                Some(nx) => {
                    if grid.is_vacant(nx, y) {
                        grid.move_element(cx, y, nx, y);
                        cx = nx;
                        steps = steps + 1;
                    } else {
                        blocked = true;
                    }
                },
                None => {
                    blocked = true;
                },
            }
        }
    }
}

/// The liquid rule at `(x, y)`, with a uniform draw of the direction.
pub fn step_liquid(grid: &mut Grid, x: usize, y: usize, dispersion_rate: usize)
    requires
        old(grid).wf(),
        old(grid)@.in_bounds(x as int, y as int),
    ensures
        final(grid).wf(),
        final(grid).keeps_frame(old(grid)),
        exists|right: bool| final(grid)@ == #[trigger] liquid_result(old(grid)@, x as int, y as int, dispersion_rate as nat, right),
{
    let right = if y + 1 < grid.height() && grid.get(x, y + 1).element_type == ElementType::Nothing {
        draw_diagonal(grid, x, y)
    } else {
        grid.random_below(2) == 1
    };
    step_liquid_toward(grid, x, y, dispersion_rate, right);
}

/// The gas rule at `(x, y)` with probes up to `diffusion_rate` cells away on the side that
/// `right` picks, probe `i` (from 1) being accepted when `accepted[i - 1]` holds.
pub fn step_gas_with(
    grid: &mut Grid,
    x: usize,
    y: usize,
    diffusion_rate: usize,
    right: bool,
    accepted: &Vec<bool>,
)
    requires
        old(grid).wf(),
        old(grid)@.in_bounds(x as int, y as int),
    ensures
        final(grid).wf(),
        final(grid).keeps_frame(old(grid)),
        final(grid)@ == gas_result(old(grid)@, x as int, y as int, diffusion_rate as nat, right, accepted@),
{
    if y > 0 && grid.get(x, y - 1).element_type == ElementType::Nothing {
        grid.move_element(x, y, x, y - 1);
    } else {
        let ghost g0 = grid@;
        let ghost d: int = if right { 1 } else { -1 };
        let room = if right { grid.width() - 1 - x } else { x };
        let mut i: usize = 1;
        let mut done = false;
        while i <= diffusion_rate && !done
            invariant
                grid.wf(),
                grid.keeps_frame(old(grid)),
                g0 == old(grid)@,
                g0.in_bounds(x as int, y as int),
                d == if right { 1int } else { -1int },
                room == if right { g0.width - 1 - x } else { x as int },
                1 <= i,
                i <= diffusion_rate + 1,
                done ==> grid@ == gas_probe(g0, x as int, y as int, d, diffusion_rate as nat, accepted@, 1),
                !done ==> grid@ == g0,
                !done ==> gas_probe(g0, x as int, y as int, d, diffusion_rate as nat, accepted@, 1)
                    == gas_probe(g0, x as int, y as int, d, diffusion_rate as nat, accepted@, i as nat),
            decreases diffusion_rate + 1 - i, if done { 0int } else { 1int },
        {
            let fits = i <= room;
            proof {
                if !fits {
                    assert(!g0.in_bounds(x + d * i, y as int));
                }
            }
            if i - 1 < accepted.len() && accepted[i - 1] && fits {
                let nx = if right { x + i } else { x - i };
                assert(nx == x + d * i);
                if grid.is_vacant(nx, y) {
                    grid.move_element(x, y, nx, y);
                    done = true;
                }
            }
            if !done {
                assert(gas_probe(g0, x as int, y as int, d, diffusion_rate as nat, accepted@, i as nat)
                    == gas_probe(g0, x as int, y as int, d, diffusion_rate as nat, accepted@, (i + 1) as nat));
                if i == diffusion_rate {
                    assert(gas_probe(g0, x as int, y as int, d, diffusion_rate as nat, accepted@, (i + 1) as nat) == g0);
                    done = true;
                } else {
                    i = i + 1;
                }
            }
        }
    }
}

/// The gas rule at `(x, y)`: blocked, it draws a side uniformly, and each probe whose cell is
/// on the grid is accepted with probability `diffusion_rate / 10` (always from 10 on).
pub fn step_gas(grid: &mut Grid, x: usize, y: usize, diffusion_rate: usize)
    requires
        old(grid).wf(),
        old(grid)@.in_bounds(x as int, y as int),
    ensures
        final(grid).wf(),
        final(grid).keeps_frame(old(grid)),
        exists|right: bool, accepted: Seq<bool>|
            final(grid)@ == #[trigger] gas_result(old(grid)@, x as int, y as int, diffusion_rate as nat, right, accepted),
{
    let mut accepted: Vec<bool> = Vec::new();
    let mut right = false;
    if !(y > 0 && grid.get(x, y - 1).element_type == ElementType::Nothing) {
        right = grid.random_below(2) == 1;
        let room = if right { grid.width() - 1 - x } else { x };
        let mut i: usize = 1;
        while i <= diffusion_rate && i <= room
            invariant
                grid.wf(),
                grid.keeps_frame(old(grid)),
                grid@ == old(grid)@,
                grid@.in_bounds(x as int, y as int),
                1 <= i,
                room < usize::MAX,
            decreases diffusion_rate + 1 - i,
        {
            let draw = grid.random_below(100);
            accepted.push(diffusion_rate >= 10 || draw < diffusion_rate * 10);
            i = i + 1;
        }
    }
    step_gas_with(grid, x, y, diffusion_rate, right, &accepted);
}

/// The generator rule at `(x, y)`.
pub fn step_pixel_generator(grid: &mut Grid, x: usize, y: usize)
    requires
        old(grid).wf(),
        old(grid)@.in_bounds(x as int, y as int),
    ensures
        final(grid).wf(),
        final(grid).keeps_frame(old(grid)),
        final(grid)@ == pixel_generator_result(old(grid)@, x as int, y as int),
{
    if y + 1 < grid.height() && grid.get(x, y + 1).element_type == ElementType::Nothing {
        grid.set(x, y + 1, Element::of(ElementType::Liquid));
    }
}

} // verus!
