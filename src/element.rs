use vstd::prelude::*;

use crate::element_type::{
    gas_result, immoveable_solid_result, liquid_result, moveable_solid_result,
    pixel_generator_result, step_gas, step_immoveable_solid, step_liquid, step_moveable_solid,
    step_pixel_generator, ElementType,
};
use crate::view::{group_grid_view, GridView};
use crate::Grid;

verus! {

/// A display colour, one byte per channel.
#[derive(Clone, Copy, PartialEq, Eq, Structural, Debug)]
pub struct Color {
    pub r: u8,
    pub g: u8,
    pub b: u8,
}

/// The value held by one cell: its kind, how it is drawn and what it is called.
#[derive(Clone, Copy, PartialEq, Eq, Debug)]
pub struct Element {
    pub element_type: ElementType,
    pub color: Color,
    pub name: &'static str,
}

/// The catalog entry for each kind.
pub open spec fn catalog(t: ElementType) -> Element {
    match t {
        ElementType::ImmovableSolid => Element { element_type: t, color: Color { r: 169, g: 169, b: 169 }, name: "Stone" },
        ElementType::MoveableSolid => Element { element_type: t, color: Color { r: 255, g: 215, b: 0 }, name: "Sand" },
        ElementType::Liquid => Element { element_type: t, color: Color { r: 4, g: 59, b: 92 }, name: "Water" },
        ElementType::Gas => Element { element_type: t, color: Color { r: 200, g: 200, b: 220 }, name: "Gas" },
        ElementType::PixelGenerator => Element { element_type: t, color: Color { r: 0, g: 0, b: 255 }, name: "Generator" },
        ElementType::Nothing => Element { element_type: t, color: Color { r: 0, g: 0, b: 0 }, name: "Nothing" },
        ElementType::Magic => Element { element_type: t, color: Color { r: 0, g: 255, b: 0 }, name: "Magic" },
        ElementType::Fire => Element { element_type: t, color: Color { r: 255, g: 0, b: 0 }, name: "Fire" },
        ElementType::Maze => Element { element_type: t, color: Color { r: 255, g: 255, b: 255 }, name: "Maze" },
    }
}

/// The empty cell.
pub open spec fn nothing() -> Element {
    catalog(ElementType::Nothing)
}

/// How many cells a liquid spreads along its row in one step at most.
pub const LIQUID_DISPERSION: usize = 6;

/// How many cells beside it, on one side of its row, a blocked gas probes in one step.
pub const GAS_DIFFUSION: usize = 4;

/// Magic can pass into a cell holding nothing or a liquid.
pub open spec fn passable(e: Element) -> bool {
    e.element_type == ElementType::Nothing || e.element_type == ElementType::Liquid
}

/// Magic at `(x, y)` rises when the cell above is passable, steps sideways (right when `right`
/// holds) when the cell beside it at that height is passable, and trades places with what
/// stands at the cell it reaches.
pub open spec fn magic_result(g: GridView, x: int, y: int, right: bool) -> GridView {
    let dy: int = if y > 0 && passable(g.at(x, y - 1)) { -1 } else { 0 };
    let d: int = if right { 1 } else { -1 };
    let dx: int = if g.in_bounds(x + d, y + dy) && passable(g.at(x + d, y + dy)) { d } else { 0 };
    g.swapped(x, y, x + dx, y + dy)
}

/// Fire at `(x, y)` rises into an empty cell above it when `rise` holds; otherwise it drifts to
/// `(x + drift, y)` when that cell is free, and else goes out.
pub open spec fn fire_result(g: GridView, x: int, y: int, rise: bool, drift: int) -> GridView {
    if rise && y > 0 && g.at(x, y - 1).element_type == ElementType::Nothing {
        g.moved(x, y, x, y - 1)
    } else if g.vacant(x + drift, y) {
        g.moved(x, y, x + drift, y)
    } else {
        g.put(x, y, nothing())
    }
}

/// The `k`-th of the eight neighbours, column offset first, each from -1 to 1.
pub open spec fn neighbor_offset(k: int) -> (int, int) {
    let j = if k < 4 { k } else { k + 1 };
    (j / 3 - 1, j % 3 - 1)
}

/// 1 when `(x, y)` holds maze, else 0.
pub open spec fn maze_at(g: GridView, x: int, y: int) -> nat {
    if g.at(x, y).element_type == ElementType::Maze { 1 } else { 0 }
}

/// The number of maze cells among the first `k` neighbours of `(x, y)`.
pub open spec fn maze_count_upto(g: GridView, x: int, y: int, k: nat) -> nat
    decreases k,
{
    if k == 0 {
        0
    } else {
        let (dx, dy) = neighbor_offset(k - 1);
        maze_count_upto(g, x, y, (k - 1) as nat) + maze_at(g, x + dx, y + dy)
    }
}

/// The number of maze cells among the eight neighbours of `(x, y)`.
pub open spec fn maze_count(g: GridView, x: int, y: int) -> nat {
    maze_count_upto(g, x, y, 8)
}

/// The `k`-th neighbour of `(x, y)` is on the grid, is not maze, and has exactly three maze
/// neighbours.
pub open spec fn birth_due(g: GridView, x: int, y: int, k: int) -> bool {
    let (dx, dy) = neighbor_offset(k);
    g.in_bounds(x + dx, y + dy) && g.at(x + dx, y + dy).element_type != ElementType::Maze && maze_count(
        g,
        x + dx,
        y + dy,
    ) == 3
}

/// The births around `(x, y)`, over its first `k` neighbours in order: a neighbour on the grid
/// that is not maze and has exactly three maze neighbours becomes maze.
pub open spec fn maze_births(g: GridView, x: int, y: int, k: nat) -> GridView
    decreases k,
{
    if k == 0 {
        g
    } else {
        let h = maze_births(g, x, y, (k - 1) as nat);
        let (dx, dy) = neighbor_offset(k - 1);
        if birth_due(h, x, y, k - 1) {
            h.put(x + dx, y + dy, catalog(ElementType::Maze))
        } else {
            h
        }
    }
}

/// Maze at `(x, y)`: the births around it, then its own death when it has fewer than one or
/// more than five maze neighbours.
pub open spec fn maze_result(g: GridView, x: int, y: int) -> GridView {
    let h = maze_births(g, x, y, 8);
    if h.at(x, y).element_type == ElementType::Maze && (maze_count(h, x, y) < 1 || maze_count(h, x, y) > 5) {
        h.put(x, y, nothing())
    } else {
        h
    }
}

/// The grids that one step of an element of kind `t` at `(x, y)` can leave behind, over every
/// value of the step's random draws.
pub open spec fn step_outcome(t: ElementType, g: GridView, x: int, y: int, g2: GridView) -> bool {
    if !g.in_bounds(x, y) {
        g2 == g
    } else {
        match t {
            ElementType::ImmovableSolid => g2 == immoveable_solid_result(g, x, y),
            ElementType::MoveableSolid => exists|right: bool| g2 == #[trigger] moveable_solid_result(g, x, y, right),
            ElementType::Liquid => exists|right: bool| g2 == #[trigger] liquid_result(g, x, y, LIQUID_DISPERSION as nat, right),
            ElementType::Gas => exists|right: bool, accepted: Seq<bool>|
                g2 == #[trigger] gas_result(g, x, y, GAS_DIFFUSION as nat, right, accepted),
            ElementType::PixelGenerator => g2 == pixel_generator_result(g, x, y),
            ElementType::Nothing => g2 == g,
            ElementType::Magic => exists|right: bool| g2 == #[trigger] magic_result(g, x, y, right),
            ElementType::Fire => exists|rise: bool, drift: int| -1 <= drift <= 1 && g2 == #[trigger] fire_result(g, x, y, rise, drift),
            ElementType::Maze => g2 == maze_result(g, x, y),
        }
    }
}

/// `v + d`, when it is a `usize`.
fn shifted(v: usize, d: isize) -> (r: Option<usize>)
    requires
        -1 <= d <= 1,
    ensures
        r.is_some() <==> 0 <= v + d <= usize::MAX,
        r.is_some() ==> r.unwrap() == v + d,
{
    if d < 0 {
        if v == 0 {
            None
        } else {
            Some(v - 1)
        }
    } else if d > 0 {
        if v == usize::MAX {
            None
        } else {
            Some(v + 1)
        }
    } else {
        Some(v)
    }
}

/// The offset of the `k`-th neighbour.
fn neighbor_offset_exec(k: usize) -> (r: (isize, isize))
    requires
        k < 8,
    ensures
        r.0 as int == neighbor_offset(k as int).0,
        r.1 as int == neighbor_offset(k as int).1,
        -1 <= r.0 <= 1,
        -1 <= r.1 <= 1,
{
    let j = if k < 4 { k } else { k + 1 };
    ((j / 3) as isize - 1, (j % 3) as isize - 1)
}

/// The element at `(x + dx, y + dy)`, empty off the grid.
fn neighbor(grid: &Grid, x: usize, y: usize, dx: isize, dy: isize) -> (r: Element)
    requires
        grid.wf(),
        -1 <= dx <= 1,
        -1 <= dy <= 1,
    ensures
        r == grid@.at(x + dx, y + dy),
{
    match (shifted(x, dx), shifted(y, dy)) {
        (Some(nx), Some(ny)) => grid.get(nx, ny),
        _ => Element::of(ElementType::Nothing),
    }
}

/// The number of maze cells among the eight neighbours of `(x, y)`.
fn count_maze_neighbors(grid: &Grid, x: usize, y: usize) -> (r: usize)
    requires
        grid.wf(),
    ensures
        r == maze_count(grid@, x as int, y as int),
{
    let mut count: usize = 0;
    let mut k: usize = 0;
    while k < 8
        invariant
            grid.wf(),
            k <= 8,
            count == maze_count_upto(grid@, x as int, y as int, k as nat),
            count <= k,
        decreases 8 - k,
    {
        let (dx, dy) = neighbor_offset_exec(k);
        if neighbor(grid, x, y, dx, dy).element_type == ElementType::Maze {
            count = count + 1;
        }
        k = k + 1;
    }
    count
}

impl Element {
    /// The catalog entry of kind `t`.
    pub fn of(t: ElementType) -> (r: Element)
        ensures
            r == catalog(t),
    {
        match t {
            ElementType::ImmovableSolid => Element { element_type: t, color: Color { r: 169, g: 169, b: 169 }, name: "Stone" },
            ElementType::MoveableSolid => Element { element_type: t, color: Color { r: 255, g: 215, b: 0 }, name: "Sand" },
            ElementType::Liquid => Element { element_type: t, color: Color { r: 4, g: 59, b: 92 }, name: "Water" },
            ElementType::Gas => Element { element_type: t, color: Color { r: 200, g: 200, b: 220 }, name: "Gas" },
            ElementType::PixelGenerator => Element { element_type: t, color: Color { r: 0, g: 0, b: 255 }, name: "Generator" },
            ElementType::Nothing => Element { element_type: t, color: Color { r: 0, g: 0, b: 0 }, name: "Nothing" },
            ElementType::Magic => Element { element_type: t, color: Color { r: 0, g: 255, b: 0 }, name: "Magic" },
            ElementType::Fire => Element { element_type: t, color: Color { r: 255, g: 0, b: 0 }, name: "Fire" },
            ElementType::Maze => Element { element_type: t, color: Color { r: 255, g: 255, b: 255 }, name: "Maze" },
        }
    }

    /// Runs the rule of this element's kind on the cell `(x, y)`; does nothing off the grid.
    pub fn step(&mut self, grid: &mut Grid, x: usize, y: usize)
        requires
            old(grid).wf(),
        ensures
            *final(self) == *old(self),
            final(grid).wf(),
            final(grid).keeps_frame(old(grid)),
            step_outcome(old(self).element_type, old(grid)@, x as int, y as int, final(grid)@),
    {
        broadcast use group_grid_view;

        if !grid.is_within_bounds(x, y) {
            return;
        }
        match self.element_type {
            ElementType::ImmovableSolid => step_immoveable_solid(grid, x, y),
            ElementType::MoveableSolid => step_moveable_solid(grid, x, y),
            ElementType::Liquid => step_liquid(grid, x, y, LIQUID_DISPERSION),
            ElementType::Gas => step_gas(grid, x, y, GAS_DIFFUSION),
            ElementType::PixelGenerator => step_pixel_generator(grid, x, y),
            ElementType::Nothing => {},
            ElementType::Magic => self.step_magic(grid, x, y),
            ElementType::Fire => self.step_fire(grid, x, y),
            ElementType::Maze => self.step_maze(grid, x, y),
        }
    }

    /// The magic rule at `(x, y)`, looking to the right for a side step when `right` holds.
    pub fn step_magic_toward(grid: &mut Grid, x: usize, y: usize, right: bool)
        requires
            old(grid).wf(),
            old(grid)@.in_bounds(x as int, y as int),
        ensures
            final(grid).wf(),
            final(grid).keeps_frame(old(grid)),
            final(grid)@ == magic_result(old(grid)@, x as int, y as int, right),
    {
        broadcast use group_grid_view;

        let mut ny = y;
        if y > 0 {
            let above = grid.get(x, y - 1);
            if above.element_type == ElementType::Nothing || above.element_type == ElementType::Liquid {
                ny = y - 1;
            }
        }
        let mut nx = x;
        if right {
            if x + 1 < grid.width() {
                let target = grid.get(x + 1, ny);
                if target.element_type == ElementType::Nothing || target.element_type == ElementType::Liquid {
                    nx = x + 1;
                }
            }
        } else if x > 0 {
            let target = grid.get(x - 1, ny);
            if target.element_type == ElementType::Nothing || target.element_type == ElementType::Liquid {
                nx = x - 1;
            }
        }
        grid.swap_elements(x, y, nx, ny);
    }

    /// The magic rule at `(x, y)`, with a uniform draw of the side.
    pub fn step_magic(&mut self, grid: &mut Grid, x: usize, y: usize)
        requires
            old(grid).wf(),
            old(grid)@.in_bounds(x as int, y as int),
        ensures
            *final(self) == *old(self),
            final(grid).wf(),
            final(grid).keeps_frame(old(grid)),
            exists|right: bool| final(grid)@ == #[trigger] magic_result(old(grid)@, x as int, y as int, right),
    {
        let right = grid.random_below(2) == 1;
        Element::step_magic_toward(grid, x, y, right);
    }

    /// The fire rule at `(x, y)` with its draws given: whether it rises, and its drift.
    pub fn step_fire_with(grid: &mut Grid, x: usize, y: usize, rise: bool, drift: isize)
        requires
            old(grid).wf(),
            old(grid)@.in_bounds(x as int, y as int),
            -1 <= drift <= 1,
        ensures
            final(grid).wf(),
            final(grid).keeps_frame(old(grid)),
            final(grid)@ == fire_result(old(grid)@, x as int, y as int, rise, drift as int),
    {
        broadcast use group_grid_view;

        if rise && y > 0 && grid.get(x, y - 1).element_type == ElementType::Nothing {
            grid.move_element(x, y, x, y - 1);
            return;
        }
        match shifted(x, drift) {
            Some(nx) => {
                if grid.is_vacant(nx, y) {
                    grid.move_element(x, y, nx, y);
                } else {
                    grid.set(x, y, Element::of(ElementType::Nothing));
                }
            },
            None => grid.set(x, y, Element::of(ElementType::Nothing)),
        }
    }

    /// The fire rule at `(x, y)`: it rises into an empty cell above with probability 7/10,
    /// otherwise drifts by a uniform draw from -1, 0 and 1.
    pub fn step_fire(&mut self, grid: &mut Grid, x: usize, y: usize)
        requires
            old(grid).wf(),
            old(grid)@.in_bounds(x as int, y as int),
        ensures
            *final(self) == *old(self),
            final(grid).wf(),
            final(grid).keeps_frame(old(grid)),
            exists|rise: bool, drift: int|
                -1 <= drift <= 1 && final(grid)@ == #[trigger] fire_result(old(grid)@, x as int, y as int, rise, drift),
    {
        let mut rise = false;
        if y > 0 && grid.get(x, y - 1).element_type == ElementType::Nothing {
            rise = grid.random_ratio(7, 10);
        }
        let mut drift: isize = 0;
        if !rise {
            drift = grid.random_below(3) as isize - 1;
        }
        Element::step_fire_with(grid, x, y, rise, drift);
    }

    /// The maze rule at `(x, y)`.
    pub fn step_maze(&mut self, grid: &mut Grid, x: usize, y: usize)
        requires
            old(grid).wf(),
            old(grid)@.in_bounds(x as int, y as int),
        ensures
            *final(self) == *old(self),
            final(grid).wf(),
            final(grid).keeps_frame(old(grid)),
            final(grid)@ == maze_result(old(grid)@, x as int, y as int),
    {
        broadcast use group_grid_view;

        let ghost g0 = grid@;
        let maze = Element::of(ElementType::Maze);
        let mut k: usize = 0;
        while k < 8
            invariant
                grid.wf(),
                grid.keeps_frame(old(grid)),
                k <= 8,
                maze == catalog(ElementType::Maze),
                grid@ == maze_births(g0, x as int, y as int, k as nat),
            decreases 8 - k,
        {
            let (dx, dy) = neighbor_offset_exec(k);
            match (shifted(x, dx), shifted(y, dy)) {
                (Some(nx), Some(ny)) => {
                    if grid.is_within_bounds(nx, ny) && grid.get(nx, ny).element_type != ElementType::Maze
                        && count_maze_neighbors(grid, nx, ny) == 3 {
                        grid.set(nx, ny, maze);
                    }
                },
                _ => {},
            }
            k = k + 1;
        }
        if grid.get(x, y).element_type == ElementType::Maze {
            let current = count_maze_neighbors(grid, x, y);
            if current < 1 || current > 5 {
                grid.set(x, y, Element::of(ElementType::Nothing));
            }
        }
    }
}

} // verus!
