//! A falling-sand cellular automaton: a fixed grid of cells, each holding one element, advanced
//! one tick at a time by a local rule per kind of element (falling solids, liquids, gas, fire,
//! generators, magic, and a maze-growing variant of the game of life), with the painting
//! operations of a host that draws on the grid.
//!
//! Every rule is stated over `GridView`, the grid's mathematical content; a rule that draws random
//! choices is stated as the set of outcomes over every value of its draws.

pub mod element;
pub mod element_type;
pub mod laws;
pub mod line;
pub mod paint;
pub mod rng;
pub mod tick;
pub mod view;

pub use element::{Color, Element};
pub use element_type::ElementType;
pub use view::GridView;

use rand::rngs::StdRng;
use vstd::prelude::*;
use vstd::string::*;

use crate::element::{catalog, nothing};
use crate::line::{abs_int, is_line, line_points, raster_state, king_step, lemma_raster_step, max_int, near_segment, toward};
use crate::paint::{brush_offsets, brush_offsets_of, brushed, covers, key_selection, paint_over, painted};
use crate::tick::{is_partial_trace, lemma_scan_position, traced_step, tick_outcome};
use crate::view::{group_grid_view, lemma_index_in_range};

verus! {

broadcast use group_grid_view;

/// Width of the grid that the host creates by default.
pub const GRID_WIDTH: usize = 226;

/// Height of the grid that the host creates by default.
pub const GRID_HEIGHT: usize = 126;

/// Seed of the generator of a grid made by `Grid::new`.
pub const DEFAULT_SEED: u64 = 0x5eed;

/// A fixed-size field of cells, stored row by row, with the painting state of the host
/// (the chosen element, the last pointer position, the brush size) and the generator that the
/// rules draw their random choices from.
pub struct Grid {
    width: usize,
    height: usize,
    elements: Vec<Element>,
    selected_element: Element,
    previous_mouse_x: usize,
    previous_mouse_y: usize,
    brush_size: usize,
    rng: StdRng,
}

impl View for Grid {
    type V = GridView;

    closed spec fn view(&self) -> GridView {
        GridView { width: self.width as nat, height: self.height as nat, cells: self.elements@ }
    }
}

/// `n` empty cells.
fn empty_cells(n: usize) -> (r: Vec<Element>)
    ensures
        r@ == Seq::new(n as nat, |i: int| nothing()),
{
    let empty = Element::of(ElementType::Nothing);
    let mut cells: Vec<Element> = Vec::new();
    let mut i: usize = 0;
    while i < n
        invariant
            i <= n,
            empty == nothing(),
            cells@ == Seq::new(i as nat, |k: int| nothing()),
        decreases n - i,
    {
        cells.push(empty);
        i = i + 1;
        assert(cells@ =~= Seq::new(i as nat, |k: int| nothing()));
    }
    cells
}

impl Grid {
    /// The grid keeps its shape, and the painting state stays in range.
    pub closed spec fn wf(&self) -> bool {
        &&& self@.wf()
        &&& self.width * self.height <= usize::MAX
        &&& 1 <= self.brush_size <= 3
        &&& self.previous_mouse_x <= isize::MAX
        &&& self.previous_mouse_y <= isize::MAX
    }

    /// The element that painting lays down.
    pub closed spec fn selected(&self) -> Element {
        self.selected_element
    }

    /// The brush size, from 1 to 3.
    pub closed spec fn brush(&self) -> nat {
        self.brush_size as nat
    }

    /// The pointer position where the last stroke ended.
    pub closed spec fn last_mouse(&self) -> (nat, nat) {
        (self.previous_mouse_x as nat, self.previous_mouse_y as nat)
    }

    /// Both grids have the same size and the same painting state.
    pub open spec fn keeps_frame(&self, other: &Grid) -> bool {
        &&& self@.width == other@.width
        &&& self@.height == other@.height
        &&& self.selected() == other.selected()
        &&& self.brush() == other.brush()
        &&& self.last_mouse() == other.last_mouse()
    }

    /// An empty grid whose generator is seeded with `seed`.
    pub fn with_seed(width: usize, height: usize, seed: u64) -> (r: Grid)
        requires
            width * height <= usize::MAX,
        ensures
            r.wf(),
            r@.width == width,
            r@.height == height,
            r@.cells == Seq::new((width * height) as nat, |i: int| nothing()),
            r.selected() == catalog(ElementType::Liquid),
            r.brush() == 3,
            r.last_mouse() == (0nat, 0nat),
    {
        Grid {
            width,
            height,
            elements: empty_cells(width * height),
            selected_element: Element::of(ElementType::Liquid),
            previous_mouse_x: 0,
            previous_mouse_y: 0,
            brush_size: 3,
            rng: rng::seeded(seed),
        }
    }

    /// An empty grid of the given size, whose generator starts from `DEFAULT_SEED`, so that
    /// runs repeat; `with_seed` gives each grid its own stream.
    pub fn new(width: usize, height: usize) -> (r: Grid)
        requires
            width * height <= usize::MAX,
        ensures
            r.wf(),
            r@.width == width,
            r@.height == height,
            r@.cells == Seq::new((width * height) as nat, |i: int| nothing()),
            r.selected() == catalog(ElementType::Liquid),
            r.brush() == 3,
            r.last_mouse() == (0nat, 0nat),
    {
        Grid::with_seed(width, height, DEFAULT_SEED)
    }

    pub fn width(&self) -> (r: usize)
        ensures
            r == self@.width,
    {
        self.width
    }

    pub fn height(&self) -> (r: usize)
        ensures
            r == self@.height,
    {
        self.height
    }

    /// The element at `(x, y)`, or the empty element when `(x, y)` is off the grid.
    pub fn get(&self, x: usize, y: usize) -> (r: Element)
        requires
            self.wf(),
        ensures
            r == self@.at(x as int, y as int),
            !self@.in_bounds(x as int, y as int) ==> r == nothing(),
    {
        if x < self.width && y < self.height {
            proof {
                lemma_index_in_range(self@, x as int, y as int);
            }
            self.elements[y * self.width + x]
        } else {
            Element::of(ElementType::Nothing)
        }
    }

    /// Overwrites the cell at `(x, y)`; does nothing when `(x, y)` is off the grid.
    pub fn set(&mut self, x: usize, y: usize, value: Element)
        requires
            old(self).wf(),
        ensures
            final(self).wf(),
            final(self).keeps_frame(old(self)),
            final(self)@ == old(self)@.put(x as int, y as int, value),
            !old(self)@.in_bounds(x as int, y as int) ==> final(self)@ == old(self)@,
    {
        if x < self.width && y < self.height {
            proof {
                lemma_index_in_range(self@, x as int, y as int);
            }
            self.elements.set(y * self.width + x, value);
        }
    }

    /// Carries the element at `(x, y)` to `(new_x, new_y)` and empties `(x, y)` afterwards, so
    /// that a move onto the same cell clears it.
    pub fn move_element(&mut self, x: usize, y: usize, new_x: usize, new_y: usize)
        requires
            old(self).wf(),
        ensures
            final(self).wf(),
            final(self).keeps_frame(old(self)),
            final(self)@ == old(self)@.moved(x as int, y as int, new_x as int, new_y as int),
    {
        let element = self.get(x, y);
        self.set(new_x, new_y, element);
        self.set(x, y, Element::of(ElementType::Nothing));
    }

    /// Exchanges the elements at `(x, y)` and `(new_x, new_y)`.
    pub fn swap_elements(&mut self, x: usize, y: usize, new_x: usize, new_y: usize)
        requires
            old(self).wf(),
        ensures
            final(self).wf(),
            final(self).keeps_frame(old(self)),
            final(self)@ == old(self)@.swapped(x as int, y as int, new_x as int, new_y as int),
    {
        let element1 = self.get(x, y);
        let element2 = self.get(new_x, new_y);
        self.set(x, y, element2);
        self.set(new_x, new_y, element1);
    }

    pub fn is_within_bounds(&self, x: usize, y: usize) -> (r: bool)
        ensures
            r == self@.in_bounds(x as int, y as int),
    {
        x < self.width && y < self.height
    }

    /// Empties every cell.
    pub fn reset(&mut self)
        requires
            old(self).wf(),
        ensures
            final(self).wf(),
            final(self).keeps_frame(old(self)),
            final(self)@.width == old(self)@.width,
            final(self)@.height == old(self)@.height,
            final(self)@.is_blank(),
            final(self)@.is_empty(),
    {
        self.elements = empty_cells(self.width * self.height);
        assert forall|x: int, y: int| #[trigger] self@.at(x, y) == nothing() by {
            if self@.in_bounds(x, y) {
                lemma_index_in_range(self@, x, y);
            }
        }
        assert forall|x: int, y: int| #[trigger] self@.at(x, y).element_type == ElementType::Nothing by {
            assert(self@.at(x, y) == nothing());
        }
    }

    /// Runs one tick: visits every cell once, rows from the bottom up and each row from left to
    /// right, and runs the rule of the element found there at that moment.
    pub fn update(&mut self)
        requires
            old(self).wf(),
        ensures
            final(self).wf(),
            final(self).keeps_frame(old(self)),
            tick_outcome(old(self)@, final(self)@),
    {
        let ghost g0 = self@;
        let ghost mut trace: Seq<GridView> = seq![self@];
        let width = self.width;
        let height = self.height;
        let mut row = height;
        while row > 0
            invariant
                self.wf(),
                self.keeps_frame(old(self)),
                g0 == old(self)@,
                width == g0.width,
                height == g0.height,
                row <= height,
                is_partial_trace(g0, trace, (height - row) * width),
                trace.last() == self@,
            decreases row,
        {
            row = row - 1;
            let mut x: usize = 0;
            while x < width
                invariant
                    self.wf(),
                    self.keeps_frame(old(self)),
                    g0 == old(self)@,
                    width == g0.width,
                    height == g0.height,
                    row < height,
                    x <= width,
                    is_partial_trace(g0, trace, (height - 1 - row) * width + x),
                    trace.last() == self@,
                decreases width - x,
            {
                let mut element = self.get(x, row);
                element.step(self, x, row);
                proof {
                    let k = (height - 1 - row) * width + x;
                    lemma_scan_position(g0, x as int, row as int);
                    let next = trace.push(self@);
                    assert forall|j: int| 0 <= j < k + 1 implies #[trigger] traced_step(next, j) by {
                        if j < k {
                            assert(traced_step(trace, j));
                        }
                    }
                    trace = next;
                }
                x = x + 1;
            }
            assert((height - 1 - row) * width + width == (height - row) * width) by (nonlinear_arith);
        }
        assert(is_partial_trace(g0, trace, (g0.width * g0.height) as int)) by {
            assert((height - 0) * width == width * height) by (nonlinear_arith);
        }
    }

    /// The cells of the straight line from `(x0, y0)` to `(x1, y1)`, both ends included, in
    /// order, as Bresenham's rasterizer picks them.
    pub fn draw_line(&self, x0: isize, y0: isize, x1: isize, y1: isize) -> (r: Vec<(isize, isize)>)
        ensures
            r@ == line_points(x0 as int, y0 as int, x1 as int, y1 as int),
            is_line(r@, x0 as int, y0 as int, x1 as int, y1 as int),
    {
        let ax0 = x0 as i128;
        let ay0 = y0 as i128;
        let ax1 = x1 as i128;
        let ay1 = y1 as i128;
        let dx: i128 = if ax1 >= ax0 { ax1 - ax0 } else { ax0 - ax1 };
        let dy: i128 = -(if ay1 >= ay0 { ay1 - ay0 } else { ay0 - ay1 });
        let sx: i128 = if ax0 < ax1 { 1 } else { -1 };
        let sy: i128 = if ay0 < ay1 { 1 } else { -1 };
        let mut err: i128 = dx + dy;
        let mut x: i128 = ax0;
        let mut y: i128 = ay0;
        let mut points: Vec<(isize, isize)> = Vec::new();
        points.push((x0, y0));
        let ghost big_x: int = dx as int;
        let ghost big_y: int = -dy;
        let ghost m: int = max_int(big_x, big_y);
        let ghost mut kx: int = 0;
        let ghost mut ky: int = 0;
        let ghost mut r: int = 0;
        proof {
            assert(big_x * 0 - big_y * 0 == 0) by (nonlinear_arith);
        }
        while x != ax1 || y != ay1
            invariant
                dx == big_x,
                dy == -big_y,
                big_x == abs_int(x1 - x0),
                big_y == abs_int(y1 - y0),
                m == max_int(big_x, big_y),
                sx == toward(x0 as int, x1 as int),
                sy == toward(y0 as int, y1 as int),
                ax1 == x1,
                ay1 == y1,
                0 <= kx <= big_x,
                0 <= ky <= big_y,
                x == if x0 < x1 { x0 + kx } else { x0 - kx },
                y == if y0 < y1 { y0 + ky } else { y0 - ky },
                r == big_x * ky - big_y * kx,
                -m <= 2 * r <= m,
                err == big_x - big_y + r,
                points@.len() == 1 + if big_x >= big_y { kx } else { ky },
                raster_state(x0 as int, y0 as int, x1 as int, y1 as int, (points@.len() - 1) as nat) == (
                    x as int,
                    y as int,
                    err as int,
                ),
                forall|i: int|
                    0 <= i < points@.len() ==> #[trigger] points@[i] == (
                        raster_state(x0 as int, y0 as int, x1 as int, y1 as int, i as nat).0 as isize,
                        raster_state(x0 as int, y0 as int, x1 as int, y1 as int, i as nat).1 as isize,
                    ),
                points@[0] == (x0, y0),
                points@.last().0 == x,
                points@.last().1 == y,
                forall|i: int|
                    0 <= i < points@.len() - 1 ==> #[trigger] king_step(
                        points@[i],
                        points@[i + 1],
                        x0 as int,
                        y0 as int,
                        x1 as int,
                        y1 as int,
                    ),
                forall|i: int|
                    0 <= i < points@.len() ==> #[trigger] near_segment(
                        points@[i],
                        x0 as int,
                        y0 as int,
                        x1 as int,
                        y1 as int,
                    ),
            decreases (big_x - kx) + (big_y - ky),
        {
            proof {
                lemma_raster_step(big_x, big_y, kx, ky, r);
            }
            let ghost before = points@;
            let e2 = 2 * err;
            if e2 >= dy {
                err = err + dy;
                x = x + sx;
                proof {
                    assert(big_x * ky - big_y * (kx + 1) == r - big_y) by (nonlinear_arith)
                        requires
                            r == big_x * ky - big_y * kx,
                    ;
                    kx = kx + 1;
                    r = r - big_y;
                }
            }
            if e2 <= dx {
                err = err + dx;
                y = y + sy;
                proof {
                    assert(big_x * (ky + 1) - big_y * kx == r + big_x) by (nonlinear_arith)
                        requires
                            r == big_x * ky - big_y * kx,
                    ;
                    ky = ky + 1;
                    r = r + big_x;
                }
            }
            points.push((x as isize, y as isize));
            proof {
                let n = before.len() as int;
                assert(raster_state(x0 as int, y0 as int, x1 as int, y1 as int, n as nat) == (
                    x as int,
                    y as int,
                    err as int,
                ));
                assert forall|i: int| 0 <= i < points@.len() implies #[trigger] points@[i] == (
                    raster_state(x0 as int, y0 as int, x1 as int, y1 as int, i as nat).0 as isize,
                    raster_state(x0 as int, y0 as int, x1 as int, y1 as int, i as nat).1 as isize,
                ) by {
                    if i < n {
                        assert(points@[i] == before[i]);
                    }
                }
                assert(king_step(points@[n - 1], points@[n], x0 as int, y0 as int, x1 as int, y1 as int));
                assert(near_segment(points@[n], x0 as int, y0 as int, x1 as int, y1 as int));
                assert forall|i: int| 0 <= i < points@.len() - 1 implies #[trigger] king_step(
                    points@[i],
                    points@[i + 1],
                    x0 as int,
                    y0 as int,
                    x1 as int,
                    y1 as int,
                ) by {
                    if i < n - 1 {
                        assert(points@[i] == before[i] && points@[i + 1] == before[i + 1]);
                    }
                }
                assert forall|i: int| 0 <= i < points@.len() implies #[trigger] near_segment(
                    points@[i],
                    x0 as int,
                    y0 as int,
                    x1 as int,
                    y1 as int,
                ) by {
                    if i < n {
                        assert(points@[i] == before[i]);
                    }
                }
            }
        }
        assert(points@ =~= line_points(x0 as int, y0 as int, x1 as int, y1 as int));
        points
    }

    /// Records the pointer position from which the next stroke starts.
    pub fn set_mouse(&mut self, mouse_pos_x: usize, mouse_pos_y: usize)
        requires
            old(self).wf(),
            mouse_pos_x <= isize::MAX,
            mouse_pos_y <= isize::MAX,
        ensures
            final(self).wf(),
            final(self)@ == old(self)@,
            final(self).selected() == old(self).selected(),
            final(self).brush() == old(self).brush(),
            final(self).last_mouse() == (mouse_pos_x as nat, mouse_pos_y as nat),
    {
        self.previous_mouse_x = mouse_pos_x;
        self.previous_mouse_y = mouse_pos_y;
    }

    /// Paints the selected element with the brush along the line from the last pointer position
    /// to `(mouse_pos_x, mouse_pos_y)`, which becomes the last position.
    pub fn draw_mouse(&mut self, mouse_pos_x: usize, mouse_pos_y: usize)
        requires
            old(self).wf(),
            mouse_pos_x <= isize::MAX,
            mouse_pos_y <= isize::MAX,
        ensures
            final(self).wf(),
            final(self).selected() == old(self).selected(),
            final(self).brush() == old(self).brush(),
            final(self).last_mouse() == (mouse_pos_x as nat, mouse_pos_y as nat),
            painted(
                old(self)@,
                final(self)@,
                line_points(
                    old(self).last_mouse().0 as int,
                    old(self).last_mouse().1 as int,
                    mouse_pos_x as int,
                    mouse_pos_y as int,
                ),
                brush_offsets(old(self).brush()),
                old(self).selected(),
            ),
    {
        let offsets = brush_offsets_of(self.brush_size);
        let points = self.draw_line(
            self.previous_mouse_x as isize,
            self.previous_mouse_y as isize,
            mouse_pos_x as isize,
            mouse_pos_y as isize,
        );
        let selected = self.selected_element;
        let ghost g0 = self@;
        let mut i: usize = 0;
        while i < points.len()
            invariant
                self.wf(),
                self.keeps_frame(old(self)),
                g0 == old(self)@,
                selected == old(self).selected(),
                i <= points@.len(),
                forall|x: int, y: int|
                    g0.in_bounds(x, y) ==> #[trigger] self@.at(x, y) == if brushed(points@.take(i as int), offsets@, x, y) {
                        paint_over(g0.at(x, y), selected)
                    } else {
                        g0.at(x, y)
                    },
            decreases points@.len() - i,
        {
            let (px, py) = points[i];
            let ghost done = points@.take(i as int);
            let mut j: usize = 0;
            while j < offsets.len()
                invariant
                    self.wf(),
                    self.keeps_frame(old(self)),
                    g0 == old(self)@,
                    selected == old(self).selected(),
                    i < points@.len(),
                    (px, py) == points@[i as int],
                    done == points@.take(i as int),
                    j <= offsets@.len(),
                    forall|x: int, y: int|
                        g0.in_bounds(x, y) ==> #[trigger] self@.at(x, y) == if brushed(done, offsets@, x, y)
                            || exists|b: int| 0 <= b < j && #[trigger] covers((px, py), offsets@[b], x, y) {
                            paint_over(g0.at(x, y), selected)
                        } else {
                            g0.at(x, y)
                        },
                decreases offsets@.len() - j,
            {
                let (ox, oy) = offsets[j];
                let nx = px as i128 + ox as i128;
                let ny = py as i128 + oy as i128;
                let ghost before = self@;
                if nx >= 0 && ny >= 0 && nx <= usize::MAX as i128 && ny <= usize::MAX as i128 {
                    let ux = nx as usize;
                    let uy = ny as usize;
                    let current = self.get(ux, uy);
                    if current.element_type == ElementType::Nothing || selected.element_type == ElementType::Nothing {
                        self.set(ux, uy, selected);
                    }
                }
                proof {
                    assert forall|x: int, y: int| g0.in_bounds(x, y) implies #[trigger] self@.at(x, y) == if brushed(done, offsets@, x, y)
                        || exists|b: int| 0 <= b < j + 1 && #[trigger] covers((px, py), offsets@[b], x, y) {
                        paint_over(g0.at(x, y), selected)
                    } else {
                        g0.at(x, y)
                    } by {
                        let was = brushed(done, offsets@, x, y) || exists|b: int| 0 <= b < j && #[trigger] covers((px, py), offsets@[b], x, y);
                        assert(before.at(x, y) == if was { paint_over(g0.at(x, y), selected) } else { g0.at(x, y) });
                        if covers((px, py), offsets@[j as int], x, y) {
                            assert(exists|b: int| 0 <= b < j + 1 && #[trigger] covers((px, py), offsets@[b], x, y));
                        } else {
                            if exists|b: int| 0 <= b < j + 1 && #[trigger] covers((px, py), offsets@[b], x, y) {
                                let b = choose|b: int| 0 <= b < j + 1 && #[trigger] covers((px, py), offsets@[b], x, y);
                                assert(b < j);
                            }
                        }
                    }
                }
                j = j + 1;
            }
            proof {
                let next = points@.take(i + 1);
                assert forall|x: int, y: int| g0.in_bounds(x, y) implies #[trigger] self@.at(x, y) == if brushed(next, offsets@, x, y) {
                    paint_over(g0.at(x, y), selected)
                } else {
                    g0.at(x, y)
                } by {
                    let here = exists|b: int| 0 <= b < offsets@.len() && #[trigger] covers((px, py), offsets@[b], x, y);
                    if brushed(done, offsets@, x, y) {
                        let (a, b) = choose|a: int, b: int| 0 <= a < done.len() && 0 <= b < offsets@.len() && #[trigger] covers(done[a], offsets@[b], x, y);
                        assert(next[a] == done[a]);
                        assert(covers(next[a], offsets@[b], x, y));
                    } else if here {
                        let b = choose|b: int| 0 <= b < offsets@.len() && #[trigger] covers((px, py), offsets@[b], x, y);
                        assert(next[i as int] == (px, py));
                        assert(covers(next[i as int], offsets@[b], x, y));
                    }
                    if brushed(next, offsets@, x, y) {
                        let (a, b) = choose|a: int, b: int| 0 <= a < next.len() && 0 <= b < offsets@.len() && #[trigger] covers(next[a], offsets@[b], x, y);
                        if a < i {
                            assert(done[a] == next[a]);
                            assert(covers(done[a], offsets@[b], x, y));
                        } else {
                            assert(next[a] == (px, py));
                        }
                    }
                }
            }
            i = i + 1;
        }
        assert(points@.take(points@.len() as int) =~= points@);
        self.previous_mouse_x = mouse_pos_x;
        self.previous_mouse_y = mouse_pos_y;
    }

    /// Makes `e` the element that painting lays down.
    pub fn update_selected_element(&mut self, e: Element)
        requires
            old(self).wf(),
        ensures
            final(self).wf(),
            final(self)@ == old(self)@,
            final(self).selected() == e,
            final(self).brush() == old(self).brush(),
            final(self).last_mouse() == old(self).last_mouse(),
    {
        self.selected_element = e;
    }

    /// Acts on a key: the keys of `key_selection` choose the element to paint, `[` and `]`
    /// shrink and grow the brush within sizes 1 to 3, and `z` empties the grid.
    pub fn handle_input(&mut self, gk: &str)
        requires
            old(self).wf(),
        ensures
            final(self).wf(),
            final(self)@.width == old(self)@.width,
            final(self)@.height == old(self)@.height,
            final(self).last_mouse() == old(self).last_mouse(),
            key_selection(gk@) is Some ==> {
                &&& final(self).selected() == catalog(key_selection(gk@)->Some_0)
                &&& final(self).brush() == old(self).brush()
                &&& final(self)@ == old(self)@
            },
            gk@ == seq!['['] ==> {
                &&& final(self).brush() == if old(self).brush() > 1 { (old(self).brush() - 1) as nat } else { old(self).brush() }
                &&& final(self).selected() == old(self).selected()
                &&& final(self)@ == old(self)@
            },
            gk@ == seq![']'] ==> {
                &&& final(self).brush() == if old(self).brush() < 3 { old(self).brush() + 1 } else { old(self).brush() }
                &&& final(self).selected() == old(self).selected()
                &&& final(self)@ == old(self)@
            },
            gk@ == seq!['z'] ==> {
                &&& final(self).brush() == old(self).brush()
                &&& final(self).selected() == old(self).selected()
                &&& final(self)@.is_blank()
            },
    {
        let mut key: char = ' ';
        if gk.unicode_len() == 1 {
            key = gk.get_char(0);
        }
        if gk.unicode_len() != 1 {
            self.selected_element = Element::of(ElementType::ImmovableSolid);
        } else if key == 'q' {
            self.selected_element = Element::of(ElementType::MoveableSolid);
        } else if key == 'w' {
            self.selected_element = Element::of(ElementType::Liquid);
        } else if key == 'e' {
            self.selected_element = Element::of(ElementType::ImmovableSolid);
        } else if key == 'r' {
            self.selected_element = Element::of(ElementType::Magic);
        } else if key == 't' {
            self.selected_element = Element::of(ElementType::Nothing);
        } else if key == 'y' {
            self.selected_element = Element::of(ElementType::Fire);
        } else if key == 'm' {
            self.selected_element = Element::of(ElementType::Maze);
        } else if key == '[' {
            if self.brush_size > 1 {
                self.brush_size = self.brush_size - 1;
            }
        } else if key == ']' {
            if self.brush_size < 3 {
                self.brush_size = self.brush_size + 1;
            }
        } else if key == 'z' {
            self.reset();
        } else {
            self.selected_element = Element::of(ElementType::ImmovableSolid);
        }
    }

    /// `(x, y)` lies on the grid and holds nothing.
    pub fn is_vacant(&self, x: usize, y: usize) -> (r: bool)
        requires
            self.wf(),
        ensures
            r == self@.vacant(x as int, y as int),
    {
        self.is_within_bounds(x, y) && self.get(x, y).element_type == ElementType::Nothing
    }

    /// A draw from the grid's generator: a number below `n`.
    pub(crate) fn random_below(&mut self, n: usize) -> (r: usize)
        requires
            old(self).wf(),
            n > 0,
        ensures
            r < n,
            final(self).wf(),
            final(self).keeps_frame(old(self)),
            final(self)@ == old(self)@,
    {
        rng::below(&mut self.rng, n)
    }

    /// A draw from the grid's generator: `true` with probability `num / den`.
    pub(crate) fn random_ratio(&mut self, num: u32, den: u32) -> (r: bool)
        requires
            old(self).wf(),
            0 < den,
            num <= den,
        ensures
            final(self).wf(),
            final(self).keeps_frame(old(self)),
            final(self)@ == old(self)@,
    {
        rng::ratio(&mut self.rng, num, den)
    }
}

} // verus!
