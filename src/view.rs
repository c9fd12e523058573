use vstd::prelude::*;

use crate::element::{nothing, Element};
use crate::element_type::ElementType;

verus! {

/// The mathematical content of a grid: its size and its cells, row by row.
#[verifier::ext_equal]
pub struct GridView {
    pub width: nat,
    pub height: nat,
    pub cells: Seq<Element>,
}

impl GridView {
    pub open spec fn wf(self) -> bool {
        self.cells.len() == self.width * self.height
    }

    pub open spec fn in_bounds(self, x: int, y: int) -> bool {
        0 <= x < self.width && 0 <= y < self.height
    }

    pub open spec fn index_of(self, x: int, y: int) -> int {
        y * self.width + x
    }

    /// The element at `(x, y)`; the empty element off the grid.
    pub open spec fn at(self, x: int, y: int) -> Element {
        if self.in_bounds(x, y) {
            self.cells[self.index_of(x, y)]
        } else {
            nothing()
        }
    }

    /// `(x, y)` lies on the grid and holds nothing.
    pub open spec fn vacant(self, x: int, y: int) -> bool {
        self.in_bounds(x, y) && self.at(x, y).element_type == ElementType::Nothing
    }

    /// The grid with `(x, y)` overwritten by `e`; unchanged when `(x, y)` is off the grid.
    pub open spec fn put(self, x: int, y: int, e: Element) -> GridView {
        if self.in_bounds(x, y) {
            GridView { cells: self.cells.update(self.index_of(x, y), e), ..self }
        } else {
            self
        }
    }

    /// The element at `(x, y)` carried to `(nx, ny)`, and `(x, y)` emptied afterwards.
    pub open spec fn moved(self, x: int, y: int, nx: int, ny: int) -> GridView {
        self.put(nx, ny, self.at(x, y)).put(x, y, nothing())
    }

    /// The elements at `(x, y)` and `(nx, ny)` exchanged.
    pub open spec fn swapped(self, x: int, y: int, nx: int, ny: int) -> GridView {
        self.put(x, y, self.at(nx, ny)).put(nx, ny, self.at(x, y))
    }

    /// Every cell is the catalog's empty element.
    pub open spec fn is_blank(self) -> bool {
        forall|x: int, y: int| #[trigger] self.at(x, y) == nothing()
    }

    /// Every cell holds nothing.
    pub open spec fn is_empty(self) -> bool {
        forall|x: int, y: int| #[trigger] self.at(x, y).element_type == ElementType::Nothing
    }
}

pub proof fn lemma_index_in_range(g: GridView, x: int, y: int)
    requires
        g.wf(),
        g.in_bounds(x, y),
    ensures
        0 <= g.index_of(x, y) < g.cells.len(),
{
    assert(0 <= y * g.width + x < g.width * g.height) by (nonlinear_arith)
        requires
            0 <= x < g.width,
            0 <= y < g.height,
    ;
}

pub proof fn lemma_index_injective(g: GridView, x: int, y: int, cx: int, cy: int)
    requires
        g.in_bounds(x, y),
        g.in_bounds(cx, cy),
        g.index_of(x, y) == g.index_of(cx, cy),
    ensures
        x == cx && y == cy,
{
    let w = g.width as int;
    if y < cy {
        assert(y * w + x < cy * w + cx) by (nonlinear_arith)
            requires
                y < cy,
                0 <= x < w,
                0 <= cx,
        ;
    } else if cy < y {
        assert(cy * w + cx < y * w + x) by (nonlinear_arith)
            requires
                cy < y,
                0 <= cx < w,
                0 <= x,
        ;
    }
}

/// Reading after a write: the written cell holds the new value, every other cell is kept.
pub broadcast proof fn lemma_at_put(g: GridView, x: int, y: int, e: Element, cx: int, cy: int)
    requires
        g.wf(),
    ensures
        #[trigger] g.put(x, y, e).at(cx, cy) == if x == cx && y == cy && g.in_bounds(x, y) {
            e
        } else {
            g.at(cx, cy)
        },
        g.put(x, y, e).wf(),
        g.put(x, y, e).width == g.width,
        g.put(x, y, e).height == g.height,
{
    if g.in_bounds(x, y) {
        lemma_index_in_range(g, x, y);
        if g.in_bounds(cx, cy) {
            lemma_index_in_range(g, cx, cy);
            if g.index_of(x, y) == g.index_of(cx, cy) {
                lemma_index_injective(g, x, y, cx, cy);
            }
        }
    }
}

pub broadcast proof fn lemma_put_shape(g: GridView, x: int, y: int, e: Element)
    requires
        g.wf(),
    ensures
        (#[trigger] g.put(x, y, e)).wf(),
        g.put(x, y, e).width == g.width,
        g.put(x, y, e).height == g.height,
{
    lemma_at_put(g, x, y, e, x, y);
}

/// Two grids of one size that agree on every cell are equal.
pub proof fn lemma_same_cells(a: GridView, b: GridView)
    requires
        a.wf(),
        b.wf(),
        a.width == b.width,
        a.height == b.height,
        forall|x: int, y: int| a.in_bounds(x, y) ==> #[trigger] a.at(x, y) == b.at(x, y),
    ensures
        a == b,
{
    let w = a.width as int;
    assert forall|i: int| 0 <= i < a.cells.len() implies a.cells[i] == b.cells[i] by {
        let x = i % w;
        let y = i / w;
        assert(w > 0) by (nonlinear_arith)
            requires
                0 <= i < w * a.height,
                a.height >= 0,
        ;
        assert(0 <= x < w && 0 <= y < a.height && y * w + x == i) by (nonlinear_arith)
            requires
                w > 0,
                0 <= i < w * a.height,
                x == i % w,
                y == i / w,
        ;
        assert(a.at(x, y) == b.at(x, y));
    }
    assert(a.cells =~= b.cells);
}

pub broadcast group group_grid_view {
    lemma_at_put,
    lemma_put_shape,
}

} // verus!
