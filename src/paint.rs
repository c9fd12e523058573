use vstd::prelude::*;

use crate::element::Element;
use crate::element_type::ElementType;
use crate::view::GridView;

verus! {

/// The cells a brush of size `size` covers around a point, as offsets (with repeats).
pub open spec fn brush_offsets(size: nat) -> Seq<(isize, isize)> {
    if size == 2 {
        seq![(0isize, 0isize), (1isize, 0isize), (1isize, 1isize), (0isize, 1isize), (-1isize, 0isize), (-1isize, -1isize), (0isize, -1isize)]
    } else if size == 3 {
        seq![
            (0isize, 0isize), (1isize, 0isize), (1isize, 1isize), (0isize, 1isize), (-1isize, 0isize), (-1isize, -1isize), (0isize, -1isize), (-2isize, 0isize), (-2isize, 1isize), (-2isize, -1isize),
            (-1isize, 2isize), (-1isize, 1isize), (-1isize, -2isize), (0isize, 2isize), (0isize, -1isize), (0isize, -2isize), (1isize, 2isize), (1isize, 0isize), (1isize, -1isize), (1isize, -2isize),
            (2isize, 0isize), (2isize, 1isize), (2isize, -1isize),
        ]
    } else {
        seq![(0isize, 0isize)]
    }
}

/// Point `p` moved by offset `o` lands on `(x, y)`.
pub open spec fn covers(p: (isize, isize), o: (isize, isize), x: int, y: int) -> bool {
    p.0 + o.0 == x && p.1 + o.1 == y
}

/// Some point of `line` moved by some offset of `offsets` lands on `(x, y)`.
pub open spec fn brushed(line: Seq<(isize, isize)>, offsets: Seq<(isize, isize)>, x: int, y: int) -> bool {
    exists|i: int, j: int| 0 <= i < line.len() && 0 <= j < offsets.len() && #[trigger] covers(line[i], offsets[j], x, y)
}

/// What painting `e` over a cell holding `old` leaves: paint goes only onto empty cells, unless
/// it is itself empty (an eraser).
pub open spec fn paint_over(old: Element, e: Element) -> Element {
    if old.element_type == ElementType::Nothing || e.element_type == ElementType::Nothing {
        e
    } else {
        old
    }
}

/// `g2` is `g` with `e` painted over every cell that the brush swept along `line`.
pub open spec fn painted(g: GridView, g2: GridView, line: Seq<(isize, isize)>, offsets: Seq<(isize, isize)>, e: Element) -> bool {
    &&& g2.wf()
    &&& g2.width == g.width
    &&& g2.height == g.height
    &&& forall|x: int, y: int|
        g.in_bounds(x, y) ==> #[trigger] g2.at(x, y) == if brushed(line, offsets, x, y) {
            paint_over(g.at(x, y), e)
        } else {
            g.at(x, y)
        }
}

/// The kind of element that a key selects, if it selects one: q, w, e, r, t, y and m pick
/// sand, water, stone, magic, the eraser, fire and maze; `[`, `]` and `z` select nothing; every
/// other key picks stone.
pub open spec fn key_selection(k: Seq<char>) -> Option<ElementType> {
    if k.len() == 1 {
        let c = k[0];
        if c == 'q' {
            Some(ElementType::MoveableSolid)
        } else if c == 'w' {
            Some(ElementType::Liquid)
        } else if c == 'e' {
            Some(ElementType::ImmovableSolid)
        } else if c == 'r' {
            Some(ElementType::Magic)
        } else if c == 't' {
            Some(ElementType::Nothing)
        } else if c == 'y' {
            Some(ElementType::Fire)
        } else if c == 'm' {
            Some(ElementType::Maze)
        } else if c == '[' || c == ']' || c == 'z' {
            None
        } else {
            Some(ElementType::ImmovableSolid)
        }
    } else {
        Some(ElementType::ImmovableSolid)
    }
}

/// The brush offsets of a brush of size `size`.
pub fn brush_offsets_of(size: usize) -> (r: Vec<(isize, isize)>)
    ensures
        r@ == brush_offsets(size as nat),
{
    if size == 2 {
        vec![(0, 0), (1, 0), (1, 1), (0, 1), (-1, 0), (-1, -1), (0, -1)]
    } else if size == 3 {
        vec![
            (0, 0), (1, 0), (1, 1), (0, 1), (-1, 0), (-1, -1), (0, -1), (-2, 0), (-2, 1), (-2, -1),
            (-1, 2), (-1, 1), (-1, -2), (0, 2), (0, -1), (0, -2), (1, 2), (1, 0), (1, -1), (1, -2),
            (2, 0), (2, 1), (2, -1),
        ]
    } else {
        vec![(0, 0)]
    }
}

} // verus!
