//! Row-major grids: the view of a flat buffer of `width * height` cells as a
//! sequence of rows, and the facts that relate cell updates to it.

use vstd::prelude::*;

verus! {

/// The cells of a row-major buffer as rows: `grid_of(c, w, h)[y][x] == c[x + y * w]`.
pub open spec fn grid_of<T>(cells: Seq<T>, w: int, h: int) -> Seq<Seq<T>> {
    Seq::new(h as nat, |y: int| Seq::new(w as nat, |x: int| cells[x + y * w]))
}

/// The grid with the cell at column `x` of row `y` replaced by `c`.
pub open spec fn set_cell<T>(g: Seq<Seq<T>>, x: int, y: int, c: T) -> Seq<Seq<T>> {
    g.update(y, g[y].update(x, c))
}

/// The grid with every cell whose position `(x, y)` is in `s` replaced by `c`.
pub open spec fn paint<T>(g: Seq<Seq<T>>, s: Set<(int, int)>, c: T) -> Seq<Seq<T>> {
    Seq::new(
        g.len(),
        |y: int| Seq::new(g[y].len(), |x: int| if s.contains((x, y)) { c } else { g[y][x] }),
    )
}

/// The rows in reverse order: row `y` of the result is row `len - 1 - y` of `g`.
pub open spec fn flip_rows<T>(g: Seq<Seq<T>>) -> Seq<Seq<T>> {
    Seq::new(g.len(), |y: int| g[g.len() - 1 - y])
}

/// Every row of the grid has `w` cells.
pub open spec fn is_rect<T>(g: Seq<Seq<T>>, w: int) -> bool {
    forall|y: int| 0 <= y < g.len() ==> #[trigger] g[y].len() == w
}

pub proof fn lemma_grid_rect<T>(cells: Seq<T>, w: int, h: int)
    requires
        0 <= w,
        0 <= h,
    ensures
        is_rect(grid_of(cells, w, h), w),
        grid_of(cells, w, h).len() == h,
{
}

pub proof fn lemma_index_in_range(w: int, h: int, x: int, y: int)
    requires
        0 <= x < w,
        0 <= y < h,
    ensures
        0 <= x + y * w < w * h,
        0 <= y * w,
{
    assert(0 <= x + y * w < w * h && 0 <= y * w) by (nonlinear_arith)
        requires
            0 <= x < w,
            0 <= y < h,
    ;
}

pub proof fn lemma_index_unique(w: int, x1: int, y1: int, x2: int, y2: int)
    requires
        0 <= x1 < w,
        0 <= x2 < w,
        0 <= y1,
        0 <= y2,
        x1 + y1 * w == x2 + y2 * w,
    ensures
        x1 == x2,
        y1 == y2,
{
    if y1 < y2 {
        assert(y1 * w + w <= y2 * w) by (nonlinear_arith)
            requires
                y1 < y2,
                0 < w,
        ;
    } else if y2 < y1 {
        assert(y2 * w + w <= y1 * w) by (nonlinear_arith)
            requires
                y2 < y1,
                0 < w,
        ;
    }
}

/// Writing one cell of the buffer writes one cell of the grid.
pub proof fn lemma_grid_set<T>(cells: Seq<T>, w: int, h: int, x: int, y: int, c: T)
    requires
        cells.len() == w * h,
        0 <= x < w,
        0 <= y < h,
    ensures
        0 <= x + y * w < cells.len(),
        grid_of(cells.update(x + y * w, c), w, h) == set_cell(grid_of(cells, w, h), x, y, c),
{
    lemma_index_in_range(w, h, x, y);
    let g1 = grid_of(cells.update(x + y * w, c), w, h);
    let g2 = set_cell(grid_of(cells, w, h), x, y, c);
    assert forall|yy: int| 0 <= yy < h implies g1[yy] =~= g2[yy] by {
        assert forall|xx: int| 0 <= xx < w implies g1[yy][xx] == g2[yy][xx] by {
            lemma_index_in_range(w, h, xx, yy);
            if xx + yy * w == x + y * w {
                lemma_index_unique(w, xx, yy, x, y);
            }
        }
    }
    assert(g1 =~= g2);
}

/// Painting a set and then one more cell in the same colour paints the larger set.
pub proof fn lemma_paint_insert<T>(g: Seq<Seq<T>>, w: int, s: Set<(int, int)>, x: int, y: int, c: T)
    requires
        is_rect(g, w),
        0 <= x < w,
        0 <= y < g.len(),
    ensures
        set_cell(paint(g, s, c), x, y, c) == paint(g, s.insert((x, y)), c),
{
    let g1 = set_cell(paint(g, s, c), x, y, c);
    let g2 = paint(g, s.insert((x, y)), c);
    assert forall|yy: int| 0 <= yy < g.len() implies g1[yy] =~= g2[yy] by {}
    assert(g1 =~= g2);
}

/// Painting two sets one after the other in one colour paints their union.
pub proof fn lemma_paint_union<T>(g: Seq<Seq<T>>, s1: Set<(int, int)>, s2: Set<(int, int)>, c: T)
    ensures
        paint(paint(g, s1, c), s2, c) == paint(g, s1.union(s2), c),
{
    let g1 = paint(paint(g, s1, c), s2, c);
    let g2 = paint(g, s1.union(s2), c);
    assert forall|yy: int| 0 <= yy < g.len() implies g1[yy] =~= g2[yy] by {}
    assert(g1 =~= g2);
}

/// Writing a cell and reading it back gives the written value; every other
/// cell keeps its value.
pub proof fn lemma_set_then_read<T>(g: Seq<Seq<T>>, w: int, x: int, y: int, c: T)
    requires
        is_rect(g, w),
        0 <= x < w,
        0 <= y < g.len(),
    ensures
        set_cell(g, x, y, c)[y][x] == c,
        forall|x2: int, y2: int|
            0 <= x2 < w && 0 <= y2 < g.len() && (x2, y2) != (x, y) ==> #[trigger] set_cell(
                g,
                x,
                y,
                c,
            )[y2][x2] == g[y2][x2],
{
}

/// Flipping twice gives back the grid.
pub proof fn lemma_flip_twice<T>(g: Seq<Seq<T>>)
    ensures
        flip_rows(flip_rows(g)) == g,
{
    assert(flip_rows(flip_rows(g)) =~= g);
}

/// With an odd number of rows, a flip keeps the middle row.
pub proof fn lemma_flip_keeps_middle<T>(g: Seq<Seq<T>>)
    requires
        g.len() % 2 == 1,
    ensures
        flip_rows(g)[(g.len() / 2) as int] == g[(g.len() / 2) as int],
{
}

} // verus!
