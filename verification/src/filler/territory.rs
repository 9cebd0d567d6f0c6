//! Territories as lists of cells: growing one by a move, painting it, and the
//! checks that a list must pass to be a territory.

use vstd::prelude::*;
use crate::filler::color::Color;
use crate::filler::field::{adjacent, color_of, in_bounds, recolor, Field, Point, HEIGHT, WIDTH};
use crate::filler::game::border;

verus! {

/// Whether `p` is a cell of the board with the color `color`.
pub open spec fn qualifies(field: Field, p: Point, color: Color) -> bool {
    in_bounds(p) && color_of(field@, p) == color
}

/// Every cell of `cells` lies on the board.
pub open spec fn all_inside(cells: Seq<Point>) -> bool {
    forall|i: int| 0 <= i < cells.len() ==> in_bounds(#[trigger] cells[i])
}

/// Every cell of `cells` has the color `color`.
pub open spec fn all_colored(field: Field, cells: Seq<Point>, color: Color) -> bool {
    forall|i: int| 0 <= i < cells.len() ==> color_of(field@, #[trigger] cells[i]) == color
}

pub(crate) fn holds(cells: &Vec<Point>, p: Point) -> (r: bool)
    ensures
        r == cells@.contains(p),
{
    let mut i: usize = 0;
    while i < cells.len()
        invariant
            i <= cells.len(),
            forall|k: int| 0 <= k < i ==> cells[k] != p,
        decreases cells.len() - i,
    {
        if cells[i].0 == p.0 && cells[i].1 == p.1 {
            return true;
        }
        i += 1;
    }
    false
}

pub(crate) fn copy_cells(cells: &Vec<Point>) -> (r: Vec<Point>)
    ensures
        r@ == cells@,
{
    let mut r: Vec<Point> = Vec::new();
    let mut i: usize = 0;
    while i < cells.len()
        invariant
            i <= cells.len(),
            r@ == cells@.take(i as int),
        decreases cells.len() - i,
    {
        r.push(cells[i]);
        assert(r@ == cells@.take(i + 1));
        i += 1;
    }
    assert(cells@.take(cells.len() as int) == cells@);
    r
}

pub(crate) fn check_inside(cells: &Vec<Point>) -> (r: bool)
    ensures
        r == all_inside(cells@),
{
    let mut i: usize = 0;
    while i < cells.len()
        invariant
            i <= cells.len(),
            forall|k: int| 0 <= k < i ==> in_bounds(#[trigger] cells[k]),
        decreases cells.len() - i,
    {
        if cells[i].0 >= WIDTH || cells[i].1 >= HEIGHT {
            return false;
        }
        i += 1;
    }
    true
}

pub(crate) fn check_distinct(cells: &Vec<Point>) -> (r: bool)
    ensures
        r == cells@.no_duplicates(),
{
    let mut i: usize = 0;
    while i < cells.len()
        invariant
            i <= cells.len(),
            forall|a: int, b: int| 0 <= a < b < i ==> cells[a] != cells[b],
        decreases cells.len() - i,
    {
        let mut j: usize = 0;
        while j < i
            invariant
                j <= i < cells.len(),
                forall|a: int| 0 <= a < j ==> cells[a] != cells[i as int],
            decreases i - j,
        {
            if cells[j].0 == cells[i].0 && cells[j].1 == cells[i].1 {
                return false;
            }
            j += 1;
        }
        i += 1;
    }
    true
}

pub(crate) fn check_apart(a: &Vec<Point>, b: &Vec<Point>) -> (r: bool)
    ensures
        r == a@.disjoint(b@),
{
    let mut i: usize = 0;
    while i < a.len()
        invariant
            i <= a.len(),
            forall|k: int, j: int| 0 <= k < i && 0 <= j < b.len() ==> a[k] != b[j],
        decreases a.len() - i,
    {
        if holds(b, a[i]) {
            let ghost j = b@.index_of(a[i as int]);
            assert(a[i as int] == b[j]);
            return false;
        }
        i += 1;
    }
    true
}

pub(crate) fn check_colored(field: &Field, cells: &Vec<Point>, color: Color) -> (r: bool)
    requires
        all_inside(cells@),
    ensures
        r == all_colored(*field, cells@, color),
{
    let mut i: usize = 0;
    while i < cells.len()
        invariant
            i <= cells.len(),
            all_inside(cells@),
            forall|k: int| 0 <= k < i ==> color_of(field@, #[trigger] cells[k]) == color,
        decreases cells.len() - i,
    {
        let p = cells[i];
        assert(in_bounds(cells[i as int]));
        if field.inner[p.1][p.0] != color {
            return false;
        }
        i += 1;
    }
    true
}

/// Whether `p`, a neighbor of a cell of the territory, has the color `color`.
fn neighbor_has(field: &Field, p: Point, color: Color) -> (r: bool)
    ensures
        r == qualifies(*field, p, color),
{
    p.0 < WIDTH && p.1 < HEIGHT && field.inner[p.1][p.0] == color
}

/// Whether a cell of color `color` shares an edge with `cell`.
fn cell_touches(field: &Field, cell: Point, color: Color) -> (r: bool)
    requires
        in_bounds(cell),
    ensures
        r == exists|p: Point| adjacent(p, cell) && qualifies(*field, p, color),
{
    let (x, y) = cell;
    if y > 0 && neighbor_has(field, (x, y - 1), color) {
        assert(adjacent((x, (y - 1) as usize), cell));
        return true;
    }
    if neighbor_has(field, (x, y + 1), color) {
        assert(adjacent((x, (y + 1) as usize), cell));
        return true;
    }
    if x > 0 && neighbor_has(field, (x - 1, y), color) {
        assert(adjacent(((x - 1) as usize, y), cell));
        return true;
    }
    if neighbor_has(field, (x + 1, y), color) {
        assert(adjacent(((x + 1) as usize, y), cell));
        return true;
    }
    assert forall|p: Point| adjacent(p, cell) implies !qualifies(*field, p, color) by {
        lemma_neighbors(p, cell);
    }
    false
}

/// A cell that shares an edge with `(x, y)` is one of its four neighbors.
pub proof fn lemma_neighbors(p: Point, cell: Point)
    requires
        adjacent(p, cell),
    ensures
        p == (cell.0, (cell.1 - 1) as usize) && cell.1 > 0 || p == (cell.0, (cell.1 + 1) as usize)
            || p == ((cell.0 - 1) as usize, cell.1) && cell.0 > 0 || p == (
            (cell.0 + 1) as usize,
            cell.1,
        ),
{
}

/// Whether the territory `cells` has a cell of color `color` at its edge.
pub(crate) fn touches(field: &Field, cells: &Vec<Point>, color: Color) -> (r: bool)
    requires
        all_inside(cells@),
    ensures
        r == exists|p: Point| border(field@, cells@.to_set(), color).contains(p),
{
    let mut i: usize = 0;
    while i < cells.len()
        invariant
            i <= cells.len(),
            all_inside(cells@),
            forall|k: int, p: Point|
                0 <= k < i && adjacent(p, #[trigger] cells[k]) ==> !#[trigger] qualifies(
                    *field,
                    p,
                    color,
                ),
        decreases cells.len() - i,
    {
        assert(in_bounds(cells[i as int]));
        if cell_touches(field, cells[i], color) {
            let ghost p = choose|p: Point|
                adjacent(p, cells[i as int]) && qualifies(*field, p, color);
            assert(cells@.to_set().contains(cells[i as int]));
            assert(border(field@, cells@.to_set(), color).contains(p));
            return true;
        }
        i += 1;
    }
    assert forall|p: Point| !border(field@, cells@.to_set(), color).contains(p) by {
        if border(field@, cells@.to_set(), color).contains(p) {
            let q = choose|q: Point| cells@.to_set().contains(q) && adjacent(p, q);
            let k = cells@.index_of(q);
            assert(adjacent(p, cells[k]) && qualifies(*field, p, color));
        }
    }
    false
}

/// Takes `p` into `out` if it has the color `color` and is not there yet.
fn take_in(field: &Field, out: &mut Vec<Point>, p: Point, color: Color)
    ensures
        final(out)@ == if qualifies(*field, p, color) && !old(out)@.contains(p) {
            old(out)@.push(p)
        } else {
            old(out)@
        },
        forall|q: Point|
            final(out)@.contains(q) <==> old(out)@.contains(q) || (q == p && qualifies(
                *field,
                p,
                color,
            )),
        old(out)@.no_duplicates() ==> final(out)@.no_duplicates(),
{
    if neighbor_has(field, p, color) && !holds(out, p) {
        out.push(p);
        assert(out@.last() == p);
        assert forall|q: Point| out@.contains(q) implies old(out)@.contains(q) || q == p by {
            let k = out@.index_of(q);
            if k < old(out)@.len() {
                assert(old(out)@[k] == q);
            }
        }
        assert forall|q: Point| old(out)@.contains(q) implies out@.contains(q) by {
            let k = old(out)@.index_of(q);
            assert(out@[k] == q);
        }
    }
}

/// The territory `cells` after a move of color `color`: its cells, then the
/// cells of that color at its edge.
pub(crate) fn grow(field: &Field, cells: &Vec<Point>, color: Color) -> (r: Vec<Point>)
    requires
        cells@.no_duplicates(),
        all_inside(cells@),
    ensures
        r@.no_duplicates(),
        all_inside(r@),
        r@.to_set() == cells@.to_set() + border(field@, cells@.to_set(), color),
{
    let mut out = copy_cells(cells);
    let mut i: usize = 0;
    while i < cells.len()
        invariant
            i <= cells.len(),
            cells@.no_duplicates(),
            all_inside(cells@),
            out@.no_duplicates(),
            forall|q: Point| cells@.contains(q) ==> out@.contains(q),
            forall|q: Point|
                out@.contains(q) ==> cells@.contains(q) || border(
                    field@,
                    cells@.to_set(),
                    color,
                ).contains(q),
            forall|k: int, p: Point|
                0 <= k < i && adjacent(p, #[trigger] cells[k]) && #[trigger] qualifies(
                    *field,
                    p,
                    color,
                ) ==> out@.contains(p),
        decreases cells.len() - i,
    {
        let (x, y) = cells[i];
        let ghost cell = cells[i as int];
        assert(in_bounds(cell));
        assert(cells@.to_set().contains(cell));
        let ghost before = out@;
        if y > 0 {
            assert(adjacent((x, (y - 1) as usize), cell));
            take_in(field, &mut out, (x, y - 1), color);
        }
        assert(adjacent((x, (y + 1) as usize), cell));
        take_in(field, &mut out, (x, y + 1), color);
        if x > 0 {
            assert(adjacent(((x - 1) as usize, y), cell));
            take_in(field, &mut out, (x - 1, y), color);
        }
        assert(adjacent(((x + 1) as usize, y), cell));
        take_in(field, &mut out, (x + 1, y), color);
        assert forall|p: Point| adjacent(p, cell) && qualifies(*field, p, color) implies out@.contains(
            p,
        ) by {
            lemma_neighbors(p, cell);
        }
        i += 1;
    }
    assert forall|q: Point| border(field@, cells@.to_set(), color).contains(q) implies out@.contains(
        q,
    ) by {
        let c = choose|c: Point| cells@.to_set().contains(c) && adjacent(q, c);
        let k = cells@.index_of(c);
        assert(adjacent(q, cells[k]) && qualifies(*field, q, color));
    }
    assert(out@.to_set() =~= cells@.to_set() + border(field@, cells@.to_set(), color));
    assert forall|k: int| 0 <= k < out@.len() implies in_bounds(#[trigger] out@[k]) by {
        assert(out@.contains(out@[k]));
        if cells@.contains(out@[k]) {
            let j = cells@.index_of(out@[k]);
            assert(in_bounds(cells@[j]));
        }
    }
    out
}

/// The board with the cells of `cells` painted in `color`.
pub(crate) fn paint(field: &Field, cells: &Vec<Point>, color: Color) -> (r: Field)
    requires
        all_inside(cells@),
    ensures
        r@ == recolor(field@, cells@.to_set(), color),
{
    let mut painted = *field;
    let mut i: usize = 0;
    while i < cells.len()
        invariant
            i <= cells.len(),
            all_inside(cells@),
            forall|x: int, y: int|
                0 <= x < WIDTH && 0 <= y < HEIGHT ==> #[trigger] painted@[y][x] == if cells@.take(
                    i as int,
                ).contains((x as usize, y as usize)) {
                    color
                } else {
                    field@[y][x]
                },
        decreases cells.len() - i,
    {
        let (x, y) = cells[i];
        assert(in_bounds(cells[i as int]));
        let ghost before = painted@;
        painted.set(x, y, color);
        assert forall|a: int, b: int| 0 <= a < WIDTH && 0 <= b < HEIGHT implies #[trigger] painted@[b][a]
            == if cells@.take(i + 1).contains((a as usize, b as usize)) {
            color
        } else {
            field@[b][a]
        } by {
            let q = (a as usize, b as usize);
            if cells@.take(i + 1).contains(q) {
                let k = cells@.take(i + 1).index_of(q);
                if k < i {
                    assert(cells@.take(i as int)[k] == q);
                }
            }
            if cells@.take(i as int).contains(q) {
                let k = cells@.take(i as int).index_of(q);
                assert(cells@.take(i + 1)[k] == q);
            }
            if a == x && b == y {
                assert(cells@.take(i + 1)[i as int] == q);
            }
        }
        i += 1;
    }
    assert(cells@.take(cells.len() as int) == cells@);
    assert(painted@ =~~= recolor(field@, cells@.to_set(), color));
    painted
}

} // verus!
