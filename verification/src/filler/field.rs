//! The board: a grid of colors, `HEIGHT` rows of `WIDTH` cells.

use vstd::prelude::*;
use crate::chance::random_below;
use crate::filler::color::{colors_where, lemma_select, lemma_select_same, select, Color};
use crate::json::{lemma_array_view, Json, JsonModel};

verus! {

pub const WIDTH: usize = 8;

pub const HEIGHT: usize = 7;

/// A cell of the board: its column `x`, then its row `y`.
pub type Point = (usize, usize);

/// The colors of a board, row by row.
pub type Grid = Seq<Seq<Color>>;

pub open spec fn in_bounds(p: Point) -> bool {
    p.0 < WIDTH && p.1 < HEIGHT
}

/// Whether `grid` has the shape of a board.
pub open spec fn grid_ok(grid: Grid) -> bool {
    &&& grid.len() == HEIGHT
    &&& forall|y: int| 0 <= y < HEIGHT ==> (#[trigger] grid[y]).len() == WIDTH
}

pub open spec fn color_of(grid: Grid, p: Point) -> Color {
    grid[p.1 as int][p.0 as int]
}

/// Whether two cells share an edge.
pub open spec fn adjacent(p: Point, q: Point) -> bool {
    ||| p.0 == q.0 && p.1 + 1 == q.1
    ||| p.0 == q.0 && p.1 == q.1 + 1
    ||| p.1 == q.1 && p.0 + 1 == q.0
    ||| p.1 == q.1 && p.0 == q.0 + 1
}

/// `grid` with the cells of `cells` painted in `color`.
pub open spec fn recolor(grid: Grid, cells: Set<Point>, color: Color) -> Grid {
    Seq::new(
        HEIGHT as nat,
        |y: int|
            Seq::new(
                WIDTH as nat,
                |x: int|
                    if cells.contains((x as usize, y as usize)) {
                        color
                    } else {
                        grid[y][x]
                    },
            ),
    )
}

/// The board turned by half a turn.
pub open spec fn rotated(grid: Grid) -> Grid {
    Seq::new(
        HEIGHT as nat,
        |y: int| Seq::new(WIDTH as nat, |x: int| grid[HEIGHT - 1 - y][WIDTH - 1 - x]),
    )
}

/// Whether no two cells that share an edge have the same color, and the two
/// corners where the players start differ too.
pub open spec fn well_mixed(grid: Grid) -> bool {
    &&& forall|x: int, y: int|
        0 <= x < WIDTH - 1 && 0 <= y < HEIGHT ==> #[trigger] grid[y][x] != grid[y][x + 1]
    &&& forall|x: int, y: int|
        0 <= x < WIDTH && 0 <= y < HEIGHT - 1 ==> #[trigger] grid[y][x] != grid[y + 1][x]
    &&& grid[HEIGHT - 1][0] != grid[0][WIDTH - 1]
}

/// On a well mixed board any two cells that share an edge differ in color.
pub proof fn lemma_well_mixed(grid: Grid, p: Point, q: Point)
    requires
        well_mixed(grid),
        in_bounds(p),
        in_bounds(q),
        adjacent(p, q),
    ensures
        color_of(grid, p) != color_of(grid, q),
{
    let small = if p.0 < q.0 || p.1 < q.1 {
        p
    } else {
        q
    };
    assert(grid[small.1 as int][small.0 as int] == color_of(grid, small));
}

/// Whether `color` is the color `taken`, if there is one.
pub open spec fn is_taken(color: Color, taken: Option<Color>) -> bool {
    taken == Some(color)
}

/// The colors left for a new cell whose neighbors have the colors `left` and
/// `up`, and which must differ from `corner` too; lowest number first.
pub open spec fn free_colors(left: Option<Color>, up: Option<Color>, corner: Option<Color>) -> Seq<
    Color,
> {
    select(|c: Color| !is_taken(c, left) && !is_taken(c, up) && !is_taken(c, corner))
}

/// At least three colors are left for a cell.
pub proof fn lemma_free_colors(left: Option<Color>, up: Option<Color>, corner: Option<Color>)
    ensures
        3 <= free_colors(left, up, corner).len() <= 6,
        forall|i: int|
            0 <= i < free_colors(left, up, corner).len() ==> {
                let c = #[trigger] free_colors(left, up, corner)[i];
                !is_taken(c, left) && !is_taken(c, up) && !is_taken(c, corner)
            },
{
    let wanted = |c: Color| !is_taken(c, left) && !is_taken(c, up) && !is_taken(c, corner);
    lemma_select(wanted);
    let free = free_colors(left, up, corner);
    assert forall|i: int| 0 <= i < free.len() implies wanted(#[trigger] free[i]) by {
        assert(free.contains(free[i]));
    }
}

fn taken_by(color: Color, taken: Option<Color>) -> (r: bool)
    ensures
        r == is_taken(color, taken),
{
    match taken {
        Some(other) => color == other,
        None => false,
    }
}

fn is_free(color: Color, left: Option<Color>, up: Option<Color>, corner: Option<Color>) -> (r: bool)
    ensures
        r == (!is_taken(color, left) && !is_taken(color, up) && !is_taken(color, corner)),
{
    !taken_by(color, left) && !taken_by(color, up) && !taken_by(color, corner)
}

/// The colors that a new cell may take, as `free_colors` lists them.
pub fn list_free_colors(left: Option<Color>, up: Option<Color>, corner: Option<Color>) -> (r: Vec<
    Color,
>)
    ensures
        r@ == free_colors(left, up, corner),
{
    let flags = [
        is_free(Color::Red, left, up, corner),
        is_free(Color::Yellow, left, up, corner),
        is_free(Color::Green, left, up, corner),
        is_free(Color::Blue, left, up, corner),
        is_free(Color::Purple, left, up, corner),
        is_free(Color::Black, left, up, corner),
    ];
    proof {
        lemma_select_same(
            |c: Color| flags@[c.number() - 1],
            |c: Color| !is_taken(c, left) && !is_taken(c, up) && !is_taken(c, corner),
        );
    }
    colors_where(&flags)
}

/// How many colors a new cell may take: at least three.
pub fn count_free_colors(left: Option<Color>, up: Option<Color>, corner: Option<Color>) -> (count:
    u8)
    ensures
        count == free_colors(left, up, corner).len(),
        3 <= count <= 6,
{
    proof {
        lemma_free_colors(left, up, corner);
    }
    list_free_colors(left, up, corner).len() as u8
}

/// The color that the draw `draw` gives a new cell: the one at that place
/// among the colors that the cell may take.
pub fn free_color_at(left: Option<Color>, up: Option<Color>, corner: Option<Color>, draw: u8) -> (color:
    Color)
    requires
        draw < free_colors(left, up, corner).len(),
    ensures
        color == free_colors(left, up, corner)[draw as int],
        !is_taken(color, left),
        !is_taken(color, up),
        !is_taken(color, corner),
{
    proof {
        lemma_free_colors(left, up, corner);
    }
    let free = list_free_colors(left, up, corner);
    free[draw as usize]
}

/// Whether a JSON value is a row of the board: an array of `WIDTH` color
/// names.
pub open spec fn is_row(row: JsonModel) -> bool {
    &&& row is Array
    &&& row->Array_0.len() == WIDTH
    &&& forall|x: int| 0 <= x < WIDTH ==> Color::decode(#[trigger] row->Array_0[x]) is Some
}

/// The board that a JSON value stands for: an array of `HEIGHT` rows, each an
/// array of `WIDTH` color names. Anything else is no board.
pub open spec fn decode_grid(json: JsonModel) -> Option<Grid> {
    match json {
        JsonModel::Array(rows) => if rows.len() == HEIGHT && forall|y: int|
            0 <= y < HEIGHT ==> is_row(#[trigger] rows[y]) {
            Some(
                Seq::new(
                    HEIGHT as nat,
                    |y: int|
                        Seq::new(
                            WIDTH as nat,
                            |x: int| Color::decode(rows[y]->Array_0[x]).unwrap(),
                        ),
                ),
            )
        } else {
            None
        },
        _ => None,
    }
}

/// The JSON form of a board: an array of rows, each an array of color names.
pub open spec fn grid_json(grid: Grid) -> JsonModel {
    JsonModel::Array(
        Seq::new(
            grid.len(),
            |y: int|
                JsonModel::Array(
                    Seq::new(grid[y].len(), |x: int| JsonModel::String(grid[y][x].name())),
                ),
        ),
    )
}

#[derive(Clone, Copy, Debug)]
pub struct Field {
    pub inner: [[Color; WIDTH]; HEIGHT],
}

impl View for Field {
    type V = Grid;

    open spec fn view(&self) -> Grid {
        Seq::new(HEIGHT as nat, |y: int| self.inner@[y]@)
    }
}

impl Field {
    /// The view of a field always has the shape of a board.
    pub proof fn lemma_shape(&self)
        ensures
            grid_ok(self@),
    {
    }

    /// A board filled at random, cell by cell: each cell takes one of the
    /// colors that its left and upper neighbors leave free, and the corner
    /// where the left player starts takes none that the other corner has.
    pub fn from_random() -> (field: Field)
        ensures
            well_mixed(field@),
    {
        let mut inner = [[Color::Black; WIDTH]; HEIGHT];
        let mut y: usize = 0;
        while y < HEIGHT
            invariant
                y <= HEIGHT,
                forall|i: int, j: int|
                    0 <= i < WIDTH - 1 && 0 <= j < y ==> #[trigger] inner@[j]@[i] != inner@[j]@[i
                        + 1],
                forall|i: int, j: int|
                    0 <= i < WIDTH && 0 <= j < y - 1 ==> #[trigger] inner@[j]@[i] != inner@[j
                        + 1]@[i],
                y == HEIGHT ==> inner@[HEIGHT - 1]@[0] != inner@[0]@[WIDTH - 1],
            decreases HEIGHT - y,
        {
            let mut x: usize = 0;
            while x < WIDTH
                invariant
                    y < HEIGHT,
                    x <= WIDTH,
                    forall|i: int, j: int|
                        0 <= i < WIDTH - 1 && 0 <= j < y ==> #[trigger] inner@[j]@[i]
                            != inner@[j]@[i + 1],
                    forall|i: int, j: int|
                        0 <= i < WIDTH && 0 <= j < y - 1 ==> #[trigger] inner@[j]@[i] != inner@[j
                            + 1]@[i],
                    forall|i: int|
                        0 <= i < x - 1 ==> #[trigger] inner@[y as int]@[i] != inner@[y as int]@[i
                            + 1],
                    forall|i: int|
                        0 <= i < x && y > 0 ==> inner@[y - 1]@[i] != #[trigger] inner@[y as int]@[i],
                    x > 0 && y == HEIGHT - 1 ==> inner@[HEIGHT - 1]@[0] != inner@[0]@[WIDTH - 1],
                decreases WIDTH - x,
            {
                let left = if x > 0 {
                    Some(inner[y][x - 1])
                } else {
                    None
                };
                let up = if y > 0 {
                    Some(inner[y - 1][x])
                } else {
                    None
                };
                let corner = if x == 0 && y == HEIGHT - 1 {
                    Some(inner[0][WIDTH - 1])
                } else {
                    None
                };
                let count = count_free_colors(left, up, corner);
                let draw = random_below(count);
                let color = free_color_at(left, up, corner, draw);
                assert(!is_taken(color, left) && !is_taken(color, up) && !is_taken(color, corner));
                let ghost before = inner;
                inner[y][x] = color;
                assert(forall|i: int, j: int|
                    0 <= i < WIDTH && 0 <= j < HEIGHT && !(i == x && j == y) ==> inner@[j]@[i]
                        == before@[j]@[i]);
                x += 1;
            }
            y += 1;
        }
        let field = Field { inner };
        assert(forall|i: int, j: int|
            0 <= i < WIDTH && 0 <= j < HEIGHT ==> field@[j][i] == inner@[j]@[i]);
        field
    }

    pub fn get(&self, x: usize, y: usize) -> (r: Option<Color>)
        ensures
            r == if in_bounds((x, y)) {
                Some(color_of(self@, (x, y)))
            } else {
                None
            },
    {
        if x < WIDTH && y < HEIGHT {
            Some(self.inner[y][x])
        } else {
            None
        }
    }

    pub fn set(&mut self, x: usize, y: usize, color: Color)
        requires
            in_bounds((x, y)),
        ensures
            final(self)@ == old(self)@.update(y as int, old(self)@[y as int].update(x as int, color)),
    {
        self.inner[y][x] = color;
        assert(self@ =~~= old(self)@.update(y as int, old(self)@[y as int].update(x as int, color)));
    }

    pub fn rotate(&self) -> (r: Field)
        ensures
            r@ == rotated(self@),
    {
        let mut new_inner = [[Color::Black; WIDTH]; HEIGHT];
        let mut y: usize = 0;
        while y < HEIGHT
            invariant
                y <= HEIGHT,
                forall|i: int, j: int|
                    0 <= i < WIDTH && 0 <= j < y ==> new_inner@[j]@[i] == self.inner@[HEIGHT - 1
                        - j]@[WIDTH - 1 - i],
            decreases HEIGHT - y,
        {
            let mut x: usize = 0;
            while x < WIDTH
                invariant
                    y < HEIGHT,
                    x <= WIDTH,
                    forall|i: int, j: int|
                        0 <= i < WIDTH && 0 <= j < y ==> new_inner@[j]@[i] == self.inner@[HEIGHT
                            - 1 - j]@[WIDTH - 1 - i],
                    forall|i: int|
                        0 <= i < x ==> new_inner@[y as int]@[i] == self.inner@[HEIGHT - 1
                            - y]@[WIDTH - 1 - i],
                decreases WIDTH - x,
            {
                new_inner[y][x] = self.inner[HEIGHT - y - 1][WIDTH - x - 1];
                x += 1;
            }
            y += 1;
        }
        let r = Field { inner: new_inner };
        assert(r@ =~~= rotated(self@));
        r
    }

    pub fn jsonify(&self) -> (json: Json)
        ensures
            json@ == grid_json(self@),
    {
        let mut rows: Vec<Json> = Vec::new();
        let mut y: usize = 0;
        while y < HEIGHT
            invariant
                y <= HEIGHT,
                rows.len() == y,
                forall|j: int| 0 <= j < y ==> (#[trigger] rows[j])@ == grid_json(self@)->Array_0[j],
            decreases HEIGHT - y,
        {
            let mut cells: Vec<Json> = Vec::new();
            let mut x: usize = 0;
            while x < WIDTH
                invariant
                    y < HEIGHT,
                    x <= WIDTH,
                    cells.len() == x,
                    forall|i: int|
                        0 <= i < x ==> (#[trigger] cells[i])@ == JsonModel::String(
                            self@[y as int][i].name(),
                        ),
                decreases WIDTH - x,
            {
                cells.push(self.inner[y][x].jsonify());
                x += 1;
            }
            proof {
                lemma_array_view(cells);
                assert((Json::Array(cells))@->Array_0 =~= grid_json(
                    self@,
                )->Array_0[y as int]->Array_0);
            }
            rows.push(Json::Array(cells));
            y += 1;
        }
        proof {
            lemma_array_view(rows);
            assert((Json::Array(rows))@->Array_0 =~= grid_json(self@)->Array_0);
        }
        Json::Array(rows)
    }

    pub fn from_json(json: &Json) -> (r: Option<Field>)
        ensures
            match decode_grid(json@) {
                Some(grid) => r matches Some(field) && field@ == grid,
                None => r is None,
            },
    {
        let rows = match json.get_array() {
            Some(rows) => rows,
            None => {
                return None;
            },
        };
        if rows.len() != HEIGHT {
            return None;
        }
        let ghost all = json@->Array_0;
        let mut inner = [[Color::Black; WIDTH]; HEIGHT];
        let mut y: usize = 0;
        while y < HEIGHT
            invariant
                y <= HEIGHT,
                json@ == JsonModel::Array(all),
                rows.len() == HEIGHT,
                rows.len() == all.len(),
                forall|j: int| 0 <= j < rows.len() ==> (#[trigger] rows[j])@ == all[j],
                forall|j: int| 0 <= j < y ==> is_row(#[trigger] all[j]),
                forall|i: int, j: int|
                    0 <= i < WIDTH && 0 <= j < y ==> Color::decode(all[j]->Array_0[i]) == Some(
                        #[trigger] inner@[j]@[i],
                    ),
            decreases HEIGHT - y,
        {
            let cells = match rows[y].get_array() {
                Some(cells) => cells,
                None => {
                    assert(!is_row(all[y as int]));
                    return None;
                },
            };
            if cells.len() != WIDTH {
                assert(!is_row(all[y as int]));
                return None;
            }
            let ghost row = all[y as int]->Array_0;
            let mut x: usize = 0;
            while x < WIDTH
                invariant
                    y < HEIGHT,
                    x <= WIDTH,
                    json@ == JsonModel::Array(all),
                    rows.len() == HEIGHT,
                    rows.len() == all.len(),
                    all[y as int] is Array,
                    row == all[y as int]->Array_0,
                    cells.len() == WIDTH,
                    cells.len() == row.len(),
                    forall|i: int| 0 <= i < cells.len() ==> (#[trigger] cells[i])@ == row[i],
                    forall|i: int|
                        0 <= i < x ==> Color::decode(row[i]) == Some(
                            #[trigger] inner@[y as int]@[i],
                        ),
                    forall|i: int, j: int|
                        0 <= i < WIDTH && 0 <= j < y ==> Color::decode(all[j]->Array_0[i])
                            == Some(#[trigger] inner@[j]@[i]),
                decreases WIDTH - x,
            {
                let color = match Color::from_json(&cells[x]) {
                    Some(color) => color,
                    None => {
                        assert(!is_row(all[y as int]));
                        return None;
                    },
                };
                let ghost before = inner;
                inner[y][x] = color;
                assert(forall|i: int, j: int|
                    0 <= i < WIDTH && 0 <= j < HEIGHT && !(i == x && j == y) ==> inner@[j]@[i]
                        == before@[j]@[i]);
                x += 1;
            }
            assert(is_row(all[y as int])) by {
                assert forall|i: int| 0 <= i < WIDTH implies Color::decode(
                    #[trigger] all[y as int]->Array_0[i],
                ) is Some by {
                    assert(Color::decode(row[i]) == Some(inner@[y as int]@[i]));
                }
            }
            y += 1;
        }
        let field = Field { inner };
        assert(field@ =~~= decode_grid(json@).unwrap());
        Some(field)
    }
}

/// Reading the JSON form of a board gives the board back.
pub proof fn lemma_grid_round_trip(grid: Grid)
    requires
        grid_ok(grid),
    ensures
        decode_grid(grid_json(grid)) == Some(grid),
{
    let rows = grid_json(grid)->Array_0;
    assert forall|y: int| 0 <= y < HEIGHT implies is_row(#[trigger] rows[y]) by {
        assert(grid[y].len() == WIDTH);
        assert forall|x: int| 0 <= x < WIDTH implies Color::decode(
            #[trigger] rows[y]->Array_0[x],
        ) is Some by {
            crate::filler::color::lemma_color_round_trip(grid[y][x]);
        }
    }
    let back = decode_grid(grid_json(grid)).unwrap();
    assert forall|y: int, x: int| 0 <= y < HEIGHT && 0 <= x < WIDTH implies back[y][x]
        == grid[y][x] by {
        assert(grid[y].len() == WIDTH);
        crate::filler::color::lemma_color_round_trip(grid[y][x]);
    }
    assert(back =~~= grid);
}

} // verus!
