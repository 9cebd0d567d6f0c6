//! The rules of the game, stated over the mathematical value of a position.

use vstd::prelude::*;
use vstd::set_lib::{
    lemma_int_range, lemma_len_subset, lemma_map_size, lemma_set_disjoint_lens, set_int_range,
};
use crate::filler::color::{lemma_select, select, Color};
use crate::filler::field::{
    adjacent, color_of, grid_ok, in_bounds, recolor, Grid, Point, HEIGHT, WIDTH,
};

verus! {

/// Every cell of the board.
pub open spec fn board() -> Set<Point> {
    Set::new(|p: Point| in_bounds(p))
}

/// The board has `WIDTH * HEIGHT` cells.
pub proof fn lemma_board_size()
    ensures
        board().finite(),
        board().len() == WIDTH * HEIGHT,
{
    let numbers = set_int_range(0, 56);
    let cell = |i: int| ((i % 8) as usize, (i / 8) as usize);
    lemma_int_range(0, 56);
    assert forall|p: Point| board().contains(p) implies numbers.map(cell).contains(p) by {
        let i = p.1 * 8 + p.0;
        assert(numbers.contains(i) && cell(i) == p);
    }
    assert(numbers.map(cell) =~= board());
    assert(vstd::relations::injective_on(cell, numbers));
    lemma_map_size(numbers, board(), cell);
}

/// Whether `cells` can be the territory of a player on `grid`: some cells of
/// the board, all of one color.
pub open spec fn territory_ok(grid: Grid, cells: Set<Point>) -> bool {
    &&& cells.finite()
    &&& cells.len() > 0
    &&& forall|p: Point| #[trigger] cells.contains(p) ==> in_bounds(p)
    &&& forall|p: Point| #[trigger]
        cells.contains(p) ==> color_of(grid, p) == color_of(grid, cells.choose())
}

/// The cells of color `color` that share an edge with a cell of `cells`.
pub open spec fn border(grid: Grid, cells: Set<Point>, color: Color) -> Set<Point> {
    Set::new(
        |p: Point|
            in_bounds(p) && color_of(grid, p) == color && exists|q: Point|
                cells.contains(q) && adjacent(p, q),
    )
}

/// A position of the game.
pub ghost struct GameView {
    pub field: Grid,
    pub left: Set<Point>,
    pub right: Set<Point>,
    pub is_left_turn: bool,
}

impl GameView {
    /// The color that the left player owns: that of every cell of its
    /// territory.
    pub open spec fn left_color(self) -> Color {
        color_of(self.field, self.left.choose())
    }

    pub open spec fn right_color(self) -> Color {
        color_of(self.field, self.right.choose())
    }

    /// What holds of every position of a game: the two territories share no
    /// cell, each has one color, and the two colors differ.
    pub open spec fn wf(self) -> bool {
        &&& grid_ok(self.field)
        &&& territory_ok(self.field, self.left)
        &&& territory_ok(self.field, self.right)
        &&& self.left.disjoint(self.right)
        &&& self.left_color() != self.right_color()
    }

    /// The territory of the player whose turn it is.
    pub open spec fn mover(self) -> Set<Point> {
        if self.is_left_turn {
            self.left
        } else {
            self.right
        }
    }

    /// A move is legal if its color is that of neither player.
    pub open spec fn legal(self, color: Color) -> bool {
        color != self.left_color() && color != self.right_color()
    }

    /// The cells of color `color` that share an edge with the mover's
    /// territory.
    pub open spec fn frontier(self, color: Color) -> Set<Point> {
        border(self.field, self.mover(), color)
    }

    /// The position after the mover has played `color`: its territory takes
    /// in the frontier of that color, all of it is painted in that color, and
    /// the turn passes. An illegal move changes nothing.
    pub open spec fn after_move(self, color: Color) -> GameView {
        if !self.legal(color) {
            self
        } else {
            let grown = self.mover() + self.frontier(color);
            GameView {
                field: recolor(self.field, grown, color),
                left: if self.is_left_turn {
                    grown
                } else {
                    self.left
                },
                right: if self.is_left_turn {
                    self.right
                } else {
                    grown
                },
                is_left_turn: !self.is_left_turn,
            }
        }
    }

    /// A color is reasonable if it is legal and wins the mover a cell.
    pub open spec fn reasonable(self, color: Color) -> bool {
        self.legal(color) && exists|p: Point| self.frontier(color).contains(p)
    }

    /// The colors worth trying: the reasonable ones, or every legal one where
    /// none is reasonable; lowest number first.
    pub open spec fn candidates(self) -> Seq<Color> {
        let reasonable = select(|c: Color| self.reasonable(c));
        if reasonable.len() == 0 {
            select(|c: Color| self.legal(c))
        } else {
            reasonable
        }
    }

    /// By how many cells the left player leads.
    pub open spec fn advantage(self) -> int {
        self.left.len() - self.right.len()
    }

    pub open spec fn is_over(self) -> bool {
        self.left.len() + self.right.len() == WIDTH * HEIGHT
    }
}

/// A territory holds the cell that stands for it.
pub proof fn lemma_territory_chosen(grid: Grid, cells: Set<Point>)
    requires
        territory_ok(grid, cells),
    ensures
        cells.contains(cells.choose()),
        in_bounds(cells.choose()),
{
    vstd::set::axiom_set_choose_len(cells);
}

/// The two territories of a position together fit on the board.
pub proof fn lemma_territories_fit(s: GameView)
    requires
        s.wf(),
    ensures
        s.left.len() + s.right.len() <= WIDTH * HEIGHT,
        1 <= s.left.len(),
        1 <= s.right.len(),
{
    lemma_board_size();
    lemma_set_disjoint_lens(s.left, s.right);
    lemma_len_subset(s.left + s.right, board());
}

/// A legal move leads to a position of the game again; neither territory
/// loses a cell, so the two together never shrink.
pub proof fn lemma_move_keeps_game(s: GameView, color: Color)
    requires
        s.wf(),
    ensures
        s.after_move(color).wf(),
        s.after_move(color).left.disjoint(s.after_move(color).right),
        s.left.subset_of(s.after_move(color).left),
        s.right.subset_of(s.after_move(color).right),
        s.left.len() <= s.after_move(color).left.len(),
        s.right.len() <= s.after_move(color).right.len(),
        s.left.len() + s.right.len() <= s.after_move(color).left.len() + s.after_move(
            color,
        ).right.len(),
        s.legal(color) ==> s.after_move(color).is_left_turn != s.is_left_turn,
        s.legal(color) ==> (if s.is_left_turn {
            s.after_move(color).left_color()
        } else {
            s.after_move(color).right_color()
        }) == color,
{
    if s.legal(color) {
        let t = s.after_move(color);
        let grown = s.mover() + s.frontier(color);
        let other = if s.is_left_turn {
            s.right
        } else {
            s.left
        };
        lemma_board_size();
        lemma_territory_chosen(s.field, s.left);
        lemma_territory_chosen(s.field, s.right);
        assert(s.frontier(color).subset_of(board()));
        lemma_len_subset(s.frontier(color), board());
        assert(grown.finite());
        assert(grown.contains(s.mover().choose()));
        lemma_len_subset(s.mover(), grown);
        vstd::set::axiom_set_choose_len(grown);
        assert forall|p: Point| #[trigger] grown.contains(p) implies in_bounds(p) && color_of(
            t.field,
            p,
        ) == color by {
            assert(p == (p.0 as int as usize, p.1 as int as usize));
        }
        assert forall|p: Point| #[trigger] other.contains(p) implies !grown.contains(p)
            && color_of(t.field, p) == color_of(s.field, p) by {
            assert(p == (p.0 as int as usize, p.1 as int as usize));
        }
        assert(territory_ok(t.field, grown));
        assert(territory_ok(t.field, other));
        assert(grid_ok(t.field));
    }
}

/// The position after the colors `colors` were played in turn, starting from
/// `s`. An illegal color is passed over.
pub open spec fn after_moves(s: GameView, colors: Seq<Color>) -> GameView
    decreases colors.len(),
{
    if colors.len() == 0 {
        s
    } else {
        after_moves(s, colors.drop_last()).after_move(colors.last())
    }
}

/// Whatever is played from a position of the game, the two territories never
/// share a cell, and together they never hold fewer cells than at any time
/// before.
pub proof fn lemma_play_keeps_game(s: GameView, colors: Seq<Color>, n: int)
    requires
        s.wf(),
        0 <= n <= colors.len(),
    ensures
        after_moves(s, colors).wf(),
        after_moves(s, colors).left.disjoint(after_moves(s, colors).right),
        after_moves(s, colors.take(n)).left.len() + after_moves(s, colors.take(n)).right.len()
            <= after_moves(s, colors).left.len() + after_moves(s, colors).right.len(),
        after_moves(s, colors.take(n)).left.subset_of(after_moves(s, colors).left),
        after_moves(s, colors.take(n)).right.subset_of(after_moves(s, colors).right),
    decreases colors.len(),
{
    if n == colors.len() {
        assert(colors.take(n) == colors);
        if colors.len() > 0 {
            lemma_play_keeps_game(s, colors.drop_last(), 0);
            lemma_move_keeps_game(after_moves(s, colors.drop_last()), colors.last());
        }
    } else {
        let before = colors.drop_last();
        assert(before.take(n) == colors.take(n));
        lemma_play_keeps_game(s, before, n);
        lemma_move_keeps_game(after_moves(s, before), colors.last());
    }
}

/// With two different colors owned, four colors are legal.
pub proof fn lemma_four_legal(s: GameView)
    requires
        s.left_color() != s.right_color(),
    ensures
        select(|c: Color| s.legal(c)).len() == 4,
{
}

/// There is always a color to try, and every color to try is a legal move.
pub proof fn lemma_candidates(s: GameView)
    requires
        s.left_color() != s.right_color(),
    ensures
        1 <= s.candidates().len() <= 6,
        forall|i: int| 0 <= i < s.candidates().len() ==> s.legal(#[trigger] s.candidates()[i]),
        s.candidates().no_duplicates(),
{
    lemma_four_legal(s);
    lemma_select(|c: Color| s.legal(c));
    lemma_select(|c: Color| s.reasonable(c));
    let cs = s.candidates();
    assert forall|i: int| 0 <= i < cs.len() implies s.legal(#[trigger] cs[i]) by {
        assert(cs.contains(cs[i]));
    }
}

} // verus!
