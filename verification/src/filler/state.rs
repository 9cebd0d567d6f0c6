//! A game in play: the board, the territory of each player and whose turn it
//! is.

use vstd::prelude::*;
use vstd::seq_lib::seq_to_set_is_finite;
use crate::filler::color::{colors_where, lemma_select_same, select, Color};
use crate::filler::field::{color_of, in_bounds, well_mixed, Field, Point, HEIGHT, WIDTH};
use crate::filler::game::{
    border, lemma_candidates, lemma_four_legal, lemma_move_keeps_game, lemma_territories_fit,
    lemma_territory_chosen, territory_ok, GameView,
};
use crate::filler::territory::{
    all_colored, all_inside, check_apart, check_colored, check_distinct, check_inside,
    copy_cells, grow, paint, touches,
};

verus! {

/// The position that a board, two lists of cells and a turn stand for.
pub open spec fn position(field: Field, left: Seq<Point>, right: Seq<Point>, is_left_turn: bool) -> GameView {
    GameView { field: field@, left: left.to_set(), right: right.to_set(), is_left_turn }
}

/// Whether a board, two lists of cells and a turn make a game: no cell is
/// listed twice, and the position is one of the game.
pub open spec fn playable(field: Field, left: Seq<Point>, right: Seq<Point>, is_left_turn: bool) -> bool {
    &&& left.no_duplicates()
    &&& right.no_duplicates()
    &&& position(field, left, right, is_left_turn).wf()
}

/// What `playable` comes to, cell by cell.
pub proof fn lemma_playable(field: Field, left: Seq<Point>, right: Seq<Point>, is_left_turn: bool)
    ensures
        playable(field, left, right, is_left_turn) <==> {
            &&& left.no_duplicates()
            &&& right.no_duplicates()
            &&& left.len() > 0
            &&& right.len() > 0
            &&& all_inside(left)
            &&& all_inside(right)
            &&& left.disjoint(right)
            &&& all_colored(field, left, color_of(field@, left[0]))
            &&& all_colored(field, right, color_of(field@, right[0]))
            &&& color_of(field@, left[0]) != color_of(field@, right[0])
        },
        playable(field, left, right, is_left_turn) ==> {
            let s = position(field, left, right, is_left_turn);
            &&& s.left_color() == color_of(field@, left[0])
            &&& s.right_color() == color_of(field@, right[0])
            &&& s.left.len() == left.len()
            &&& s.right.len() == right.len()
        },
{
    let s = position(field, left, right, is_left_turn);
    seq_to_set_is_finite(left);
    seq_to_set_is_finite(right);
    field.lemma_shape();
    if left.no_duplicates() && right.no_duplicates() {
        left.unique_seq_to_set();
        right.unique_seq_to_set();
        if left.len() > 0 && right.len() > 0 {
            assert(left.contains(left[0]));
            assert(right.contains(right[0]));
            vstd::set::axiom_set_choose_len(s.left);
            vstd::set::axiom_set_choose_len(s.right);
            lemma_cells_ok(field, left);
            lemma_cells_ok(field, right);
            if left.disjoint(right) {
                assert forall|p: Point| s.left.contains(p) implies !s.right.contains(p) by {
                    if s.right.contains(p) {
                        let i = left.index_of(p);
                        let j = right.index_of(p);
                        assert(left[i] == right[j]);
                    }
                }
            }
            if s.left.disjoint(s.right) {
                assert forall|i: int, j: int|
                    0 <= i < left.len() && 0 <= j < right.len() implies left[i] != right[j] by {
                    assert(left.contains(left[i]));
                    assert(right.contains(right[j]));
                    assert(s.left.contains(left[i]));
                    assert(s.right.contains(right[j]));
                }
            }
        }
    }
}

/// A list of cells is a territory exactly if it is not empty, lies on the
/// board and has the color of its first cell throughout.
proof fn lemma_cells_ok(field: Field, cells: Seq<Point>)
    requires
        cells.len() > 0,
    ensures
        territory_ok(field@, cells.to_set()) <==> all_inside(cells) && all_colored(
            field,
            cells,
            color_of(field@, cells[0]),
        ),
        territory_ok(field@, cells.to_set()) ==> color_of(field@, cells.to_set().choose())
            == color_of(field@, cells[0]),
{
    let set = cells.to_set();
    seq_to_set_is_finite(cells);
    assert(cells.contains(cells[0]));
    assert(set.contains(cells[0]));
    vstd::set::axiom_set_contains_len(set, cells[0]);
    vstd::set::axiom_set_choose_len(set);
    if territory_ok(field@, set) {
        assert forall|i: int| 0 <= i < cells.len() implies in_bounds(#[trigger] cells[i])
            && color_of(field@, cells[i]) == color_of(field@, cells[0]) by {
            assert(cells.contains(cells[i]));
            assert(set.contains(cells[i]));
        }
    }
    if all_inside(cells) && all_colored(field, cells, color_of(field@, cells[0])) {
        assert forall|p: Point| #[trigger] set.contains(p) implies in_bounds(p) && color_of(
            field@,
            p,
        ) == color_of(field@, cells[0]) by {
            let i = cells.index_of(p);
            assert(in_bounds(cells[i]));
        }
        assert(set.contains(set.choose()));
    }
}

pub struct GameState {
    field: Field,
    left_territory: Vec<Point>,
    right_territory: Vec<Point>,
    is_left_turn: bool,
}

impl View for GameState {
    type V = GameView;

    closed spec fn view(&self) -> GameView {
        position(self.field, self.left_territory@, self.right_territory@, self.is_left_turn)
    }
}

impl GameState {
    #[verifier::type_invariant]
    spec fn playable(&self) -> bool {
        playable(self.field, self.left_territory@, self.right_territory@, self.is_left_turn)
    }

    /// The board of the game.
    pub closed spec fn board(&self) -> Field {
        self.field
    }

    /// The cells of the left player, in the order in which the game lists
    /// them.
    pub closed spec fn left_cells(&self) -> Seq<Point> {
        self.left_territory@
    }

    pub closed spec fn right_cells(&self) -> Seq<Point> {
        self.right_territory@
    }

    /// A game of these parts, if they make one.
    pub fn from_parts(
        field: Field,
        left_territory: Vec<Point>,
        right_territory: Vec<Point>,
        is_left_turn: bool,
    ) -> (r: Option<GameState>)
        ensures
            r is Some <==> playable(field, left_territory@, right_territory@, is_left_turn),
            r matches Some(game) ==> {
                &&& game.board() == field
                &&& game.left_cells() == left_territory@
                &&& game.right_cells() == right_territory@
                &&& game@ == position(field, left_territory@, right_territory@, is_left_turn)
                &&& game@.wf()
            },
    {
        proof {
            lemma_playable(field, left_territory@, right_territory@, is_left_turn);
        }
        if left_territory.len() == 0 || right_territory.len() == 0 {
            return None;
        }
        if !check_inside(&left_territory) || !check_inside(&right_territory) {
            return None;
        }
        if !check_distinct(&left_territory) || !check_distinct(&right_territory) {
            return None;
        }
        if !check_apart(&left_territory, &right_territory) {
            return None;
        }
        let l = left_territory[0];
        let r = right_territory[0];
        assert(in_bounds(left_territory[0]) && in_bounds(right_territory[0]));
        let left_color = field.inner[l.1][l.0];
        let right_color = field.inner[r.1][r.0];
        if left_color == right_color {
            return None;
        }
        if !check_colored(&field, &left_territory, left_color) || !check_colored(
            &field,
            &right_territory,
            right_color,
        ) {
            return None;
        }
        Some(GameState { field, left_territory, right_territory, is_left_turn })
    }

    /// A new game on a board filled at random: each player owns one corner,
    /// and the left player moves first.
    pub fn new() -> (game: GameState)
        ensures
            game@.wf(),
            well_mixed(game@.field),
            game@.left == set![(0usize, (HEIGHT - 1) as usize)],
            game@.right == set![((WIDTH - 1) as usize, 0usize)],
            game@.is_left_turn,
            game.left_cells() == seq![(0usize, (HEIGHT - 1) as usize)],
            game.right_cells() == seq![((WIDTH - 1) as usize, 0usize)],
    {
        let field = Field::from_random();
        let mut left_territory: Vec<Point> = Vec::new();
        left_territory.push((0, HEIGHT - 1));
        let mut right_territory: Vec<Point> = Vec::new();
        right_territory.push((WIDTH - 1, 0));
        proof {
            lemma_playable(field, left_territory@, right_territory@, true);
            assert(left_territory@ =~= seq![(0usize, (HEIGHT - 1) as usize)]);
            assert(right_territory@ =~= seq![((WIDTH - 1) as usize, 0usize)]);
            assert(left_territory@.to_set() =~= set![(0usize, (HEIGHT - 1) as usize)]);
            assert(right_territory@.to_set() =~= set![((WIDTH - 1) as usize, 0usize)]);
        }
        GameState { field, left_territory, right_territory, is_left_turn: true }
    }

    pub fn field(&self) -> (r: &Field)
        ensures
            *r == self.board(),
            r@ == self@.field,
    {
        &self.field
    }

    pub fn left_territory(&self) -> (r: &Vec<Point>)
        ensures
            r@ == self.left_cells(),
            r@.no_duplicates(),
            r@.to_set() == self@.left,
    {
        proof {
            use_type_invariant(self);
        }
        &self.left_territory
    }

    pub fn right_territory(&self) -> (r: &Vec<Point>)
        ensures
            r@ == self.right_cells(),
            r@.no_duplicates(),
            r@.to_set() == self@.right,
    {
        proof {
            use_type_invariant(self);
        }
        &self.right_territory
    }

    pub fn is_left_turn(&self) -> (r: bool)
        ensures
            r == self@.is_left_turn,
    {
        self.is_left_turn
    }

    /// The color that the left player owns.
    pub fn left_color(&self) -> (color: Color)
        ensures
            color == self@.left_color(),
            self@.wf(),
    {
        proof {
            use_type_invariant(self);
            lemma_playable(
                self.field,
                self.left_territory@,
                self.right_territory@,
                self.is_left_turn,
            );
        }
        let p = self.left_territory[0];
        assert(in_bounds(self.left_territory[0]));
        self.field.inner[p.1][p.0]
    }

    /// The color that the right player owns.
    pub fn right_color(&self) -> (color: Color)
        ensures
            color == self@.right_color(),
            self@.wf(),
    {
        proof {
            use_type_invariant(self);
            lemma_playable(
                self.field,
                self.left_territory@,
                self.right_territory@,
                self.is_left_turn,
            );
        }
        let p = self.right_territory[0];
        assert(in_bounds(self.right_territory[0]));
        self.field.inner[p.1][p.0]
    }

    pub fn is_over(&self) -> (r: bool)
        ensures
            r == self@.is_over(),
    {
        proof {
            use_type_invariant(self);
            lemma_playable(
                self.field,
                self.left_territory@,
                self.right_territory@,
                self.is_left_turn,
            );
            lemma_territories_fit(self@);
        }
        self.left_territory.len() + self.right_territory.len() == WIDTH * HEIGHT
    }

    /// By how many cells the left player leads.
    pub fn left_advantage(&self) -> (r: isize)
        ensures
            r == self@.advantage(),
            -(WIDTH * HEIGHT) < r < WIDTH * HEIGHT,
    {
        proof {
            use_type_invariant(self);
            lemma_playable(
                self.field,
                self.left_territory@,
                self.right_territory@,
                self.is_left_turn,
            );
            lemma_territories_fit(self@);
        }
        self.left_territory.len() as isize - self.right_territory.len() as isize
    }

    /// Whether the left player owns more cells than the right one; the winner,
    /// once the game is over.
    pub fn left_winning(&self) -> (r: bool)
        ensures
            r == (self@.advantage() > 0),
    {
        self.left_advantage() > 0
    }

    /// Whether the mover's territory has a cell of color `color` at its edge
    /// and may play it.
    fn is_reasonable(&self, color: Color) -> (r: bool)
        ensures
            r == self@.reasonable(color),
    {
        proof {
            use_type_invariant(self);
            lemma_playable(
                self.field,
                self.left_territory@,
                self.right_territory@,
                self.is_left_turn,
            );
        }
        if color == self.left_color() || color == self.right_color() {
            return false;
        }
        if self.is_left_turn {
            assert(self@.frontier(color) == border(
                self.field@,
                self.left_territory@.to_set(),
                color,
            ));
            touches(&self.field, &self.left_territory, color)
        } else {
            assert(self@.frontier(color) == border(
                self.field@,
                self.right_territory@.to_set(),
                color,
            ));
            touches(&self.field, &self.right_territory, color)
        }
    }

    /// The colors that win the mover a cell, lowest number first.
    pub fn reasonable_colors(&self) -> (r: Vec<Color>)
        ensures
            r@ == select(|c: Color| self@.reasonable(c)),
    {
        let flags = [
            self.is_reasonable(Color::Red),
            self.is_reasonable(Color::Yellow),
            self.is_reasonable(Color::Green),
            self.is_reasonable(Color::Blue),
            self.is_reasonable(Color::Purple),
            self.is_reasonable(Color::Black),
        ];
        proof {
            lemma_select_same(|c: Color| flags@[c.number() - 1], |c: Color| self@.reasonable(c));
        }
        colors_where(&flags)
    }

    /// The four colors that neither player owns, lowest number first.
    pub fn valid_colors(&self) -> (r: [Color; 4])
        ensures
            r@ == select(|c: Color| self@.legal(c)),
    {
        let left = self.left_color();
        let right = self.right_color();
        let flags = [
            Color::Red != left && Color::Red != right,
            Color::Yellow != left && Color::Yellow != right,
            Color::Green != left && Color::Green != right,
            Color::Blue != left && Color::Blue != right,
            Color::Purple != left && Color::Purple != right,
            Color::Black != left && Color::Black != right,
        ];
        proof {
            lemma_select_same(|c: Color| flags@[c.number() - 1], |c: Color| self@.legal(c));
            lemma_four_legal(self@);
        }
        let legal = colors_where(&flags);
        let r = [legal[0], legal[1], legal[2], legal[3]];
        assert(r@ =~= legal@);
        r
    }

    /// The colors worth trying for the mover: the reasonable ones, or all
    /// four valid ones where none is reasonable.
    pub fn get_colors(&self) -> (r: Vec<Color>)
        ensures
            r@ == self@.candidates(),
            self@.wf(),
            1 <= r.len() <= 6,
            forall|i: int| 0 <= i < r.len() ==> self@.legal(#[trigger] r[i]),
    {
        let reasonable = self.reasonable_colors();
        let left = self.left_color();
        proof {
            lemma_candidates(self@);
        }
        if reasonable.len() == 0 {
            let valid = self.valid_colors();
            let mut r: Vec<Color> = Vec::new();
            r.push(valid[0]);
            r.push(valid[1]);
            r.push(valid[2]);
            r.push(valid[3]);
            assert(r@ =~= valid@);
            r
        } else {
            reasonable
        }
    }

    /// Plays `fill_color` for the mover. The move fails, and changes nothing,
    /// if either player owns that color.
    pub fn do_move(&mut self, fill_color: Color) -> (r: Result<(), ()>)
        ensures
            r is Ok <==> old(self)@.legal(fill_color),
            r is Err ==> *final(self) == *old(self),
            final(self)@ == old(self)@.after_move(fill_color),
            old(self)@.wf(),
            final(self)@.wf(),
    {
        proof {
            use_type_invariant(&*self);
            lemma_playable(
                self.field,
                self.left_territory@,
                self.right_territory@,
                self.is_left_turn,
            );
            lemma_move_keeps_game(self@, fill_color);
        }
        if fill_color == self.left_color() || fill_color == self.right_color() {
            return Err(());
        }
        let ghost before = self@;
        let grown = if self.is_left_turn {
            grow(&self.field, &self.left_territory, fill_color)
        } else {
            grow(&self.field, &self.right_territory, fill_color)
        };
        let field = paint(&self.field, &grown, fill_color);
        let other = if self.is_left_turn {
            copy_cells(&self.right_territory)
        } else {
            copy_cells(&self.left_territory)
        };
        let is_left_turn = !self.is_left_turn;
        proof {
            let after = before.after_move(fill_color);
            if before.is_left_turn {
                assert(position(field, grown@, other@, is_left_turn) == after);
            } else {
                assert(position(field, other@, grown@, is_left_turn) == after);
            }
        }
        if self.is_left_turn {
            *self = GameState { field, left_territory: grown, right_territory: other, is_left_turn };
        } else {
            *self = GameState { field, left_territory: other, right_territory: grown, is_left_turn };
        }
        Ok(())
    }
}

impl Clone for GameState {
    fn clone(&self) -> (copy: GameState)
        ensures
            copy@ == self@,
            copy.board() == self.board(),
            copy.left_cells() == self.left_cells(),
            copy.right_cells() == self.right_cells(),
    {
        proof {
            use_type_invariant(self);
        }
        GameState {
            field: self.field,
            left_territory: copy_cells(&self.left_territory),
            right_territory: copy_cells(&self.right_territory),
            is_left_turn: self.is_left_turn,
        }
    }
}

} // verus!
