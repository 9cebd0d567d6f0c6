//! The computer's play: a minimax search of fixed depth over the colors worth
//! trying.

use vstd::prelude::*;
use crate::filler::color::Color;
use crate::filler::field::{HEIGHT, WIDTH};
use crate::filler::game::GameView;
use crate::filler::state::GameState;

verus! {

/// How many moves ahead the computer looks.
pub const DEPTH: usize = 4;

/// The value of the position `s` to the side that the search works for: the
/// left player if `for_left`, else the right. With no depth left it is that
/// side's lead in cells. Else every color worth trying is played, and the value
/// is the highest of the values that follow where `maximizing`, the lowest
/// where not; the levels alternate.
pub open spec fn minimax(s: GameView, for_left: bool, maximizing: bool, depth: nat) -> int
    decreases depth, 0nat,
{
    if depth == 0 {
        if for_left {
            s.advantage()
        } else {
            -s.advantage()
        }
    } else {
        let scores = replies(s, for_left, !maximizing, (depth - 1) as nat);
        if maximizing {
            scores.max()
        } else {
            scores.min()
        }
    }
}

/// The values of the positions that follow `s`, one for each color worth
/// trying and in their order, each searched `depth` moves deep.
pub open spec fn replies(s: GameView, for_left: bool, maximizing: bool, depth: nat) -> Seq<int>
    decreases depth, 1nat,
{
    s.candidates().map_values(|c: Color| minimax(s.after_move(c), for_left, maximizing, depth))
}

/// What each color worth trying is worth to the right player, who replies:
/// the value of the position after it, searched `DEPTH` moves deep.
pub open spec fn reply_scores(s: GameView) -> Seq<int> {
    replies(s, false, false, DEPTH as nat)
}

/// Whether `i` is the first place at which `scores` is highest.
pub open spec fn first_highest(scores: Seq<int>, i: int) -> bool {
    &&& 0 <= i < scores.len()
    &&& forall|j: int| 0 <= j < scores.len() ==> #[trigger] scores[j] <= scores[i]
    &&& forall|j: int| 0 <= j < i ==> #[trigger] scores[j] < scores[i]
}

impl GameView {
    /// The reply that the computer chooses: of the colors worth trying the
    /// one with the highest score, and of several such the first.
    pub open spec fn best_reply(self) -> Color {
        self.candidates()[choose|i: int| first_highest(reply_scores(self), i)]
    }
}

/// Scores have one first place at which they are highest.
pub proof fn lemma_first_highest(scores: Seq<int>, i: int, j: int)
    requires
        first_highest(scores, i),
        first_highest(scores, j),
    ensures
        i == j,
{
    if i < j {
        assert(scores[i] < scores[j]);
        assert(scores[j] <= scores[i]);
    }
    if j < i {
        assert(scores[j] < scores[i]);
        assert(scores[i] <= scores[j]);
    }
}

/// The highest of some scores is the one that none of them exceeds, the
/// lowest the one that exceeds none.
pub proof fn lemma_extreme(scores: Seq<int>, i: int)
    requires
        0 <= i < scores.len(),
    ensures
        (forall|j: int| 0 <= j < scores.len() ==> #[trigger] scores[j] <= scores[i])
            ==> scores.max() == scores[i],
        (forall|j: int| 0 <= j < scores.len() ==> scores[i] <= #[trigger] scores[j])
            ==> scores.min() == scores[i],
        exists|j: int| 0 <= j < scores.len() && #[trigger] scores[j] == scores.max(),
        exists|j: int| 0 <= j < scores.len() && #[trigger] scores[j] == scores.min(),
{
    scores.max_ensures();
    scores.min_ensures();
    let hi = scores.index_of(scores.max());
    let lo = scores.index_of(scores.min());
    assert(scores[hi] == scores.max());
    assert(scores[lo] == scores.min());
}

/// What the scores of the replies are, place by place.
pub proof fn lemma_replies(s: GameView, for_left: bool, maximizing: bool, depth: nat)
    ensures
        replies(s, for_left, maximizing, depth).len() == s.candidates().len(),
        forall|i: int|
            0 <= i < s.candidates().len() ==> #[trigger] replies(s, for_left, maximizing, depth)[i]
                == minimax(s.after_move(s.candidates()[i]), for_left, maximizing, depth),
{
}

/// The value of the position after `color`, a legal move, is played on
/// `game_state`.
fn score_after(
    game_state: &GameState,
    color: Color,
    is_left: bool,
    is_our_turn: bool,
    depth_left: usize,
) -> (r: isize)
    requires
        game_state@.legal(color),
    ensures
        r == minimax(game_state@.after_move(color), is_left, is_our_turn, depth_left as nat),
        -(WIDTH * HEIGHT) < r < WIDTH * HEIGHT,
    decreases depth_left, 1nat,
{
    let mut next = game_state.clone();
    let moved = next.do_move(color);
    assert(moved is Ok);
    max_advantage(next, is_left, is_our_turn, depth_left)
}

/// The value of `game_state` to the left player if `is_left`, else to the
/// right, searched `depth_left` moves deep; `is_our_turn` says whether the
/// first of these moves is that side's own.
pub fn max_advantage(game_state: GameState, is_left: bool, is_our_turn: bool, depth_left: usize) -> (r:
    isize)
    ensures
        r == minimax(game_state@, is_left, is_our_turn, depth_left as nat),
        -(WIDTH * HEIGHT) < r < WIDTH * HEIGHT,
    decreases depth_left, 0nat,
{
    if depth_left == 0 {
        let lead = game_state.left_advantage();
        if is_left {
            lead
        } else {
            -lead
        }
    } else {
        let colors = game_state.get_colors();
        let ghost s = game_state@;
        let ghost scores = replies(s, is_left, !is_our_turn, (depth_left - 1) as nat);
        proof {
            lemma_replies(s, is_left, !is_our_turn, (depth_left - 1) as nat);
        }
        let ghost mut at: int = 0;
        let mut best: isize = 0;
        let mut i: usize = 0;
        while i < colors.len()
            invariant
                i <= colors.len(),
                s == game_state@,
                depth_left > 0,
                forall|k: int| 0 <= k < colors.len() ==> s.legal(#[trigger] colors[k]),
                scores.len() == colors.len(),
                forall|k: int|
                    0 <= k < colors.len() ==> #[trigger] scores[k] == minimax(
                        s.after_move(colors[k]),
                        is_left,
                        !is_our_turn,
                        (depth_left - 1) as nat,
                    ),
                i > 0 ==> 0 <= at < i && scores[at] == best,
                is_our_turn ==> forall|k: int| 0 <= k < i ==> #[trigger] scores[k] <= best,
                !is_our_turn ==> forall|k: int| 0 <= k < i ==> best <= #[trigger] scores[k],
                -(WIDTH * HEIGHT) < best < WIDTH * HEIGHT,
            decreases colors.len() - i,
        {
            let score = score_after(&game_state, colors[i], is_left, !is_our_turn, depth_left - 1);
            assert(score == scores[i as int]);
            if i == 0 || (is_our_turn && score > best) || (!is_our_turn && score < best) {
                best = score;
                proof {
                    at = i as int;
                }
            }
            i += 1;
        }
        proof {
            lemma_extreme(scores, at);
        }
        best
    }
}

/// The reply of the computer, which plays the right side, to the position
/// `game_state`. The reply depends on the position alone: the same position
/// gets the same reply every time.
pub fn best_reply(game_state: &GameState) -> (color: Color)
    ensures
        color == game_state@.best_reply(),
        game_state@.legal(color),
        game_state@.wf(),
{
    let colors = game_state.get_colors();
    let ghost s = game_state@;
    let ghost scores = reply_scores(s);
    proof {
        lemma_replies(s, false, false, DEPTH as nat);
    }
    let mut best: isize = 0;
    let mut at: usize = 0;
    let mut i: usize = 0;
    while i < colors.len()
        invariant
            i <= colors.len(),
            s == game_state@,
            forall|k: int| 0 <= k < colors.len() ==> s.legal(#[trigger] colors[k]),
            scores.len() == colors.len(),
            forall|k: int|
                0 <= k < colors.len() ==> #[trigger] scores[k] == minimax(
                    s.after_move(colors[k]),
                    false,
                    false,
                    DEPTH as nat,
                ),
            i > 0 ==> at < i && scores[at as int] == best,
            i == 0 ==> at == 0,
            forall|k: int| 0 <= k < i ==> #[trigger] scores[k] <= best,
            forall|k: int| 0 <= k < at ==> #[trigger] scores[k] < best,
        decreases colors.len() - i,
    {
        let score = score_after(game_state, colors[i], false, false, DEPTH);
        assert(score == scores[i as int]);
        if i == 0 || score > best {
            best = score;
            at = i;
        }
        i += 1;
    }
    proof {
        assert(first_highest(scores, at as int));
        let chosen = choose|j: int| first_highest(scores, j);
        lemma_first_highest(scores, at as int, chosen);
    }
    colors[at]
}

} // verus!
