//! The Filler game: two players take turns to flood their corner of a colored
//! board, and the one who owns more of it at the end wins. The server holds no
//! game: each request brings the position along, and the answer is the
//! position after the player's move and the computer's reply.

pub mod color;
pub mod field;
pub mod game;
pub mod search;
pub mod state;
pub mod territory;
pub mod wire;

pub use crate::filler::color::{Color, N_COLORS};
pub use crate::filler::field::{Field, Point, HEIGHT, WIDTH};
pub use crate::filler::search::{best_reply, max_advantage, DEPTH};
pub use crate::filler::state::GameState;

use vstd::prelude::*;
use crate::filler::field::well_mixed;
use crate::filler::game::GameView;
use crate::filler::wire::{decode_state, encodes};
use crate::json::{Json, JsonModel};

verus! {

/// Whether `s` is the start of a game: each player owns one corner of a well
/// mixed board, and the left player moves first.
pub open spec fn is_start(s: GameView) -> bool {
    &&& s.wf()
    &&& well_mixed(s.field)
    &&& s.left == set![(0usize, (HEIGHT - 1) as usize)]
    &&& s.right == set![((WIDTH - 1) as usize, 0usize)]
    &&& s.is_left_turn
}

/// The answer to a request: the position after the player's move and the
/// computer's reply. There is none where the request is no object with a game
/// under `state` and a color under `move`, or where the move is illegal.
pub open spec fn answer(json: JsonModel) -> Option<GameView> {
    match (json.member("state"@), json.member("move"@)) {
        (Some(state), Some(color)) => match (decode_state(state), Color::decode(color)) {
            (Some(s), Some(color)) => if s.legal(color) {
                let moved = s.after_move(color);
                Some(moved.after_move(moved.best_reply()))
            } else {
                None
            },
            _ => None,
        },
        _ => None,
    }
}

/// A new game, as JSON.
pub fn new_game_state() -> (json: Json)
    ensures
        exists|s: GameView| is_start(s) && #[trigger] encodes(json@, s),
{
    let game = GameState::new();
    let json = game.jsonify();
    assert(is_start(game@) && encodes(json@, game@));
    json
}

/// Answers a request: plays the move that it asks for on the game that it
/// brings, then the computer's reply, and returns the game as JSON.
pub fn handle_request(json: &Json) -> (r: Option<Json>)
    ensures
        match answer(json@) {
            Some(s) => r matches Some(reply) && encodes(reply@, s) && s.wf(),
            None => r is None,
        },
{
    let state = match json.get("state") {
        Some(state) => state,
        None => {
            return None;
        },
    };
    let mut game_state = match GameState::from_json(state) {
        Some(game_state) => game_state,
        None => {
            return None;
        },
    };
    let color = match json.get("move") {
        Some(color) => color,
        None => {
            return None;
        },
    };
    let color_chosen = match Color::from_json(color) {
        Some(color) => color,
        None => {
            return None;
        },
    };
    if game_state.do_move(color_chosen).is_err() {
        return None;
    }
    let reply = best_reply(&game_state);
    let replied = game_state.do_move(reply);
    assert(replied is Ok);
    Some(game_state.jsonify())
}

} // verus!
