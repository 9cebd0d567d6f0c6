//! A game on the wire: how a position is written as JSON and read back.

use vstd::prelude::*;
use crate::filler::color::Color;
use crate::filler::field::{decode_grid, grid_json, lemma_grid_round_trip, Field, Grid, Point};
use crate::filler::game::GameView;
use crate::filler::state::{position, GameState};
use crate::filler::territory::holds;
use crate::json::{lemma_array_view, lemma_object_view, pow10, Json, JsonModel, Number};

verus! {

/// The whole number `n` as a JSON number.
pub open spec fn whole(n: usize) -> Number {
    Number { positive: true, mantissa: n as u64, exponent: 0 }
}

/// The JSON form of a cell: an object with its column `x` and its row `y`.
pub open spec fn point_json(p: Point) -> JsonModel {
    JsonModel::Object(
        seq![
            ("x"@, JsonModel::Number(whole(p.0))),
            ("y"@, JsonModel::Number(whole(p.1))),
        ],
    )
}

pub open spec fn points_json(cells: Seq<Point>) -> JsonModel {
    JsonModel::Array(Seq::new(cells.len(), |i: int| point_json(cells[i])))
}

/// The JSON form of a game whose territories are listed as `left` and
/// `right`.
pub open spec fn state_json(field: Grid, left: Seq<Point>, right: Seq<Point>, is_left_turn: bool) -> JsonModel {
    JsonModel::Object(
        seq![
            ("field"@, grid_json(field)),
            ("leftTerritory"@, points_json(left)),
            ("rightTerritory"@, points_json(right)),
            ("isLeftTurn"@, JsonModel::Boolean(is_left_turn)),
        ],
    )
}

/// Whether `json` is a JSON form of the position `s`: that of the position
/// with each territory listed in some order, no cell twice.
pub open spec fn encodes(json: JsonModel, s: GameView) -> bool {
    exists|left: Seq<Point>, right: Seq<Point>|
        {
            &&& left.no_duplicates()
            &&& right.no_duplicates()
            &&& left.to_set() == s.left
            &&& right.to_set() == s.right
            &&& json == #[trigger] state_json(s.field, left, right, s.is_left_turn)
        }
}

/// The cell that a JSON value stands for: an object whose members `x` and `y`
/// are whole numbers, neither of them negative.
pub open spec fn decode_point(json: JsonModel) -> Option<Point> {
    match (json.member("x"@), json.member("y"@)) {
        (Some(JsonModel::Number(x)), Some(JsonModel::Number(y))) => match (x.index(), y.index()) {
            (Some(x), Some(y)) => Some((x, y)),
            _ => None,
        },
        _ => None,
    }
}

/// The cells that a JSON array of cells lists.
pub open spec fn decode_points(json: JsonModel) -> Option<Seq<Point>> {
    match json {
        JsonModel::Array(items) => if forall|i: int|
            0 <= i < items.len() ==> decode_point(#[trigger] items[i]) is Some {
            Some(Seq::new(items.len(), |i: int| decode_point(items[i]).unwrap()))
        } else {
            None
        },
        _ => None,
    }
}

/// The position that a JSON value stands for: an object with a board under
/// `field`, the two territories under `leftTerritory` and `rightTerritory`,
/// and the turn under `isLeftTurn`. A cell listed twice counts once. What is
/// no position of the game is not read.
pub open spec fn decode_state(json: JsonModel) -> Option<GameView> {
    match (
        json.member("field"@),
        json.member("leftTerritory"@),
        json.member("rightTerritory"@),
        json.member("isLeftTurn"@),
    ) {
        (Some(field), Some(left), Some(right), Some(JsonModel::Boolean(is_left_turn))) => match (
            decode_grid(field),
            decode_points(left),
            decode_points(right),
        ) {
            (Some(grid), Some(left), Some(right)) => {
                let s = GameView {
                    field: grid,
                    left: left.to_set(),
                    right: right.to_set(),
                    is_left_turn,
                };
                if s.wf() {
                    Some(s)
                } else {
                    None
                }
            },
            _ => None,
        },
        _ => None,
    }
}

/// The keys of a cell and of a game differ from one another.
pub proof fn lemma_keys()
    ensures
        "x"@ != "y"@,
        "field"@ != "leftTerritory"@,
        "field"@ != "rightTerritory"@,
        "field"@ != "isLeftTurn"@,
        "leftTerritory"@ != "rightTerritory"@,
        "leftTerritory"@ != "isLeftTurn"@,
        "rightTerritory"@ != "isLeftTurn"@,
        "state"@ != "move"@,
{
    reveal_strlit("x");
    reveal_strlit("y");
    reveal_strlit("field");
    reveal_strlit("leftTerritory");
    reveal_strlit("rightTerritory");
    reveal_strlit("isLeftTurn");
    reveal_strlit("state");
    reveal_strlit("move");
    assert("x"@[0] != "y"@[0]);
    assert("field"@.len() == 5);
    assert("leftTerritory"@.len() == 13);
    assert("rightTerritory"@.len() == 14);
    assert("isLeftTurn"@.len() == 10);
    assert("state"@.len() == 5);
    assert("move"@.len() == 4);
}

/// Reading the JSON form of a cell gives the cell back.
pub proof fn lemma_point_round_trip(p: Point)
    ensures
        decode_point(point_json(p)) == Some(p),
{
    lemma_keys();
    lemma_whole(p.0);
    lemma_whole(p.1);
    reveal_with_fuel(crate::json::find_member, 3);
    let members = point_json(p)->Object_0;
    assert(members.drop_first()[0] == members[1]);
    assert(point_json(p).member("x"@) == Some(JsonModel::Number(whole(p.0))));
    assert(point_json(p).member("y"@) == Some(JsonModel::Number(whole(p.1))));
}

proof fn lemma_whole(n: usize)
    ensures
        whole(n).index() == Some(n),
{
    assert(pow10(0) == 1);
    assert(n as u64 as nat * pow10(0) == n) by (nonlinear_arith)
        requires
            pow10(0) == 1,
            n as u64 as nat == n as nat,
    ;
}

/// Reading the JSON form of a list of cells gives the list back.
pub proof fn lemma_points_round_trip(cells: Seq<Point>)
    ensures
        decode_points(points_json(cells)) == Some(cells),
{
    let items = points_json(cells)->Array_0;
    assert forall|i: int| 0 <= i < items.len() implies decode_point(#[trigger] items[i]) == Some(
        cells[i],
    ) by {
        lemma_point_round_trip(cells[i]);
    }
    assert(decode_points(points_json(cells)).unwrap() =~= cells);
}

/// Reading a JSON form of a position of the game gives the position back,
/// in whatever order the form lists the territories.
pub proof fn lemma_state_round_trip(json: JsonModel, s: GameView)
    requires
        s.wf(),
        encodes(json, s),
    ensures
        decode_state(json) == Some(s),
{
    let (left, right) = choose|left: Seq<Point>, right: Seq<Point>|
        {
            &&& left.no_duplicates()
            &&& right.no_duplicates()
            &&& left.to_set() == s.left
            &&& right.to_set() == s.right
            &&& json == #[trigger] state_json(s.field, left, right, s.is_left_turn)
        };
    lemma_keys();
    lemma_grid_round_trip(s.field);
    lemma_points_round_trip(left);
    lemma_points_round_trip(right);
    let members = json->Object_0;
    let m1 = members.drop_first();
    let m2 = m1.drop_first();
    let m3 = m2.drop_first();
    assert(m1[0] == members[1]);
    assert(m2[0] == members[2]);
    assert(m3[0] == members[3]);
    reveal_with_fuel(crate::json::find_member, 5);
    assert(json.member("field"@) == Some(grid_json(s.field)));
    assert(json.member("leftTerritory"@) == Some(points_json(left)));
    assert(json.member("rightTerritory"@) == Some(points_json(right)));
    assert(json.member("isLeftTurn"@) == Some(JsonModel::Boolean(s.is_left_turn)));
    let back = GameView {
        field: s.field,
        left: left.to_set(),
        right: right.to_set(),
        is_left_turn: s.is_left_turn,
    };
    assert(back == s);
}

fn point_to_json(p: Point) -> (json: Json)
    ensures
        json@ == point_json(p),
{
    let mut members: Vec<(String, Json)> = Vec::new();
    members.push(("x".to_owned(), Json::Number(Number::from_index(p.0))));
    members.push(("y".to_owned(), Json::Number(Number::from_index(p.1))));
    proof {
        lemma_object_view(members);
        assert((Json::Object(members))@->Object_0 =~= point_json(p)->Object_0);
    }
    Json::Object(members)
}

fn points_to_json(cells: &Vec<Point>) -> (json: Json)
    ensures
        json@ == points_json(cells@),
{
    let mut items: Vec<Json> = Vec::new();
    let mut i: usize = 0;
    while i < cells.len()
        invariant
            i <= cells.len(),
            items.len() == i,
            forall|k: int| 0 <= k < i ==> (#[trigger] items[k])@ == point_json(cells[k]),
        decreases cells.len() - i,
    {
        items.push(point_to_json(cells[i]));
        i += 1;
    }
    proof {
        lemma_array_view(items);
        assert((Json::Array(items))@->Array_0 =~= points_json(cells@)->Array_0);
    }
    Json::Array(items)
}

fn read_point(json: &Json) -> (r: Option<Point>)
    ensures
        r == decode_point(json@),
{
    let x = match json.get("x") {
        Some(x) => x,
        None => {
            return None;
        },
    };
    let x = match x.get_number() {
        Some(x) => x,
        None => {
            return None;
        },
    };
    let y = match json.get("y") {
        Some(y) => y,
        None => {
            return None;
        },
    };
    let y = match y.get_number() {
        Some(y) => y,
        None => {
            return None;
        },
    };
    match (x.to_index(), y.to_index()) {
        (Some(x), Some(y)) => Some((x, y)),
        _ => None,
    }
}

/// The cells that a JSON array lists, each once, in the order in which they
/// first come.
fn read_points(json: &Json) -> (r: Option<Vec<Point>>)
    ensures
        match decode_points(json@) {
            Some(cells) => r matches Some(list) && list@.no_duplicates() && list@.to_set()
                == cells.to_set(),
            None => r is None,
        },
{
    let items = match json.get_array() {
        Some(items) => items,
        None => {
            return None;
        },
    };
    let ghost all = json@->Array_0;
    let mut list: Vec<Point> = Vec::new();
    let mut i: usize = 0;
    while i < items.len()
        invariant
            i <= items.len(),
            json@ == JsonModel::Array(all),
            items.len() == all.len(),
            forall|k: int| 0 <= k < items.len() ==> (#[trigger] items[k])@ == all[k],
            forall|k: int| 0 <= k < i ==> decode_point(#[trigger] all[k]) is Some,
            list@.no_duplicates(),
            forall|p: Point|
                list@.contains(p) <==> exists|k: int|
                    0 <= k < i && decode_point(#[trigger] all[k]) == Some(p),
        decreases items.len() - i,
    {
        let p = match read_point(&items[i]) {
            Some(p) => p,
            None => {
                assert(decode_point(all[i as int]) is None);
                return None;
            },
        };
        let ghost before = list@;
        if !holds(&list, p) {
            list.push(p);
            assert(list@.last() == p);
        }
        assert forall|q: Point| list@.contains(q) <==> exists|k: int|
            0 <= k < i + 1 && decode_point(#[trigger] all[k]) == Some(q) by {
            if list@.contains(q) {
                let n = list@.index_of(q);
                if n < before.len() {
                    assert(before[n] == q);
                    assert(before.contains(q));
                } else {
                    assert(decode_point(all[i as int]) == Some(q));
                }
            }
            if exists|k: int| 0 <= k < i + 1 && decode_point(#[trigger] all[k]) == Some(q) {
                let k = choose|k: int| 0 <= k < i + 1 && decode_point(#[trigger] all[k]) == Some(q);
                if k < i {
                    assert(before.contains(q));
                    let n = before.index_of(q);
                    assert(list@[n] == q);
                } else {
                    assert(q == p);
                    if before.contains(p) {
                        let n = before.index_of(p);
                        assert(list@[n] == p);
                    } else {
                        assert(list@[list@.len() - 1] == p);
                    }
                }
            }
        }
        i += 1;
    }
    proof {
        let cells = decode_points(json@).unwrap();
        assert forall|p: Point| list@.to_set().contains(p) <==> cells.to_set().contains(p) by {
            if list@.contains(p) {
                let k = choose|k: int| 0 <= k < i && decode_point(#[trigger] all[k]) == Some(p);
                assert(cells[k] == p);
            }
            if cells.contains(p) {
                let k = cells.index_of(p);
                assert(decode_point(all[k]) == Some(p));
            }
        }
        assert(list@.to_set() =~= cells.to_set());
    }
    Some(list)
}

impl GameState {
    /// The game as JSON, each territory in the order in which the game lists
    /// it.
    pub fn jsonify(&self) -> (json: Json)
        ensures
            json@ == state_json(
                self@.field,
                self.left_cells(),
                self.right_cells(),
                self@.is_left_turn,
            ),
            encodes(json@, self@),
    {
        let left = self.left_territory();
        let right = self.right_territory();
        let mut members: Vec<(String, Json)> = Vec::new();
        members.push(("field".to_owned(), self.field().jsonify()));
        members.push(("leftTerritory".to_owned(), points_to_json(left)));
        members.push(("rightTerritory".to_owned(), points_to_json(right)));
        members.push(("isLeftTurn".to_owned(), Json::Boolean(self.is_left_turn())));
        proof {
            lemma_object_view(members);
            assert((Json::Object(members))@->Object_0 =~= state_json(
                self@.field,
                self.left_cells(),
                self.right_cells(),
                self@.is_left_turn,
            )->Object_0);
        }
        Json::Object(members)
    }

    /// The game that a JSON value stands for, if it stands for one.
    pub fn from_json(json: &Json) -> (r: Option<GameState>)
        ensures
            match decode_state(json@) {
                Some(s) => r matches Some(game) && game@ == s,
                None => r is None,
            },
            r matches Some(game) ==> game@.wf(),
    {
        let field = match json.get("field") {
            Some(field) => field,
            None => {
                return None;
            },
        };
        let field = match Field::from_json(field) {
            Some(field) => field,
            None => {
                return None;
            },
        };
        let left = match json.get("leftTerritory") {
            Some(left) => left,
            None => {
                return None;
            },
        };
        let left = match read_points(left) {
            Some(left) => left,
            None => {
                return None;
            },
        };
        let right = match json.get("rightTerritory") {
            Some(right) => right,
            None => {
                return None;
            },
        };
        let right = match read_points(right) {
            Some(right) => right,
            None => {
                return None;
            },
        };
        let is_left_turn = match json.get("isLeftTurn") {
            Some(turn) => turn,
            None => {
                return None;
            },
        };
        let is_left_turn = match is_left_turn.get_bool() {
            Some(turn) => turn,
            None => {
                return None;
            },
        };
        assert(position(field, left@, right@, is_left_turn) == (GameView {
            field: field@,
            left: left@.to_set(),
            right: right@.to_set(),
            is_left_turn,
        }));
        GameState::from_parts(field, left, right, is_left_turn)
    }
}

} // verus!
