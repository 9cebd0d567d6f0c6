use filler_server::filler::{Color, Field, GameState, HEIGHT, WIDTH};
use filler_server::filler::{handle_request, new_game_state};
use filler_server::json::{Json, Number};
use filler_server::notation::{parse_json, print_json};

use Color::{Black, Blue, Green, Purple, Red, Yellow};

fn num(n: u64) -> Json {
    Json::Number(Number { positive: true, mantissa: n, exponent: 0 })
}

fn name(s: &str) -> Json {
    Json::String(s.to_string())
}

fn members(members: Vec<(&str, Json)>) -> Json {
    Json::Object(members.into_iter().map(|(key, value)| (key.to_string(), value)).collect())
}

fn point(x: u64, y: u64) -> Json {
    members(vec![("x", num(x)), ("y", num(y))])
}

fn color_name(color: Color) -> &'static str {
    match color {
        Red => "red",
        Yellow => "yellow",
        Green => "green",
        Blue => "blue",
        Purple => "purple",
        Black => "black",
    }
}

fn grid(field: &Field) -> Json {
    Json::Array(
        field
            .inner
            .iter()
            .map(|row| Json::Array(row.iter().map(|&color| name(color_name(color))).collect()))
            .collect(),
    )
}

fn board() -> Field {
    let mut inner = [[Green; WIDTH]; HEIGHT];
    for y in 0..HEIGHT {
        for x in 0..WIDTH {
            inner[y][x] = if (x + y) % 2 == 0 { Green } else { Yellow };
        }
    }
    inner[HEIGHT - 1][0] = Red;
    inner[0][WIDTH - 1] = Blue;
    Field { inner }
}

fn state(field: &Field, left: Vec<Json>, right: Vec<Json>, is_left_turn: bool) -> Json {
    members(vec![
        ("field", grid(field)),
        ("leftTerritory", Json::Array(left)),
        ("rightTerritory", Json::Array(right)),
        ("isLeftTurn", Json::Boolean(is_left_turn)),
    ])
}

fn start() -> Json {
    state(&board(), vec![point(0, 6)], vec![point(7, 0)], true)
}

fn request(state: Json, color: &str) -> Json {
    members(vec![("state", state), ("move", name(color))])
}

#[test]
fn color_names_are_lower_case() {
    assert_eq!(Red.jsonify(), name("red"));
    assert_eq!(Yellow.jsonify(), name("yellow"));
    assert_eq!(Green.jsonify(), name("green"));
    assert_eq!(Blue.jsonify(), name("blue"));
    assert_eq!(Purple.jsonify(), name("purple"));
    assert_eq!(Black.jsonify(), name("black"));
}

#[test]
fn color_from_json_reads_its_own_names_only() {
    for color in [Red, Yellow, Green, Blue, Purple, Black] {
        assert_eq!(Color::from_json(&color.jsonify()), Some(color));
    }
    assert_eq!(Color::from_json(&name("Red")), None);
    assert_eq!(Color::from_json(&name("")), None);
    assert_eq!(Color::from_json(&name("orange")), None);
    assert_eq!(Color::from_json(&num(1)), None);
    assert_eq!(Color::from_json(&Json::Null), None);
}

#[test]
fn field_jsonify_lists_rows_of_names() {
    let json = board().jsonify();
    assert_eq!(json, grid(&board()));
    let rows = json.get_array().unwrap();
    assert_eq!(rows.len(), 7);
    for row in rows {
        assert_eq!(row.get_array().unwrap().len(), 8);
    }
    assert_eq!(rows[6].get_array().unwrap()[0], name("red"));
    assert_eq!(rows[0].get_array().unwrap()[7], name("blue"));
}

#[test]
fn field_from_json_reads_its_own_form() {
    let field = Field::from_json(&board().jsonify()).unwrap();
    assert_eq!(field.inner, board().inner);
}

#[test]
fn field_from_json_needs_every_row_and_cell() {
    let row = |n: usize| Json::Array((0..n).map(|_| name("red")).collect());
    let rows = |n: usize| (0..n).map(|_| row(8)).collect::<Vec<Json>>();
    assert!(Field::from_json(&Json::Array(rows(7))).is_some());
    // Too few rows, or none.
    assert!(Field::from_json(&Json::Array(rows(6))).is_none());
    assert!(Field::from_json(&Json::Array(vec![])).is_none());
    assert!(Field::from_json(&Json::Array(vec![Json::Array(vec![name("red")])])).is_none());
    // Too few cells in one row.
    for short in 0..7 {
        let mut board = rows(7);
        board[short] = row(7);
        assert!(Field::from_json(&Json::Array(board)).is_none());
        let mut board = rows(7);
        board[short] = row(0);
        assert!(Field::from_json(&Json::Array(board)).is_none());
    }
}

#[test]
fn field_from_json_refuses_cells_off_the_board() {
    let row = |n: usize| Json::Array((0..n).map(|_| name("red")).collect());
    let rows = |n: usize| (0..n).map(|_| row(8)).collect::<Vec<Json>>();
    // A ninth cell in a row.
    for long in 0..7 {
        let mut board = rows(7);
        board[long] = row(9);
        assert!(Field::from_json(&Json::Array(board)).is_none());
    }
    // An eighth row, filled or empty.
    assert!(Field::from_json(&Json::Array(rows(8))).is_none());
    let mut more = rows(7);
    more.push(row(0));
    assert!(Field::from_json(&Json::Array(more)).is_none());
    let mut empty_rows = vec![row(8)];
    for _ in 0..7 {
        empty_rows.push(row(0));
    }
    assert!(Field::from_json(&Json::Array(empty_rows)).is_none());
}

#[test]
fn field_from_json_refuses_other_values() {
    assert!(Field::from_json(&Json::Null).is_none());
    assert!(Field::from_json(&name("red")).is_none());
    assert!(Field::from_json(&Json::Array(vec![name("red")])).is_none());
    // A board whose every cell but one is a color name.
    for wrong in [name("pink"), name("Red"), num(1), Json::Null, Json::Array(vec![])] {
        let mut rows: Vec<Vec<Json>> = (0..7).map(|_| (0..8).map(|_| name("red")).collect()).collect();
        rows[3][5] = wrong;
        let json = Json::Array(rows.into_iter().map(Json::Array).collect());
        assert!(Field::from_json(&json).is_none());
    }
    // A row that is no array.
    let mut rows: Vec<Json> =
        (0..7).map(|_| Json::Array((0..8).map(|_| name("red")).collect())).collect();
    rows[2] = name("red");
    assert!(Field::from_json(&Json::Array(rows)).is_none());
}

#[test]
fn game_jsonify_has_the_four_members() {
    let game = GameState::from_parts(board(), vec![(0, 6)], vec![(7, 0)], true).unwrap();
    assert_eq!(game.jsonify(), start());
    assert_eq!(
        print_json(&game.jsonify().get("leftTerritory").unwrap()),
        "[{\"x\":0,\"y\":6}]"
    );
    assert_eq!(
        print_json(&game.jsonify().get("rightTerritory").unwrap()),
        "[{\"x\":7,\"y\":0}]"
    );
    assert_eq!(print_json(&game.jsonify().get("isLeftTurn").unwrap()), "true");
}

#[test]
fn game_round_trip_is_the_same_json() {
    let mut game = GameState::new();
    for _ in 0..12 {
        let json = game.jsonify();
        let back = GameState::from_json(&json).unwrap();
        assert_eq!(back.jsonify(), json);
        assert_eq!(print_json(&back.jsonify()), print_json(&json));
        assert_eq!(back.left_territory(), game.left_territory());
        assert_eq!(back.right_territory(), game.right_territory());
        assert_eq!(back.is_left_turn(), game.is_left_turn());
        assert_eq!(back.field().inner, game.field().inner);
        let color = game.get_colors()[0];
        game.do_move(color).unwrap();
    }
}

#[test]
fn game_round_trip_through_text() {
    let game = GameState::from_parts(board(), vec![(0, 6)], vec![(7, 0)], false).unwrap();
    let text = print_json(&game.jsonify());
    let back = GameState::from_json(&parse_json(&text).unwrap()).unwrap();
    assert_eq!(print_json(&back.jsonify()), text);
}

#[test]
fn game_from_json_reads_members_in_any_order() {
    let json = members(vec![
        ("isLeftTurn", Json::Boolean(false)),
        ("rightTerritory", Json::Array(vec![point(7, 0)])),
        ("extra", Json::Null),
        ("leftTerritory", Json::Array(vec![members(vec![("y", num(6)), ("x", num(0))])])),
        ("field", grid(&board())),
    ]);
    let game = GameState::from_json(&json).unwrap();
    assert_eq!(game.left_territory(), &vec![(0, 6)]);
    assert_eq!(game.right_territory(), &vec![(7, 0)]);
    assert!(!game.is_left_turn());
}

#[test]
fn game_from_json_counts_a_cell_once() {
    let json = state(&board(), vec![point(0, 6), point(0, 6)], vec![point(7, 0)], true);
    let game = GameState::from_json(&json).unwrap();
    assert_eq!(game.left_territory(), &vec![(0, 6)]);
}

#[test]
fn game_from_json_takes_whole_coordinates_however_written() {
    // 70e-1 is seven, and 0e3 is zero.
    let x = Json::Number(Number { positive: true, mantissa: 70, exponent: -1 });
    let y = Json::Number(Number { positive: true, mantissa: 0, exponent: 3 });
    let json = state(&board(), vec![point(0, 6)], vec![members(vec![("x", x), ("y", y)])], true);
    let game = GameState::from_json(&json).unwrap();
    assert_eq!(game.right_territory(), &vec![(7, 0)]);
}

#[test]
fn game_from_json_refuses_coordinates_that_are_no_whole_numbers() {
    let with = |x: Json, y: Json| {
        state(&board(), vec![point(0, 6)], vec![members(vec![("x", x), ("y", y)])], true)
    };
    let n = |positive, mantissa, exponent| Json::Number(Number { positive, mantissa, exponent });
    assert!(GameState::from_json(&with(num(7), num(0))).is_some());
    // A fraction.
    assert!(GameState::from_json(&with(n(true, 75, -1), num(0))).is_none());
    assert!(GameState::from_json(&with(num(7), n(true, 1, -1))).is_none());
    assert!(GameState::from_json(&with(num(7), n(true, 1, -400))).is_none());
    // A negative number.
    assert!(GameState::from_json(&with(num(7), n(false, 3, 0))).is_none());
    assert!(GameState::from_json(&with(n(false, 7, 0), num(0))).is_none());
    assert!(GameState::from_json(&with(num(7), n(false, 1, -1))).is_none());
    // A number too large for the board or for any index.
    assert!(GameState::from_json(&with(num(8), num(0))).is_none());
    assert!(GameState::from_json(&with(num(7), n(true, 1, 300))).is_none());
    // The same through text.
    let text = print_json(&with(num(7), num(0)));
    assert!(GameState::from_json(&parse_json(&text).unwrap()).is_some());
    for wrong in ["-3", "7.5", "0.5", "-0.5", "1e30"] {
        let broken = text.replace("{\"x\":7,", &format!("{{\"x\":{},", wrong));
        assert_ne!(broken, text);
        assert!(GameState::from_json(&parse_json(&broken).unwrap()).is_none(), "{}", wrong);
    }
    // A board of one cell is no board, whatever the territories.
    let small = members(vec![
        ("field", Json::Array(vec![Json::Array(vec![name("red")])])),
        ("leftTerritory", Json::Array(vec![members(vec![("x", n(false, 3, 0)), ("y", num(0))])])),
        ("rightTerritory", Json::Array(vec![point(1, 0)])),
        ("isLeftTurn", Json::Boolean(true)),
    ]);
    assert!(GameState::from_json(&small).is_none());
}

#[test]
fn game_from_json_refuses_missing_members() {
    for missing in ["field", "leftTerritory", "rightTerritory", "isLeftTurn"] {
        let all = match start() {
            Json::Object(all) => all,
            _ => unreachable!(),
        };
        let json = Json::Object(all.into_iter().filter(|(key, _)| key != missing).collect());
        assert!(GameState::from_json(&json).is_none());
    }
    assert!(GameState::from_json(&Json::Null).is_none());
    assert!(GameState::from_json(&Json::Array(vec![])).is_none());
}

#[test]
fn game_from_json_refuses_malformed_members() {
    let ok = || (grid(&board()), Json::Array(vec![point(0, 6)]), Json::Array(vec![point(7, 0)]));
    let build = |field: Json, left: Json, right: Json, turn: Json| {
        members(vec![
            ("field", field),
            ("leftTerritory", left),
            ("rightTerritory", right),
            ("isLeftTurn", turn),
        ])
    };
    let (field, left, right) = ok();
    assert!(GameState::from_json(&build(field, left, right, Json::Boolean(true))).is_some());
    let (field, left, right) = ok();
    assert!(GameState::from_json(&build(field, left, right, num(1))).is_none());
    let (_, left, right) = ok();
    assert!(GameState::from_json(&build(Json::Null, left, right, Json::Boolean(true))).is_none());
    let (field, _, right) = ok();
    assert!(GameState::from_json(&build(field, point(0, 6), right, Json::Boolean(true))).is_none());
    let (field, left, _) = ok();
    let no_y = Json::Array(vec![members(vec![("x", num(7))])]);
    assert!(GameState::from_json(&build(field, left, no_y, Json::Boolean(true))).is_none());
    let (field, left, _) = ok();
    let text_x = Json::Array(vec![members(vec![("x", name("7")), ("y", num(0))])]);
    assert!(GameState::from_json(&build(field, left, text_x, Json::Boolean(true))).is_none());
    let (field, left, _) = ok();
    let no_object = Json::Array(vec![num(7)]);
    assert!(GameState::from_json(&build(field, left, no_object, Json::Boolean(true))).is_none());
}

#[test]
fn game_from_json_refuses_what_is_no_game() {
    let field = board();
    // An empty territory.
    assert!(GameState::from_json(&state(&field, vec![], vec![point(7, 0)], true)).is_none());
    // A cell off the board.
    assert!(GameState::from_json(&state(&field, vec![point(0, 7)], vec![point(7, 0)], true)).is_none());
    assert!(GameState::from_json(&state(&field, vec![point(0, 6)], vec![point(8, 0)], true)).is_none());
    // A cell that both players own.
    assert!(GameState::from_json(&state(
        &field,
        vec![point(0, 6)],
        vec![point(7, 0), point(0, 6)],
        true
    ))
    .is_none());
    // A territory of two colors.
    assert!(GameState::from_json(&state(
        &field,
        vec![point(0, 6), point(1, 6)],
        vec![point(7, 0)],
        true
    ))
    .is_none());
    // Two players of one color.
    assert!(GameState::from_json(&state(&field, vec![point(1, 6)], vec![point(0, 5)], true)).is_none());
}

#[test]
fn new_game_state_is_a_start() {
    for _ in 0..20 {
        let json = new_game_state();
        let rows = json.get("field").unwrap().get_array().unwrap();
        assert_eq!(rows.len(), 7);
        let mut colors = Vec::new();
        for row in rows {
            let cells = row.get_array().unwrap();
            assert_eq!(cells.len(), 8);
            colors.push(cells.iter().map(|cell| Color::from_json(cell).unwrap()).collect::<Vec<_>>());
        }
        for y in 0..7 {
            for x in 0..8 {
                if x + 1 < 8 {
                    assert_ne!(colors[y][x], colors[y][x + 1]);
                }
                if y + 1 < 7 {
                    assert_ne!(colors[y][x], colors[y + 1][x]);
                }
            }
        }
        assert_eq!(json.get("leftTerritory"), Some(&Json::Array(vec![point(0, 6)])));
        assert_eq!(json.get("rightTerritory"), Some(&Json::Array(vec![point(7, 0)])));
        assert_eq!(json.get("isLeftTurn"), Some(&Json::Boolean(true)));
        assert_eq!(json.get_object().unwrap().len(), 4);
    }
}

#[test]
fn handle_request_plays_the_move_and_the_reply() {
    let reply = handle_request(&request(start(), "yellow")).unwrap();
    let mut field = board();
    field.set(0, 6, Yellow);
    field.set(7, 0, Green);
    let expected = state(
        &field,
        vec![point(0, 6), point(0, 5), point(1, 6)],
        vec![point(7, 0), point(7, 1), point(6, 0)],
        true,
    );
    assert_eq!(reply, expected);
}

#[test]
fn handle_request_answers_with_a_game_it_can_read() {
    let mut json = new_game_state();
    for _ in 0..10 {
        let game = GameState::from_json(&json).unwrap();
        assert!(game.is_left_turn());
        let color = game.get_colors()[0];
        let mut played = game.clone();
        played.do_move(color).unwrap();
        json = handle_request(&request(json, color_name(color))).unwrap();
        let after = GameState::from_json(&json).unwrap();
        assert!(after.is_left_turn());
        assert_eq!(after.left_territory(), played.left_territory());
        assert!(after.right_territory().len() >= game.right_territory().len());
    }
}

#[test]
fn handle_request_refuses_an_illegal_move() {
    assert_eq!(handle_request(&request(start(), "red")), None);
    assert_eq!(handle_request(&request(start(), "blue")), None);
}

#[test]
fn handle_request_refuses_a_malformed_request() {
    assert_eq!(handle_request(&Json::Null), None);
    assert_eq!(handle_request(&Json::Array(vec![start(), name("yellow")])), None);
    assert_eq!(handle_request(&members(vec![("state", start())])), None);
    assert_eq!(handle_request(&members(vec![("move", name("yellow"))])), None);
    assert_eq!(handle_request(&request(start(), "pink")), None);
    assert_eq!(handle_request(&members(vec![("state", start()), ("move", num(2))])), None);
    assert_eq!(handle_request(&request(Json::Null, "yellow")), None);
    let broken = state(&board(), vec![point(0, 6)], vec![point(0, 6)], true);
    assert_eq!(handle_request(&request(broken, "yellow")), None);
}
