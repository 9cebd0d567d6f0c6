use filler_server::filler::field::{count_free_colors, free_color_at, list_free_colors};
use filler_server::filler::{best_reply, max_advantage, Color, Field, GameState, Point, DEPTH, HEIGHT, WIDTH};

use Color::{Black, Blue, Green, Purple, Red, Yellow};

/// A board of green and yellow squares in turn, with the left player's corner
/// red and the right player's corner blue.
fn chequered() -> Field {
    let mut inner = [[Green; WIDTH]; HEIGHT];
    for y in 0..HEIGHT {
        for x in 0..WIDTH {
            inner[y][x] = if (x + y) % 2 == 0 { Green } else { Yellow };
        }
    }
    inner[HEIGHT - 1][0] = Red;
    inner[0][WIDTH - 1] = Blue;
    Field { inner }
}

fn chequered_game() -> GameState {
    GameState::from_parts(chequered(), vec![(0, 6)], vec![(7, 0)], true).unwrap()
}

/// A board at its end: the left player owns its corner, the right player all
/// the rest.
fn finished_game(is_left_turn: bool) -> GameState {
    let mut inner = [[Blue; WIDTH]; HEIGHT];
    inner[HEIGHT - 1][0] = Red;
    let mut right: Vec<Point> = Vec::new();
    for y in 0..HEIGHT {
        for x in 0..WIDTH {
            if (x, y) != (0, HEIGHT - 1) {
                right.push((x, y));
            }
        }
    }
    GameState::from_parts(Field { inner }, vec![(0, HEIGHT - 1)], right, is_left_turn).unwrap()
}

fn sorted(cells: &Vec<Point>) -> Vec<Point> {
    let mut cells = cells.clone();
    cells.sort();
    cells
}

#[test]
fn color_numbers_run_from_one_to_six() {
    assert_eq!(Color::from_u8(1), Red);
    assert_eq!(Color::from_u8(2), Yellow);
    assert_eq!(Color::from_u8(3), Green);
    assert_eq!(Color::from_u8(4), Blue);
    assert_eq!(Color::from_u8(5), Purple);
    assert_eq!(Color::from_u8(6), Black);
}

#[test]
fn field_get_is_none_off_the_board() {
    let field = chequered();
    assert_eq!(field.get(0, 6), Some(Red));
    assert_eq!(field.get(7, 0), Some(Blue));
    assert_eq!(field.get(1, 6), Some(Yellow));
    assert_eq!(field.get(8, 0), None);
    assert_eq!(field.get(0, 7), None);
    assert_eq!(field.get(usize::MAX, 0), None);
}

#[test]
fn field_set_changes_one_cell() {
    let mut field = chequered();
    field.set(3, 2, Black);
    for y in 0..HEIGHT {
        for x in 0..WIDTH {
            let expected = if (x, y) == (3, 2) { Some(Black) } else { chequered().get(x, y) };
            assert_eq!(field.get(x, y), expected);
        }
    }
}

#[test]
fn field_rotate_turns_the_board_half_way() {
    let field = chequered();
    let turned = field.rotate();
    assert_eq!(turned.get(0, 0), Some(Yellow));
    assert_eq!(turned.get(7, 0), Some(Red));
    assert_eq!(turned.get(0, 6), Some(Blue));
    for y in 0..HEIGHT {
        for x in 0..WIDTH {
            assert_eq!(turned.get(x, y), field.get(WIDTH - 1 - x, HEIGHT - 1 - y));
        }
    }
    assert_eq!(turned.rotate().inner, field.inner);
}

#[test]
fn random_field_is_well_mixed() {
    for _ in 0..50 {
        let field = Field::from_random();
        for y in 0..HEIGHT {
            for x in 0..WIDTH {
                if x + 1 < WIDTH {
                    assert_ne!(field.inner[y][x], field.inner[y][x + 1]);
                }
                if y + 1 < HEIGHT {
                    assert_ne!(field.inner[y][x], field.inner[y + 1][x]);
                }
            }
        }
        assert_ne!(field.inner[HEIGHT - 1][0], field.inner[0][WIDTH - 1]);
    }
}

#[test]
fn random_fields_differ() {
    let first = Field::from_random();
    let mut all_same = true;
    for _ in 0..20 {
        if Field::from_random().inner != first.inner {
            all_same = false;
        }
    }
    assert!(!all_same);
}

#[test]
fn free_colors_leave_out_the_neighbors() {
    assert_eq!(list_free_colors(None, None, None), vec![Red, Yellow, Green, Blue, Purple, Black]);
    assert_eq!(count_free_colors(None, None, None), 6);
    assert_eq!(
        list_free_colors(Some(Yellow), Some(Black), None),
        vec![Red, Green, Blue, Purple]
    );
    assert_eq!(count_free_colors(Some(Yellow), Some(Yellow), None), 5);
    assert_eq!(list_free_colors(Some(Red), Some(Green), Some(Purple)), vec![Yellow, Blue, Black]);
    assert_eq!(count_free_colors(Some(Red), Some(Green), Some(Purple)), 3);
    assert_eq!(free_color_at(Some(Red), Some(Green), Some(Purple), 0), Yellow);
    assert_eq!(free_color_at(Some(Red), Some(Green), Some(Purple), 1), Blue);
    assert_eq!(free_color_at(Some(Red), Some(Green), Some(Purple), 2), Black);
    assert_eq!(free_color_at(None, None, None, 5), Black);
    assert_eq!(free_color_at(None, Some(Red), None, 0), Yellow);
}

#[test]
fn new_game_starts_in_the_corners() {
    let game = GameState::new();
    assert_eq!(game.left_territory(), &vec![(0, 6)]);
    assert_eq!(game.right_territory(), &vec![(7, 0)]);
    assert!(game.is_left_turn());
    assert_ne!(game.left_color(), game.right_color());
    assert!(!game.is_over());
    assert_eq!(game.left_advantage(), 0);
    assert!(!game.left_winning());
}

#[test]
fn from_parts_takes_a_game() {
    let game = chequered_game();
    assert_eq!(game.left_color(), Red);
    assert_eq!(game.right_color(), Blue);
    assert_eq!(game.field().inner, chequered().inner);
}

#[test]
fn from_parts_refuses_what_is_no_game() {
    let field = chequered();
    // An empty territory.
    assert!(GameState::from_parts(field, vec![], vec![(7, 0)], true).is_none());
    assert!(GameState::from_parts(field, vec![(0, 6)], vec![], true).is_none());
    // A cell off the board.
    assert!(GameState::from_parts(field, vec![(0, 7)], vec![(7, 0)], true).is_none());
    assert!(GameState::from_parts(field, vec![(0, 6)], vec![(8, 0)], true).is_none());
    // A cell listed twice.
    assert!(GameState::from_parts(field, vec![(0, 6), (0, 6)], vec![(7, 0)], true).is_none());
    // A cell that both players own.
    assert!(GameState::from_parts(field, vec![(0, 6)], vec![(7, 0), (0, 6)], true).is_none());
    // A territory of two colors.
    assert!(GameState::from_parts(field, vec![(0, 6), (1, 6)], vec![(7, 0)], true).is_none());
    // Two players of one color.
    assert!(GameState::from_parts(field, vec![(1, 6)], vec![(0, 5)], true).is_none());
}

#[test]
fn valid_colors_leave_out_both_owned_colors() {
    let game = chequered_game();
    assert_eq!(game.valid_colors(), [Yellow, Green, Purple, Black]);
}

#[test]
fn reasonable_colors_are_those_at_the_edge() {
    let game = chequered_game();
    assert_eq!(game.reasonable_colors(), vec![Yellow]);
    assert_eq!(game.get_colors(), vec![Yellow]);
}

#[test]
fn get_colors_falls_back_to_all_valid_colors() {
    let game = finished_game(true);
    assert!(game.is_over());
    assert_eq!(game.reasonable_colors(), vec![]);
    assert_eq!(game.get_colors(), vec![Yellow, Green, Purple, Black]);
    let game = finished_game(false);
    assert_eq!(game.reasonable_colors(), vec![]);
    assert_eq!(game.get_colors(), vec![Yellow, Green, Purple, Black]);
}

#[test]
fn do_move_takes_the_edge_and_paints_the_territory() {
    let mut game = chequered_game();
    assert_eq!(game.do_move(Yellow), Ok(()));
    assert_eq!(game.left_territory(), &vec![(0, 6), (0, 5), (1, 6)]);
    assert_eq!(game.right_territory(), &vec![(7, 0)]);
    assert!(!game.is_left_turn());
    assert_eq!(game.left_color(), Yellow);
    let before = chequered();
    for y in 0..HEIGHT {
        for x in 0..WIDTH {
            let expected = if (x, y) == (0, 6) { Some(Yellow) } else { before.get(x, y) };
            assert_eq!(game.field().get(x, y), expected);
        }
    }
    assert_eq!(game.left_advantage(), 2);
    assert!(game.left_winning());
}

#[test]
fn do_move_takes_one_layer_only() {
    // A yellow cell that touches the territory only through another yellow
    // cell stays where it is.
    let mut inner = [[Green; WIDTH]; HEIGHT];
    inner[6] = [Red, Yellow, Yellow, Yellow, Green, Green, Green, Green];
    inner[0][7] = Blue;
    let mut game = GameState::from_parts(Field { inner }, vec![(0, 6)], vec![(7, 0)], true).unwrap();
    assert_eq!(game.do_move(Yellow), Ok(()));
    assert_eq!(game.left_territory(), &vec![(0, 6), (1, 6)]);
    assert_eq!(game.field().get(2, 6), Some(Yellow));
    assert_eq!(game.do_move(Purple), Ok(()));
    assert_eq!(game.do_move(Black), Ok(()));
    assert_eq!(sorted(game.left_territory()), vec![(0, 6), (1, 6)]);
    assert_eq!(game.do_move(Red), Ok(()));
    assert_eq!(game.do_move(Yellow), Ok(()));
    assert_eq!(sorted(game.left_territory()), vec![(0, 6), (1, 6), (2, 6)]);
}

#[test]
fn do_move_of_the_right_player_grows_the_right_territory() {
    let mut game = chequered_game();
    game.do_move(Yellow).unwrap();
    assert_eq!(game.do_move(Green), Ok(()));
    assert_eq!(game.right_territory(), &vec![(7, 0), (7, 1), (6, 0)]);
    assert_eq!(game.left_territory(), &vec![(0, 6), (0, 5), (1, 6)]);
    assert!(game.is_left_turn());
    assert_eq!(game.right_color(), Green);
    assert_eq!(game.field().get(7, 0), Some(Green));
}

#[test]
fn illegal_move_changes_nothing() {
    for color in [Red, Blue] {
        let mut game = chequered_game();
        assert_eq!(game.do_move(color), Err(()));
        assert_eq!(game.left_territory(), &vec![(0, 6)]);
        assert_eq!(game.right_territory(), &vec![(7, 0)]);
        assert!(game.is_left_turn());
        assert_eq!(game.field().inner, chequered().inner);
    }
}

#[test]
fn territories_stay_apart_and_never_shrink() {
    let mut game = GameState::new();
    let mut total = 2;
    for _ in 0..40 {
        let color = game.get_colors()[0];
        let left_before = game.left_territory().clone();
        let right_before = game.right_territory().clone();
        assert_eq!(game.do_move(color), Ok(()));
        for cell in game.left_territory() {
            assert!(!game.right_territory().contains(cell));
        }
        for cell in &left_before {
            assert!(game.left_territory().contains(cell));
        }
        for cell in &right_before {
            assert!(game.right_territory().contains(cell));
        }
        let now = game.left_territory().len() + game.right_territory().len();
        assert!(now >= total);
        total = now;
        for &(x, y) in game.left_territory() {
            assert_eq!(game.field().get(x, y), Some(game.left_color()));
        }
        for &(x, y) in game.right_territory() {
            assert_eq!(game.field().get(x, y), Some(game.right_color()));
        }
    }
}

#[test]
fn game_is_over_when_the_board_is_shared_out() {
    let game = finished_game(true);
    assert!(game.is_over());
    assert_eq!(game.left_advantage(), -54);
    assert!(!game.left_winning());
    assert!(!chequered_game().is_over());
}

#[test]
fn clone_is_the_same_game() {
    let game = chequered_game();
    let mut copy = game.clone();
    assert_eq!(copy.left_territory(), game.left_territory());
    assert_eq!(copy.right_territory(), game.right_territory());
    assert_eq!(copy.is_left_turn(), game.is_left_turn());
    assert_eq!(copy.field().inner, game.field().inner);
    copy.do_move(Yellow).unwrap();
    assert_eq!(game.left_territory(), &vec![(0, 6)]);
}

#[test]
fn search_of_no_depth_is_the_lead() {
    let game = finished_game(true);
    assert_eq!(max_advantage(game.clone(), true, true, 0), -54);
    assert_eq!(max_advantage(game, false, true, 0), 54);
}

#[test]
fn search_follows_the_moves() {
    // The left player takes two cells with yellow; the right player then
    // takes two with green.
    assert_eq!(max_advantage(chequered_game(), true, true, 0), 0);
    assert_eq!(max_advantage(chequered_game(), true, true, 1), 2);
    assert_eq!(max_advantage(chequered_game(), true, true, 2), 0);
    assert_eq!(max_advantage(chequered_game(), false, false, 1), -2);
    assert_eq!(max_advantage(chequered_game(), false, false, 2), 0);
}

/// A game in which the mover wins one cell with yellow and two with green.
fn uneven_game(is_left_turn: bool) -> GameState {
    let mut inner = [[Purple; WIDTH]; HEIGHT];
    inner[6] = [Red, Red, Yellow, Purple, Purple, Purple, Purple, Purple];
    inner[5] = [Green, Green, Purple, Purple, Purple, Purple, Purple, Purple];
    inner[0] = [Purple, Purple, Purple, Purple, Purple, Yellow, Blue, Blue];
    inner[1] = [Purple, Purple, Purple, Purple, Purple, Purple, Green, Green];
    let field = Field { inner };
    GameState::from_parts(field, vec![(0, 6), (1, 6)], vec![(7, 0), (6, 0)], is_left_turn).unwrap()
}

#[test]
fn search_takes_the_highest_or_the_lowest_value() {
    let game = uneven_game(true);
    assert_eq!(game.get_colors(), vec![Yellow, Green]);
    assert_eq!(max_advantage(game.clone(), true, true, 1), 2);
    assert_eq!(max_advantage(game.clone(), true, false, 1), 1);
    assert_eq!(max_advantage(game.clone(), false, true, 1), -1);
    assert_eq!(max_advantage(game, false, false, 1), -2);
}

#[test]
fn best_reply_is_the_same_every_time() {
    let mut game = chequered_game();
    game.do_move(Yellow).unwrap();
    let first = best_reply(&game);
    for _ in 0..5 {
        assert_eq!(best_reply(&game), first);
        assert_eq!(best_reply(&game.clone()), first);
    }
    assert_eq!(first, Green);
}

#[test]
fn best_reply_takes_the_first_of_equal_colors() {
    // No color wins the right player a cell, so all four valid colors score
    // alike.
    let game = finished_game(false);
    assert_eq!(game.get_colors(), vec![Yellow, Green, Purple, Black]);
    assert_eq!(best_reply(&game), Yellow);
}

#[test]
fn best_reply_takes_the_color_that_scores_highest() {
    let game = uneven_game(false);
    assert_eq!(game.get_colors(), vec![Yellow, Green]);
    assert_eq!(DEPTH, 4);
    let mut scores = Vec::new();
    for color in game.get_colors() {
        let mut next = game.clone();
        next.do_move(color).unwrap();
        scores.push((color, max_advantage(next, false, false, DEPTH)));
    }
    let best = scores.iter().map(|&(_, score)| score).max().unwrap();
    let first = scores.iter().find(|&&(_, score)| score == best).unwrap().0;
    assert_eq!(best_reply(&game), first);
    assert_eq!(best_reply(&game), Green);
}
