use four_in_a_row::game::{Game, GameTrait, InvalidPointError, NewGameError, PlayMoveError};
use four_in_a_row::model::{next_turn, GameState, PlayerType};
use four_in_a_row::point::Point;

fn two_humans() -> Vec<PlayerType> {
    vec![PlayerType::Human, PlayerType::Human]
}

fn occupied(game: &Game) -> usize {
    game.get_board()
        .iter()
        .map(|row| row.iter().filter(|t| t.is_some()).count())
        .sum()
}

#[test]
fn new_game_has_proper_dimensions() {
    let width = 10;
    let height = 20;

    let game = Game::new(width, height, 6, two_humans()).unwrap();
    let board = game.get_board();
    assert_eq!(height as usize, board.len());
    for row in board {
        assert_eq!(width as usize, row.len());
    }
}

#[test]
fn new_game_is_in_progress() {
    let game = Game::default();

    assert_eq!(GameState::SeatToMove(0), game.get_gamestate());
}

#[test]
fn new_game_board_is_empty_and_seat_zero_moves() {
    let game = Game::new(6, 6, 4, two_humans()).unwrap();
    assert_eq!(0, occupied(&game));
    assert_eq!(GameState::SeatToMove(0), game.get_gamestate());
}

#[test]
fn construction_errors_come_in_order() {
    assert_eq!(
        Game::new(6, 6, 4, vec![PlayerType::Human]).unwrap_err(),
        NewGameError::PlayersMustBeAtLeast2
    );
    assert_eq!(
        Game::new(1, 5, 4, two_humans()).unwrap_err(),
        NewGameError::WidthMustBeAtLeast2
    );
    assert_eq!(
        Game::new(5, 1, 0, two_humans()).unwrap_err(),
        NewGameError::HeightMustBeAtLeast2
    );
    assert_eq!(
        Game::new(6, 4, 4, two_humans()).unwrap_err(),
        NewGameError::GoalMustBeLessThanHeight
    );
    assert_eq!(
        Game::new(4, 6, 4, two_humans()).unwrap_err(),
        NewGameError::GoalMustBeLessThanWidth
    );
    // the width check fires before the goal checks
    assert_eq!(
        Game::new(1, 5, 7, two_humans()).unwrap_err(),
        NewGameError::WidthMustBeAtLeast2
    );
}

#[test]
fn goal_equal_to_dimension_is_rejected() {
    // a 3 x 3 game of three-in-a-row is refused: the goal must stay below
    // both dimensions
    assert_eq!(
        Game::new(3, 3, 3, two_humans()).unwrap_err(),
        NewGameError::GoalMustBeLessThanHeight
    );
}

#[test]
fn horizontal_win_for_seat_zero() {
    // seat 0 fills row 0 left to right; seat 1 answers in row 2
    let mut game = Game::new(6, 6, 4, two_humans()).unwrap();
    let script = [(0, 0), (0, 2), (1, 0), (1, 2), (2, 0), (2, 2), (3, 0)];
    for (x, y) in script {
        game.play_move(Point::new(x, y)).unwrap();
    }
    assert_eq!(GameState::PlayerWon(0), game.get_gamestate());
}

#[test]
fn horizontal_win_filled_from_the_right_end() {
    let mut game = Game::new(6, 6, 4, two_humans()).unwrap();
    let script = [(3, 0), (3, 2), (2, 0), (2, 2), (1, 0), (1, 2), (0, 0)];
    for (x, y) in script {
        game.play_move(Point::new(x, y)).unwrap();
    }
    assert_eq!(GameState::PlayerWon(0), game.get_gamestate());
}

#[test]
fn vertical_win_is_detected() {
    let mut game = Game::new(6, 6, 4, two_humans()).unwrap();
    let script = [(0, 0), (2, 0), (0, 1), (3, 0), (0, 2), (2, 1), (0, 3)];
    for (x, y) in script {
        game.play_move(Point::new(x, y)).unwrap();
    }
    assert_eq!(GameState::PlayerWon(0), game.get_gamestate());
}

#[test]
fn diagonal_win_is_detected() {
    let mut game = Game::new(6, 6, 4, two_humans()).unwrap();
    // seat 0 builds (0,0),(1,1),(2,2),(3,3); seat 1 answers in column 5
    let script = [(0, 0), (5, 0), (1, 1), (5, 1), (2, 2), (5, 2), (3, 3)];
    for (x, y) in script {
        game.play_move(Point::new(x, y)).unwrap();
    }
    assert_eq!(GameState::PlayerWon(0), game.get_gamestate());
}

#[test]
fn anti_diagonal_win_is_detected() {
    let mut game = Game::new(6, 6, 4, two_humans()).unwrap();
    // seat 0 builds (3,0),(2,1),(1,2),(0,3), filled from the low end last
    let script = [(0, 3), (5, 0), (1, 2), (5, 1), (2, 1), (5, 2), (3, 0)];
    for (x, y) in script {
        game.play_move(Point::new(x, y)).unwrap();
    }
    assert_eq!(GameState::PlayerWon(0), game.get_gamestate());
}

#[test]
fn full_board_without_run_is_a_draw() {
    // four seats fill a 4 x 4 board of three-in-a-row with a pattern that
    // holds no run of three anywhere:
    //   row 0: 0 1 2 3
    //   row 1: 2 3 0 1
    //   row 2: 1 0 3 2
    //   row 3: 3 2 1 0
    // turn t must be played by seat t mod 4, so the cells are visited
    // label by label.
    let players = vec![
        PlayerType::Human,
        PlayerType::Human,
        PlayerType::Human,
        PlayerType::Human,
    ];
    let mut game = Game::new(4, 4, 3, players).unwrap();
    let script = [
        (0, 0), (1, 0), (2, 0), (3, 0), // seats 0,1,2,3
        (2, 1), (3, 1), (0, 1), (1, 1),
        (1, 2), (0, 2), (3, 2), (2, 2),
        (3, 3), (2, 3), (1, 3), (0, 3),
    ];
    for (x, y) in script {
        game.play_move(Point::new(x, y)).unwrap();
    }
    assert_eq!(16, occupied(&game));
    assert_eq!(GameState::Draw, game.get_gamestate());
}

#[test]
fn occupied_point_is_rejected_and_board_unchanged() {
    let mut game = Game::new(6, 6, 4, two_humans()).unwrap();
    game.play_move(Point::new(2, 3)).unwrap();
    let before = game.get_board();
    let err = game.play_move(Point::new(2, 3)).unwrap_err();
    assert_eq!(PlayMoveError::PointIsPopulated(0), err);
    assert_eq!(before, game.get_board());
}

#[test]
fn off_board_point_is_rejected_with_the_axis_error() {
    let mut game = Game::new(6, 6, 4, two_humans()).unwrap();
    let before = game.get_board();
    assert_eq!(
        game.play_move(Point::new(-1, 0)).unwrap_err(),
        PlayMoveError::InvalidPoint(InvalidPointError::XTooSmall)
    );
    assert_eq!(
        game.play_move(Point::new(6, 0)).unwrap_err(),
        PlayMoveError::InvalidPoint(InvalidPointError::XTooLarge)
    );
    assert_eq!(
        game.play_move(Point::new(0, -1)).unwrap_err(),
        PlayMoveError::InvalidPoint(InvalidPointError::YTooSmall)
    );
    assert_eq!(
        game.play_move(Point::new(0, 6)).unwrap_err(),
        PlayMoveError::InvalidPoint(InvalidPointError::YTooLarge)
    );
    assert_eq!(before, game.get_board());
}

#[test]
fn terminal_state_rejects_further_moves() {
    let mut game = Game::new(6, 6, 4, two_humans()).unwrap();
    let script = [(0, 0), (0, 2), (1, 0), (1, 2), (2, 0), (2, 2), (3, 0)];
    for (x, y) in script {
        game.play_move(Point::new(x, y)).unwrap();
    }
    let before = game.get_board();
    let err = game.play_move(Point::new(5, 5)).unwrap_err();
    assert_eq!(
        PlayMoveError::InvalidGameState(GameState::PlayerWon(0)),
        err
    );
    assert_eq!(before, game.get_board());
    // rejections are stable: a second attempt answers the same
    let err = game.play_move(Point::new(4, 4)).unwrap_err();
    assert_eq!(
        PlayMoveError::InvalidGameState(GameState::PlayerWon(0)),
        err
    );
}

#[test]
fn current_player_follows_occupancy() {
    let mut game = Game::new(6, 6, 4, two_humans()).unwrap();
    let script = [(0, 0), (1, 1), (2, 2), (3, 3)];
    for (i, (x, y)) in script.iter().enumerate() {
        assert_eq!(occupied(&game) % 2, game.get_current_player());
        assert_eq!(i % 2, game.get_current_player());
        game.play_move(Point::new(*x, *y)).unwrap();
    }
    assert_eq!(4 % 2, game.get_current_player());
}

#[test]
fn get_tile_reports_occupants_and_axis_errors() {
    let mut game = Game::new(6, 6, 4, two_humans()).unwrap();
    game.play_move(Point::new(4, 1)).unwrap();
    assert_eq!(Ok(Some(0)), game.get_tile(&Point::new(4, 1)));
    assert_eq!(Ok(None), game.get_tile(&Point::new(0, 0)));
    assert_eq!(Err(InvalidPointError::XTooSmall), game.get_tile(&Point::new(-3, 2)));
    assert_eq!(Err(InvalidPointError::XTooLarge), game.get_tile(&Point::new(9, 2)));
    assert_eq!(Err(InvalidPointError::YTooSmall), game.get_tile(&Point::new(2, -1)));
    assert_eq!(Err(InvalidPointError::YTooLarge), game.get_tile(&Point::new(2, 6)));
}

#[test]
fn clear_empties_the_board_and_keeps_dimensions() {
    let mut game = Game::new(5, 4, 3, two_humans()).unwrap();
    game.play_move(Point::new(1, 1)).unwrap();
    game.play_move(Point::new(2, 2)).unwrap();
    game.clear();
    assert_eq!(0, occupied(&game));
    assert_eq!(5, game.get_width());
    assert_eq!(4, game.get_height());
    assert_eq!(3, game.get_goal());
    assert_eq!(GameState::SeatToMove(0), game.get_gamestate());
}

#[test]
fn getters_report_the_configuration() {
    let game = Game::new(7, 5, 4, two_humans()).unwrap();
    assert_eq!(7, game.get_width());
    assert_eq!(5, game.get_height());
    assert_eq!(4, game.get_goal());
    assert_eq!(2, game.get_player_count());
}

#[test]
fn next_turn_cycles_through_the_seats() {
    assert_eq!(1, next_turn(0, 3));
    assert_eq!(2, next_turn(1, 3));
    assert_eq!(0, next_turn(2, 3));
    assert_eq!(1, next_turn(0, 2));
    assert_eq!(0, next_turn(1, 2));
}

#[test]
fn point_arithmetic_steps_along_directions() {
    let p = Point::new(2, 3);
    let d = Point::new(-1, 1);
    let q = p.translate(d.scale(2));
    assert_eq!(Point::new(0, 5), q);
    assert_eq!(Point::new(4, -2), Point::from((4, -2)));
}
