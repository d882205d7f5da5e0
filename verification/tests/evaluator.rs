use four_in_a_row::bot::{Bot, ComputerWeights, Difficulty, Strategy};
use four_in_a_row::game::{Game, GameTrait};
use four_in_a_row::model::PlayerType;
use four_in_a_row::point::Point;

fn two_humans() -> Vec<PlayerType> {
    vec![PlayerType::Human, PlayerType::Human]
}

fn occupied(game: &Game) -> usize {
    game.get_board()
        .iter()
        .map(|row| row.iter().filter(|t| t.is_some()).count())
        .sum()
}

#[test]
fn weights_follow_the_profile_table() {
    let easy = ComputerWeights::from(Bot(Difficulty::Easy, Strategy::Neutral));
    assert_eq!(1, easy.computer);
    assert_eq!(1, easy.opponent);
    assert_eq!(0, easy.empty);
    assert_eq!(0, easy.populated);
    assert_eq!(1, easy.streak_computer);
    assert_eq!(1, easy.streak_opponent);

    let insane = ComputerWeights::from(Bot(Difficulty::Insane, Strategy::Neutral));
    assert_eq!(1, insane.computer);
    assert_eq!(2, insane.opponent);
    assert_eq!(1, insane.empty);
    assert_eq!(3, insane.populated);
    assert_eq!(5, insane.streak_computer);
    assert_eq!(6, insane.streak_opponent);

    // an offensive strategy favours the own side over the opponents'
    let offensive = ComputerWeights::from(Bot(Difficulty::Normal, Strategy::Offensive));
    assert!(offensive.computer > offensive.opponent);
    let defensive = ComputerWeights::from(Bot(Difficulty::Normal, Strategy::Defensive));
    assert!(defensive.computer < defensive.opponent);
}

#[test]
fn corner_of_an_empty_board_scores_exactly() {
    // 6 x 6, goal 4, Normal/Neutral weights (overall 1, empty 1, populated 1,
    // streak base 2). From (0,0) three of the four lines reach three empty
    // cells (3 reachable empties x 2 seats each), the anti-diagonal none:
    // 6 + 0 + 6 + 6.
    let game = Game::new(6, 6, 4, two_humans()).unwrap();
    let weights = ComputerWeights::from(Bot(Difficulty::Normal, Strategy::Neutral));
    assert_eq!(18, game.evaluate_location(Point::new(0, 0), 0, &weights));
}

#[test]
fn streak_raises_the_score_exponentially() {
    // seat 0 holds (0,0); evaluating (1,0) for seat 0: the horizontal line
    // sees 3 empties to the right plus a streak of 1 to the left
    // (1*3 + 1*1*2^1 = 5 for seat 0, 3 for seat 1), the vertical and
    // diagonal lines 3 empties each (6), the anti-diagonal only one
    // reachable cell (0). Total 8 + 6 + 6 = 20.
    let mut game = Game::new(6, 6, 4, two_humans()).unwrap();
    game.play_move(Point::new(0, 0)).unwrap();
    game.play_move(Point::new(5, 5)).unwrap();
    let weights = ComputerWeights::from(Bot(Difficulty::Normal, Strategy::Neutral));
    assert_eq!(20, game.evaluate_location(Point::new(1, 0), 0, &weights));
}

#[test]
fn chosen_move_has_the_maximum_score() {
    let mut game = Game::new(6, 6, 4, two_humans()).unwrap();
    let script = [(2, 2), (0, 0), (3, 2), (0, 1)];
    for (x, y) in script {
        game.play_move(Point::new(x, y)).unwrap();
    }
    let bot = Bot(Difficulty::Hard, Strategy::Neutral);
    let weights = ComputerWeights::from(bot);
    let computer = game.get_current_player();
    let chosen = game.get_computer_move(bot).unwrap();
    let chosen_score = game.evaluate_location(chosen, computer, &weights);
    let board = game.get_board();
    for (y, row) in board.iter().enumerate() {
        for (x, tile) in row.iter().enumerate() {
            if tile.is_none() {
                let p = Point::new(x as isize, y as isize);
                assert!(game.evaluate_location(p, computer, &weights) <= chosen_score);
            }
        }
    }
}

#[test]
fn single_empty_cell_is_the_forced_choice() {
    // fill the draw pattern except its last cell: the evaluator must pick
    // the one empty cell that is left
    let players = vec![
        PlayerType::Human,
        PlayerType::Human,
        PlayerType::Human,
        PlayerType::Human,
    ];
    let mut game = Game::new(4, 4, 3, players).unwrap();
    let script = [
        (0, 0), (1, 0), (2, 0), (3, 0),
        (2, 1), (3, 1), (0, 1), (1, 1),
        (1, 2), (0, 2), (3, 2), (2, 2),
        (3, 3), (2, 3), (1, 3),
    ];
    for (x, y) in script {
        game.play_move(Point::new(x, y)).unwrap();
    }
    let chosen = game.get_computer_move(Bot::default()).unwrap();
    assert_eq!(Point::new(0, 3), chosen);
}

#[test]
fn full_board_yields_no_computer_move() {
    let players = vec![
        PlayerType::Human,
        PlayerType::Human,
        PlayerType::Human,
        PlayerType::Human,
    ];
    let mut game = Game::new(4, 4, 3, players).unwrap();
    let script = [
        (0, 0), (1, 0), (2, 0), (3, 0),
        (2, 1), (3, 1), (0, 1), (1, 1),
        (1, 2), (0, 2), (3, 2), (2, 2),
        (3, 3), (2, 3), (1, 3), (0, 3),
    ];
    for (x, y) in script {
        game.play_move(Point::new(x, y)).unwrap();
    }
    assert_eq!(None, game.get_computer_move(Bot::default()));
}

#[test]
fn computer_seat_is_auto_resolved_in_one_call() {
    // seat 0 human, seat 1 computer: one play_move call leaves exactly two
    // new stones on the board
    let players = vec![
        PlayerType::Human,
        PlayerType::Computer(Bot(Difficulty::Normal, Strategy::Neutral)),
    ];
    let mut game = Game::new(6, 6, 4, players).unwrap();
    assert_eq!(0, occupied(&game));
    game.play_move(Point::new(2, 2)).unwrap();
    assert_eq!(2, occupied(&game));
    assert_eq!(Some(0), game.get_board()[2][2]);
    // and it is the human's turn again
    assert_eq!(0, game.get_current_player());
    let board = game.get_board();
    let (x, y) = board
        .iter()
        .enumerate()
        .flat_map(|(y, row)| row.iter().enumerate().map(move |(x, t)| (x, y, *t)))
        .find(|(_, _, t)| t.is_none())
        .map(|(x, y, _)| (x, y))
        .unwrap();
    game.play_move(Point::new(x as isize, y as isize)).unwrap();
    assert_eq!(4, occupied(&game));
}

#[test]
fn bot_exposes_its_difficulty_and_strategy() {
    let bot = Bot(Difficulty::Hard, Strategy::Defensive);
    assert_eq!(Difficulty::Hard, bot.get_difficulty());
    assert_eq!(Strategy::Defensive, bot.get_strategy());
    assert_eq!(Bot(Difficulty::Normal, Strategy::Neutral), Bot::default());
}

#[test]
fn all_lists_every_parameter() {
    assert_eq!(
        vec![
            Difficulty::Easy,
            Difficulty::Normal,
            Difficulty::Hard,
            Difficulty::Insane
        ],
        Difficulty::all()
    );
    assert_eq!(
        vec![Strategy::Neutral, Strategy::Offensive, Strategy::Defensive],
        Strategy::all()
    );
    assert_eq!(Difficulty::Normal, Difficulty::default());
    assert_eq!(Strategy::Neutral, Strategy::default());
}
