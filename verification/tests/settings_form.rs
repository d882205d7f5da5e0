use four_in_a_row::bot::{Bot, Difficulty, Strategy};
use four_in_a_row::game::{GameTrait, GameMessage};
use four_in_a_row::model::{GameState, PlayerType};
use four_in_a_row::point::Point;
use four_in_a_row::settings::{GameSettings, SettingsMessage};

#[test]
fn default_settings_match_the_first_form() {
    let s = GameSettings::default();
    assert_eq!(6, s.width);
    assert_eq!(6, s.height);
    assert_eq!(4, s.goal);
    assert_eq!(
        vec![
            PlayerType::Human,
            PlayerType::Computer(Bot(Difficulty::Normal, Strategy::Neutral))
        ],
        s.players
    );
}

#[test]
fn set_messages_replace_one_field() {
    let mut s = GameSettings::default();
    s.handle_message(SettingsMessage::SetWidth(9));
    assert_eq!(9, s.width);
    assert_eq!(6, s.height);
    s.handle_message(SettingsMessage::SetHeight(8));
    assert_eq!(8, s.height);
    s.handle_message(SettingsMessage::SetGoal(5));
    assert_eq!(5, s.goal);
    assert_eq!(9, s.width);
}

#[test]
fn parse_messages_accept_numbers_and_ignore_junk() {
    let mut s = GameSettings::default();
    s.handle_message(SettingsMessage::ParseWidth(String::from("12")));
    assert_eq!(12, s.width);
    s.handle_message(SettingsMessage::ParseWidth(String::from("oops")));
    assert_eq!(12, s.width);
    s.handle_message(SettingsMessage::ParseHeight(String::from("7")));
    assert_eq!(7, s.height);
    s.handle_message(SettingsMessage::ParseGoal(String::from("-3")));
    assert_eq!(-3, s.goal);
    s.handle_message(SettingsMessage::ParseGoal(String::from("")));
    assert_eq!(-3, s.goal);
}

#[test]
fn player_list_edits() {
    let mut s = GameSettings::default();
    s.handle_message(SettingsMessage::AddPlayer);
    assert_eq!(3, s.players.len());
    assert_eq!(PlayerType::Human, s.players[2]);
    s.handle_message(SettingsMessage::SetPlayerType(
        2,
        PlayerType::Computer(Bot(Difficulty::Insane, Strategy::Offensive)),
    ));
    assert_eq!(
        PlayerType::Computer(Bot(Difficulty::Insane, Strategy::Offensive)),
        s.players[2]
    );
    s.handle_message(SettingsMessage::RemovePlayer(0));
    assert_eq!(2, s.players.len());
    assert_eq!(
        PlayerType::Computer(Bot(Difficulty::Normal, Strategy::Neutral)),
        s.players[0]
    );
}

#[test]
fn settings_build_the_described_game() {
    let mut s = GameSettings::default();
    s.handle_message(SettingsMessage::SetWidth(8));
    s.handle_message(SettingsMessage::SetHeight(7));
    s.handle_message(SettingsMessage::SetGoal(5));
    s.handle_message(SettingsMessage::SetPlayerType(1, PlayerType::Human));
    let game = s.to_game();
    assert_eq!(8, game.get_width());
    assert_eq!(7, game.get_height());
    assert_eq!(5, game.get_goal());
    assert_eq!(2, game.get_player_count());
    assert_eq!(GameState::SeatToMove(0), game.get_gamestate());
}

#[test]
fn game_messages_play_the_requested_move() {
    let mut s = GameSettings::default();
    s.handle_message(SettingsMessage::SetPlayerType(1, PlayerType::Human));
    let mut game = s.to_game();
    game.handle_message(GameMessage::PlayMove(Point::new(1, 1)));
    assert_eq!(Some(0), game.get_board()[1][1]);
    // a rejected move is swallowed and changes nothing
    let before = game.get_board();
    game.handle_message(GameMessage::PlayMove(Point::new(1, 1)));
    assert_eq!(before, game.get_board());
}
