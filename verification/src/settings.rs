//! The game-settings form data: the values a front end collects before play
//! starts, the messages that edit them, and the step into a validated game.

use vstd::prelude::*;
use crate::game::{Game, GameTrait, new_game_error};
use crate::model::{GameState, PlayerType, occupied_count, state_matches};
use crate::bot::Bot;

verus! {

/// A name for what `str::parse::<isize>` returns on a given string; the
/// parse depends on the characters alone.
pub uninterp spec fn parsed_isize(s: Seq<char>) -> Option<isize>;

/// Relies on str::parse::<isize>: a pure function of the string.
#[verifier::external_body]
fn parse_isize(s: &String) -> (r: Option<isize>)
    ensures
        r == parsed_isize(s@),
{
    s.as_str().parse().ok()
}

/// An edit of the settings form.
#[derive(Clone, Debug)]
pub enum SettingsMessage {
    SetWidth(isize),
    ParseWidth(String),
    SetHeight(isize),
    ParseHeight(String),
    SetGoal(isize),
    ParseGoal(String),
    RemovePlayer(usize),
    AddPlayer,
    SetPlayerType(usize, PlayerType),
}

/// The configuration a game is built from: dimensions, win length and the
/// ordered seats.
#[derive(Clone, Debug)]
pub struct GameSettings {
    pub width: isize,
    pub height: isize,
    pub goal: isize,
    pub players: Vec<PlayerType>,
}

/// Exactly how each message edits the form: one field changes, the rest
/// stay; a parse that fails leaves its field alone.
pub open spec fn settings_post(s0: GameSettings, s1: GameSettings, message: SettingsMessage) -> bool {
    match message {
        SettingsMessage::SetWidth(w) => s1.width == w && s1.height == s0.height && s1.goal
            == s0.goal && s1.players@ == s0.players@,
        SettingsMessage::ParseWidth(v) => {
            let w = match parsed_isize(v@) {
                Some(w) => w,
                None => s0.width,
            };
            s1.width == w && s1.height == s0.height && s1.goal == s0.goal && s1.players@
                == s0.players@
        },
        SettingsMessage::SetHeight(h) => s1.height == h && s1.width == s0.width && s1.goal
            == s0.goal && s1.players@ == s0.players@,
        SettingsMessage::ParseHeight(v) => {
            let h = match parsed_isize(v@) {
                Some(h) => h,
                None => s0.height,
            };
            s1.height == h && s1.width == s0.width && s1.goal == s0.goal && s1.players@
                == s0.players@
        },
        SettingsMessage::SetGoal(g) => s1.goal == g && s1.width == s0.width && s1.height
            == s0.height && s1.players@ == s0.players@,
        SettingsMessage::ParseGoal(v) => {
            let g = match parsed_isize(v@) {
                Some(g) => g,
                None => s0.goal,
            };
            s1.goal == g && s1.width == s0.width && s1.height == s0.height && s1.players@
                == s0.players@
        },
        SettingsMessage::RemovePlayer(i) => s1.players@ == s0.players@.remove(i as int) && s1.width
            == s0.width && s1.height == s0.height && s1.goal == s0.goal,
        SettingsMessage::AddPlayer => s1.players@ == s0.players@.push(PlayerType::Human) && s1.width
            == s0.width && s1.height == s0.height && s1.goal == s0.goal,
        SettingsMessage::SetPlayerType(i, t) => s1.players@ == s0.players@.update(i as int, t)
            && s1.width == s0.width && s1.height == s0.height && s1.goal == s0.goal,
    }
}

impl Default for GameSettings {
    /// The form as first shown: a 6 x 6 board, four in a row, one human
    /// against one computer of the default parameters.
    fn default() -> (s: GameSettings)
        ensures
            s.width == 6,
            s.height == 6,
            s.goal == 4,
            s.players@ =~= seq![
                PlayerType::Human,
                PlayerType::Computer(Bot(crate::bot::Difficulty::Normal, crate::bot::Strategy::Neutral)),
            ],
    {
        let mut players: Vec<PlayerType> = Vec::new();
        players.push(PlayerType::Human);
        players.push(PlayerType::Computer(Bot::default()));
        GameSettings { width: 6, height: 6, goal: 4, players }
    }
}

impl GameSettings {
    /// Builds the game these settings describe; callers validate first, as
    /// the constructor's checks demand.
    pub fn to_game(&self) -> (g: Game)
        requires
            new_game_error(
                self.width as int,
                self.height as int,
                self.goal as int,
                self.players@.len() as int,
            ) is None,
            self.width * self.height <= isize::MAX,
        ensures
            g.wf(),
            g.model().width == self.width,
            g.model().height == self.height,
            g.model().goal == self.goal,
            g.model().players == self.players@,
            occupied_count(g.model()) == 0,
            state_matches(g.model(), GameState::SeatToMove(0)),
    {
        let players = self.clone_players();
        match Game::new(self.width, self.height, self.goal, players) {
            Ok(g) => g,
            Err(_) => vstd::pervasive::unreached(),
        }
    }

    fn clone_players(&self) -> (r: Vec<PlayerType>)
        ensures
            r@ == self.players@,
    {
        let mut r: Vec<PlayerType> = Vec::new();
        let mut i: usize = 0;
        while i < self.players.len()
            invariant
                0 <= i <= self.players@.len(),
                r@ == self.players@.take(i as int),
            decreases self.players@.len() - i,
        {
            r.push(self.players[i]);
            proof {
                assert(r@ =~= self.players@.take(i + 1));
            }
            i = i + 1;
        }
        proof {
            assert(self.players@.take(self.players@.len() as int) =~= self.players@);
        }
        r
    }

    /// Applies one edit to the form.
    pub fn handle_message(&mut self, message: SettingsMessage)
        requires
            message matches SettingsMessage::RemovePlayer(i) ==> i < old(self).players@.len(),
            message matches SettingsMessage::SetPlayerType(i, _) ==> i < old(
                self,
            ).players@.len(),
        ensures
            settings_post(*old(self), *final(self), message),
    {
        match message {
            SettingsMessage::SetWidth(width) => {
                self.width = width;
            },
            SettingsMessage::SetHeight(height) => {
                self.height = height;
            },
            SettingsMessage::SetGoal(goal) => {
                self.goal = goal;
            },
            SettingsMessage::RemovePlayer(index) => {
                self.players.remove(index);
            },
            SettingsMessage::AddPlayer => {
                self.players.push(PlayerType::Human);
            },
            SettingsMessage::SetPlayerType(index, player_type) => {
                self.players.set(index, player_type);
            },
            SettingsMessage::ParseWidth(value) => {
                if let Some(width) = parse_isize(&value) {
                    self.width = width;
                }
            },
            SettingsMessage::ParseHeight(value) => {
                if let Some(height) = parse_isize(&value) {
                    self.height = height;
                }
            },
            SettingsMessage::ParseGoal(value) => {
                if let Some(goal) = parse_isize(&value) {
                    self.goal = goal;
                }
            },
        }
    }
}

} // verus!
