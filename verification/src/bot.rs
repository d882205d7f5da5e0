//! Computer-seat configuration: a difficulty level crossed with a strategy
//! bias, and the fixed table that turns each combination into the six
//! heuristic weights the evaluator consumes.

use vstd::prelude::*;

verus! {

/// How strongly the evaluator reacts to existing runs.
#[derive(Clone, Copy, PartialEq, Eq, Structural, Debug, Hash)]
pub enum Difficulty {
    Easy,
    Normal,
    Hard,
    Insane,
}

impl Difficulty {
    /// Every difficulty level, in ascending order of strength.
    pub fn all() -> (v: Vec<Difficulty>)
        ensures
            v@ =~= seq![Difficulty::Easy, Difficulty::Normal, Difficulty::Hard, Difficulty::Insane],
    {
        let mut v: Vec<Difficulty> = Vec::new();
        v.push(Difficulty::Easy);
        v.push(Difficulty::Normal);
        v.push(Difficulty::Hard);
        v.push(Difficulty::Insane);
        v
    }
}

impl Default for Difficulty {
    fn default() -> (d: Difficulty)
        ensures
            d == Difficulty::Normal,
    {
        Difficulty::Normal
    }
}

/// Whether the evaluator favours extending its own runs, blocking the
/// opponents', or neither.
#[derive(Clone, Copy, PartialEq, Eq, Structural, Debug, Hash)]
pub enum Strategy {
    Neutral,
    Offensive,
    Defensive,
}

impl Strategy {
    /// Every strategy bias.
    pub fn all() -> (v: Vec<Strategy>)
        ensures
            v@ =~= seq![Strategy::Neutral, Strategy::Offensive, Strategy::Defensive],
    {
        let mut v: Vec<Strategy> = Vec::new();
        v.push(Strategy::Neutral);
        v.push(Strategy::Offensive);
        v.push(Strategy::Defensive);
        v
    }
}

impl Default for Strategy {
    fn default() -> (s: Strategy)
        ensures
            s == Strategy::Neutral,
    {
        Strategy::Neutral
    }
}

/// The AI parameter of one computer-controlled seat.
#[derive(Clone, Copy, PartialEq, Eq, Structural, Debug, Hash)]
pub struct Bot(pub Difficulty, pub Strategy);

impl Bot {
    pub fn get_difficulty(&self) -> (d: Difficulty)
        ensures
            d == self.0,
    {
        self.0
    }

    pub fn get_strategy(&self) -> (s: Strategy)
        ensures
            s == self.1,
    {
        self.1
    }
}

impl Default for Bot {
    fn default() -> (b: Bot)
        ensures
            b == (Bot(Difficulty::Normal, Strategy::Neutral)),
    {
        Bot(Difficulty::Normal, Strategy::Neutral)
    }
}

/// The six non-negative coefficients the evaluator works with, derived
/// deterministically from a seat's `Bot` parameter.
#[derive(Clone, Copy, PartialEq, Eq, Structural, Debug)]
pub struct ComputerWeights {
    /// Overall weight of lines the computer itself could complete.
    pub computer: u64,
    /// Overall weight of lines an opponent could complete.
    pub opponent: u64,
    /// Reward per reachable empty cell along a line.
    pub empty: u64,
    /// Reward per occupied cell of a contiguous run along a line.
    pub populated: u64,
    /// Exponent base applied to the computer's own run lengths.
    pub streak_computer: u64,
    /// Exponent base applied to opponents' run lengths.
    pub streak_opponent: u64,
}

/// The fixed weight-profile table: higher difficulties raise `populated` and
/// the streak bases, an offensive strategy raises `computer` relative to
/// `opponent`, a defensive one does the inverse.
pub open spec fn weights_of(bot: Bot) -> ComputerWeights {
    match bot {
        Bot(Difficulty::Easy, Strategy::Neutral) => ComputerWeights {
            computer: 1, opponent: 1, empty: 0, populated: 0,
            streak_computer: 1, streak_opponent: 1,
        },
        Bot(Difficulty::Easy, Strategy::Defensive) => ComputerWeights {
            computer: 1, opponent: 1, empty: 0, populated: 1,
            streak_computer: 1, streak_opponent: 1,
        },
        Bot(Difficulty::Easy, Strategy::Offensive) => ComputerWeights {
            computer: 1, opponent: 1, empty: 1, populated: 0,
            streak_computer: 1, streak_opponent: 1,
        },
        Bot(Difficulty::Normal, Strategy::Neutral) => ComputerWeights {
            computer: 1, opponent: 1, empty: 1, populated: 1,
            streak_computer: 2, streak_opponent: 2,
        },
        Bot(Difficulty::Normal, Strategy::Defensive) => ComputerWeights {
            computer: 4, opponent: 5, empty: 1, populated: 1,
            streak_computer: 2, streak_opponent: 1,
        },
        Bot(Difficulty::Normal, Strategy::Offensive) => ComputerWeights {
            computer: 5, opponent: 4, empty: 1, populated: 1,
            streak_computer: 1, streak_opponent: 2,
        },
        Bot(Difficulty::Hard, Strategy::Neutral) => ComputerWeights {
            computer: 4, opponent: 5, empty: 1, populated: 2,
            streak_computer: 2, streak_opponent: 2,
        },
        Bot(Difficulty::Hard, Strategy::Defensive) => ComputerWeights {
            computer: 2, opponent: 3, empty: 1, populated: 2,
            streak_computer: 2, streak_opponent: 2,
        },
        Bot(Difficulty::Hard, Strategy::Offensive) => ComputerWeights {
            computer: 3, opponent: 2, empty: 1, populated: 2,
            streak_computer: 2, streak_opponent: 2,
        },
        Bot(Difficulty::Insane, Strategy::Neutral) => ComputerWeights {
            computer: 1, opponent: 2, empty: 1, populated: 3,
            streak_computer: 5, streak_opponent: 6,
        },
        Bot(Difficulty::Insane, Strategy::Defensive) => ComputerWeights {
            computer: 1, opponent: 4, empty: 1, populated: 3,
            streak_computer: 2, streak_opponent: 4,
        },
        Bot(Difficulty::Insane, Strategy::Offensive) => ComputerWeights {
            computer: 3, opponent: 2, empty: 1, populated: 3,
            streak_computer: 4, streak_opponent: 3,
        },
    }
}

impl From<Bot> for ComputerWeights {
    fn from(bot: Bot) -> (w: ComputerWeights) {
        match bot {
            Bot(Difficulty::Easy, Strategy::Neutral) => ComputerWeights {
                computer: 1, opponent: 1, empty: 0, populated: 0,
                streak_computer: 1, streak_opponent: 1,
            },
            Bot(Difficulty::Easy, Strategy::Defensive) => ComputerWeights {
                computer: 1, opponent: 1, empty: 0, populated: 1,
                streak_computer: 1, streak_opponent: 1,
            },
            Bot(Difficulty::Easy, Strategy::Offensive) => ComputerWeights {
                computer: 1, opponent: 1, empty: 1, populated: 0,
                streak_computer: 1, streak_opponent: 1,
            },
            Bot(Difficulty::Normal, Strategy::Neutral) => ComputerWeights {
                computer: 1, opponent: 1, empty: 1, populated: 1,
                streak_computer: 2, streak_opponent: 2,
            },
            Bot(Difficulty::Normal, Strategy::Defensive) => ComputerWeights {
                computer: 4, opponent: 5, empty: 1, populated: 1,
                streak_computer: 2, streak_opponent: 1,
            },
            Bot(Difficulty::Normal, Strategy::Offensive) => ComputerWeights {
                computer: 5, opponent: 4, empty: 1, populated: 1,
                streak_computer: 1, streak_opponent: 2,
            },
            Bot(Difficulty::Hard, Strategy::Neutral) => ComputerWeights {
                computer: 4, opponent: 5, empty: 1, populated: 2,
                streak_computer: 2, streak_opponent: 2,
            },
            Bot(Difficulty::Hard, Strategy::Defensive) => ComputerWeights {
                computer: 2, opponent: 3, empty: 1, populated: 2,
                streak_computer: 2, streak_opponent: 2,
            },
            Bot(Difficulty::Hard, Strategy::Offensive) => ComputerWeights {
                computer: 3, opponent: 2, empty: 1, populated: 2,
                streak_computer: 2, streak_opponent: 2,
            },
            Bot(Difficulty::Insane, Strategy::Neutral) => ComputerWeights {
                computer: 1, opponent: 2, empty: 1, populated: 3,
                streak_computer: 5, streak_opponent: 6,
            },
            Bot(Difficulty::Insane, Strategy::Defensive) => ComputerWeights {
                computer: 1, opponent: 4, empty: 1, populated: 3,
                streak_computer: 2, streak_opponent: 4,
            },
            Bot(Difficulty::Insane, Strategy::Offensive) => ComputerWeights {
                computer: 3, opponent: 2, empty: 1, populated: 3,
                streak_computer: 4, streak_opponent: 3,
            },
        }
    }
}

impl vstd::std_specs::convert::FromSpecImpl<Bot> for ComputerWeights {
    open spec fn obeys_from_spec() -> bool {
        true
    }

    open spec fn from_spec(bot: Bot) -> ComputerWeights {
        weights_of(bot)
    }
}

} // verus!
