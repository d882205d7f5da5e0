//! The game-state engine: a validating constructor, board reading, move
//! legality, win/draw detection, and the move operation that auto-resolves
//! consecutive computer seats.

use vstd::prelude::*;
use crate::computer::{ai_reaches, chain_step, current_seat, resolved, trace_ok,
    lemma_reaches_props, lemma_trace_push};
use crate::model::{
    GameModel, GameState, Player, PlayerType, any_winner, board_full, cell, current_player,
    dir_dx, dir_dy, extends, has_run, in_bounds, is_winner, occupied_count, place,
    rows_occupied, row_occupied, run_cell_ok, same_config, state_matches, step_x, step_y,
    terminal, wf_model,
    lemma_extends_trans, lemma_no_run_at, lemma_occupied_le_total, lemma_occupied_lt_total,
    lemma_occupied_place, lemma_place_props, lemma_row_occupied_take_step,
    lemma_rows_occupied_take_step,
};
use crate::point::Point;

verus! {

/// Why a game could not be created; the first violated check, in the order
/// they are made.
#[derive(Clone, Copy, PartialEq, Eq, Structural, Debug)]
pub enum NewGameError {
    PlayersMustBeAtLeast2,
    WidthMustBeAtLeast2,
    HeightMustBeAtLeast2,
    GoalMustBeLessThanHeight,
    GoalMustBeLessThanWidth,
}

/// Which bound a coordinate violated, per axis and direction.
#[derive(Clone, Copy, PartialEq, Eq, Structural, Debug)]
pub enum InvalidPointError {
    XTooSmall,
    XTooLarge,
    YTooSmall,
    YTooLarge,
}

/// Why a move was rejected; every rejection leaves the board unchanged.
#[derive(Clone, Copy, PartialEq, Eq, Structural, Debug)]
pub enum PlayMoveError {
    InvalidPoint(InvalidPointError),
    PointIsPopulated(Player),
    InvalidGameState(GameState),
}

impl From<InvalidPointError> for PlayMoveError {
    fn from(value: InvalidPointError) -> (e: PlayMoveError) {
        PlayMoveError::InvalidPoint(value)
    }
}

impl vstd::std_specs::convert::FromSpecImpl<InvalidPointError> for PlayMoveError {
    open spec fn obeys_from_spec() -> bool {
        true
    }

    open spec fn from_spec(value: InvalidPointError) -> PlayMoveError {
        PlayMoveError::InvalidPoint(value)
    }
}

/// The constructor's validation, in order; `None` means the arguments pass.
pub open spec fn new_game_error(width: int, height: int, goal: int, seats: int) -> Option<
    NewGameError,
> {
    if seats < 2 {
        Some(NewGameError::PlayersMustBeAtLeast2)
    } else if width < 2 {
        Some(NewGameError::WidthMustBeAtLeast2)
    } else if height < 2 {
        Some(NewGameError::HeightMustBeAtLeast2)
    } else if goal >= height {
        Some(NewGameError::GoalMustBeLessThanHeight)
    } else if goal >= width {
        Some(NewGameError::GoalMustBeLessThanWidth)
    } else {
        None
    }
}

/// The bound check `get_tile` answers for an off-board point: x is tested
/// before y, the lower bound before the upper.
pub open spec fn point_error(m: GameModel, x: int, y: int) -> InvalidPointError
    recommends
        !in_bounds(m, x, y),
{
    if x < 0 {
        InvalidPointError::XTooSmall
    } else if x >= m.width {
        InvalidPointError::XTooLarge
    } else if y < 0 {
        InvalidPointError::YTooSmall
    } else {
        InvalidPointError::YTooLarge
    }
}

/// What `get_tile` returns: the occupant for an on-board point, the specific
/// axis error otherwise.
pub open spec fn get_tile_post(m: GameModel, pt: Point, r: Result<
    Option<Player>,
    InvalidPointError,
>) -> bool {
    match r {
        Ok(t) => in_bounds(m, pt.x as int, pt.y as int) && t == cell(m, pt.x as int, pt.y as int),
        Err(e) => !in_bounds(m, pt.x as int, pt.y as int) && e == point_error(
            m,
            pt.x as int,
            pt.y as int,
        ),
    }
}

/// What `play_move` promises. A move is rejected, with the board left
/// unchanged, when the game is over, the point is off the board, or the
/// point is occupied -- in that order of checks, each error exact. A
/// legal move places the current seat's stone and then auto-resolves
/// consecutive computer seats until a human is to move or the game ends.
pub open spec fn play_move_post(
    m0: GameModel,
    m1: GameModel,
    pt: Point,
    r: Result<(), PlayMoveError>,
) -> bool {
    let px = pt.x as int;
    let py = pt.y as int;
    &&& (match r {
        Err(PlayMoveError::InvalidGameState(s)) => {
            &&& terminal(m0)
            &&& state_matches(m0, s)
            &&& !(s is SeatToMove)
            &&& m1 == m0
        },
        Err(PlayMoveError::InvalidPoint(e)) => {
            &&& !terminal(m0)
            &&& !in_bounds(m0, px, py)
            &&& e == point_error(m0, px, py)
            &&& m1 == m0
        },
        Err(PlayMoveError::PointIsPopulated(q)) => {
            &&& !terminal(m0)
            &&& in_bounds(m0, px, py)
            &&& cell(m0, px, py) == Some(q)
            &&& m1 == m0
        },
        Ok(_) => {
            &&& !terminal(m0)
            &&& in_bounds(m0, px, py)
            &&& cell(m0, px, py) is None
            &&& ai_reaches(place(m0, px, py, current_seat(m0)), m1)
            &&& resolved(m1)
            &&& extends(m0, m1)
            &&& same_config(m0, m1)
            &&& cell(m1, px, py) == Some(current_seat(m0))
        },
    })
    &&& (terminal(m0) ==> r matches Err(PlayMoveError::InvalidGameState(_)))
    &&& (!terminal(m0) && !in_bounds(m0, px, py) ==> r matches Err(
        PlayMoveError::InvalidPoint(_),
    ))
    &&& (!terminal(m0) && in_bounds(m0, px, py) && cell(m0, px, py) is Some ==> r matches Err(
        PlayMoveError::PointIsPopulated(_),
    ))
    &&& (!terminal(m0) && in_bounds(m0, px, py) && cell(m0, px, py) is None ==> r is Ok)
}


/// A rejected move never mutates the board: every error leaves the game
/// exactly as it was.
pub proof fn lemma_rejection_keeps_board(
    m0: GameModel,
    m1: GameModel,
    pt: Point,
    r: Result<(), PlayMoveError>,
)
    requires
        play_move_post(m0, m1, pt, r),
        r is Err,
    ensures
        m1 == m0,
{
}

/// The terminal states are absorbing: once a game is won or drawn, every
/// further move is answered with the game's state and the board kept.
pub proof fn lemma_terminal_is_absorbing(
    m0: GameModel,
    m1: GameModel,
    pt: Point,
    r: Result<(), PlayMoveError>,
)
    requires
        play_move_post(m0, m1, pt, r),
        terminal(m0),
    ensures
        m1 == m0,
        r matches Err(PlayMoveError::InvalidGameState(s)) && state_matches(m0, s) && !(s
            is SeatToMove),
{
}

/// The engine's surface as the front end consumes it, each operation stated
/// over the implementation's abstract model.
pub trait GameTrait: Sized {
    /// The abstract game value the contracts speak about.
    spec fn model(&self) -> GameModel;

    /// The implementation's invariant.
    spec fn wf(&self) -> bool;

    /// Empties the board; dimensions, goal and seats stay.
    fn clear(&mut self)
        requires
            old(self).wf(),
        ensures
            final(self).wf(),
            same_config(old(self).model(), final(self).model()),
            forall|x: int, y: int|
                in_bounds(final(self).model(), x, y) ==> #[trigger] cell(
                    final(self).model(),
                    x,
                    y,
                ) is None,
            occupied_count(final(self).model()) == 0,
    ;

    /// Bounds-checks `point` against the board, each axis independently, and
    /// returns the occupant (if any) of an on-board point.
    fn get_tile(&self, point: &Point) -> (r: Result<Option<Player>, InvalidPointError>)
        requires
            self.wf(),
        ensures
            get_tile_post(self.model(), *point, r),
    ;

    /// A row-major snapshot of the board for rendering: `height` rows of
    /// `width` cells.
    fn get_board(&self) -> (b: Vec<Vec<Option<Player>>>)
        requires
            self.wf(),
        ensures
            b@.len() == self.model().height,
            forall|y: int|
                0 <= y < self.model().height ==> (#[trigger] b@[y])@ == self.model().cells[y],
    ;

    /// Applies the current seat's move to `point` and, as a side effect,
    /// auto-resolves every immediately following computer seat. Any rejection
    /// leaves the board unchanged.
    fn play_move(&mut self, point: Point) -> (r: Result<(), PlayMoveError>)
        requires
            old(self).wf(),
        ensures
            final(self).wf(),
            play_move_post(old(self).model(), final(self).model(), point, r),
    ;

    /// Scans the whole board and derives its status: a completed run's owner,
    /// a draw on a full board, or the seat to move.
    fn get_gamestate(&self) -> (r: GameState)
        requires
            self.wf(),
        ensures
            state_matches(self.model(), r),
    ;

    /// The seat to move: `occupied_cell_count mod player_count`. Turn order
    /// is derived, never stored, so a rejected move cannot drift it.
    fn get_current_player(&self) -> (p: Player)
        requires
            self.wf(),
        ensures
            p as int == current_player(self.model()),
            p < self.model().players.len(),
    ;

    fn get_width(&self) -> (w: isize)
        requires
            self.wf(),
        ensures
            w as int == self.model().width,
    ;

    fn get_height(&self) -> (h: isize)
        requires
            self.wf(),
        ensures
            h as int == self.model().height,
    ;

    fn get_goal(&self) -> (g: isize)
        requires
            self.wf(),
        ensures
            g as int == self.model().goal,
    ;

    fn get_player_count(&self) -> (n: usize)
        requires
            self.wf(),
        ensures
            n as int == self.model().players.len(),
    ;
}

/// A game: the board, its immutable dimensions and win length, and the
/// ordered seat configuration.
#[derive(Debug)]
pub struct Game {
    board: Vec<Vec<Option<Player>>>,
    width: isize,
    height: isize,
    goal: isize,
    players: Vec<PlayerType>,
}

impl Game {
    /// Builds a game after the ordered validation of §construction: at least
    /// two seats, both dimensions at least 2, and a goal shorter than either
    /// dimension. On success the board is empty and seat 0 moves first.
    pub fn new(width: isize, height: isize, goal: isize, players: Vec<PlayerType>) -> (r: Result<
        Game,
        NewGameError,
    >)
        requires
            new_game_error(width as int, height as int, goal as int, players@.len() as int)
                is None ==> width * height <= isize::MAX,
        ensures
            match r {
                Ok(g) => {
                    &&& new_game_error(
                        width as int,
                        height as int,
                        goal as int,
                        players@.len() as int,
                    ) is None
                    &&& g.wf()
                    &&& g.model().width == width
                    &&& g.model().height == height
                    &&& g.model().goal == goal
                    &&& g.model().players == players@
                    &&& forall|x: int, y: int|
                        in_bounds(g.model(), x, y) ==> #[trigger] cell(g.model(), x, y) is None
                    &&& occupied_count(g.model()) == 0
                    &&& state_matches(g.model(), GameState::SeatToMove(0))
                },
                Err(e) => Some(e) == new_game_error(
                    width as int,
                    height as int,
                    goal as int,
                    players@.len() as int,
                ),
            },
    {
        if players.len() < 2 {
            return Err(NewGameError::PlayersMustBeAtLeast2);
        }
        if width < 2 {
            return Err(NewGameError::WidthMustBeAtLeast2);
        }
        if height < 2 {
            return Err(NewGameError::HeightMustBeAtLeast2);
        }
        if goal >= height {
            return Err(NewGameError::GoalMustBeLessThanHeight);
        }
        if goal >= width {
            return Err(NewGameError::GoalMustBeLessThanWidth);
        }
        let board = Self::empty_board(width, height);
        let g = Game { board, width, height, goal, players };
        proof {
            assert(g.model().cells =~= board@.map_values(|row: Vec<Option<Player>>| row@));
            crate::model::lemma_row_occupied_all_none(Seq::new(width as nat, |x: int| None::<Player>));
            lemma_rows_occupied_all_empty(g.model().cells, width as int);
            crate::model::lemma_empty_board_state(g.model());
        }
        Ok(g)
    }

    /// A `height` x `width` grid of empty cells.
    fn empty_board(width: isize, height: isize) -> (board: Vec<Vec<Option<Player>>>)
        requires
            2 <= width,
            2 <= height,
        ensures
            board@.len() == height,
            forall|y: int| 0 <= y < height ==> (#[trigger] board@[y])@.len() == width,
            forall|y: int, x: int|
                0 <= y < height && 0 <= x < width ==> (#[trigger] board@[y]@[x]) is None,
    {
        let mut board: Vec<Vec<Option<Player>>> = Vec::new();
        let mut y: isize = 0;
        while y < height
            invariant
                2 <= width,
                2 <= height,
                0 <= y <= height,
                board@.len() == y,
                forall|r: int| 0 <= r < y ==> (#[trigger] board@[r])@.len() == width,
                forall|r: int, x: int|
                    0 <= r < y && 0 <= x < width ==> (#[trigger] board@[r]@[x]) is None,
            decreases height - y,
        {
            let mut row: Vec<Option<Player>> = Vec::new();
            let mut x: isize = 0;
            while x < width
                invariant
                    2 <= width,
                    0 <= x <= width,
                    row@.len() == x,
                    forall|i: int| 0 <= i < x ==> (#[trigger] row@[i]) is None,
                decreases width - x,
            {
                row.push(None);
                x = x + 1;
            }
            board.push(row);
            y = y + 1;
        }
        board
    }

    /// Counts the occupied cells of the board.
    fn occupied_cells(&self) -> (n: usize)
        requires
            self.wf(),
        ensures
            n as int == occupied_count(self.model()),
    {
        proof {
            lemma_occupied_le_total(self.model());
        }
        let ghost m = self.model();
        let mut n: usize = 0;
        let mut y: usize = 0;
        let height = self.height as usize;
        let width = self.width as usize;
        while y < height
            invariant
                self.wf(),
                m == self.model(),
                height == m.height,
                width == m.width,
                0 <= y <= height,
                n as int == rows_occupied(m.cells.take(y as int)),
                n <= y * width,
                y * width <= m.width * m.height,
            decreases height - y,
        {
            let row = &self.board[y];
            let mut x: usize = 0;
            while x < width
                invariant
                    self.wf(),
                    m == self.model(),
                    height == m.height,
                    width == m.width,
                    0 <= y < height,
                    0 <= x <= width,
                    row@ == m.cells[y as int],
                    n as int == rows_occupied(m.cells.take(y as int)) + row_occupied(
                        m.cells[y as int].take(x as int),
                    ),
                    n <= y * width + x,
                    y * width <= m.width * m.height,
                decreases width - x,
            {
                proof {
                    lemma_row_occupied_take_step(m.cells[y as int], x as int);
                    assert(y * width + width <= m.width * m.height) by (nonlinear_arith)
                        requires
                            0 <= y < height,
                            width == m.width,
                            height == m.height,
                            y * width <= m.width * m.height,
                    ;
                }
                if row[x].is_some() {
                    n = n + 1;
                }
                x = x + 1;
            }
            proof {
                lemma_rows_occupied_take_step(m.cells, y as int);
                assert(m.cells[y as int].take(width as int) =~= m.cells[y as int]);
                assert((y + 1) * width == y * width + width) by (nonlinear_arith);
                assert((y + 1) * width <= m.width * m.height) by (nonlinear_arith)
                    requires
                        0 <= y < height,
                        width == m.width,
                        height == m.height,
                ;
            }
            y = y + 1;
        }
        proof {
            assert(m.cells.take(height as int) =~= m.cells);
        }
        n
    }

    /// The unit step of direction `d`: horizontal, anti-diagonal, vertical,
    /// diagonal.
    pub(crate) fn direction(d: usize) -> (pt: Point)
        requires
            d < 4,
        ensures
            pt.x as int == dir_dx(d as int),
            pt.y as int == dir_dy(d as int),
    {
        if d == 0 {
            Point::new(1, 0)
        } else if d == 1 {
            Point::new(-1, 1)
        } else if d == 2 {
            Point::new(0, 1)
        } else {
            Point::new(1, 1)
        }
    }

    /// Walks outward from the occupied anchor `(x, y)` along direction `d`
    /// and reports whether seat `p` holds a full run of `goal` stones there.
    fn check_run(&self, x: usize, y: usize, d: usize, p: Player) -> (b: bool)
        requires
            self.wf(),
            self.model().goal >= 1,
            d < 4,
            in_bounds(self.model(), x as int, y as int),
            cell(self.model(), x as int, y as int) == Some(p),
        ensures
            b == has_run(self.model(), x as int, y as int, d as int, p),
    {
        let ghost m = self.model();
        let dir = Self::direction(d);
        proof {
            assert(step_x(x as int, d as int, 0) == x as int);
            assert(step_y(y as int, d as int, 0) == y as int);
            assert(run_cell_ok(m, x as int, y as int, d as int, p, 0));
            assert(m.width * 2 <= m.width * m.height) by (nonlinear_arith)
                requires
                    m.width >= 0,
                    m.height >= 2,
            ;
            assert(m.height * 2 <= m.width * m.height) by (nonlinear_arith)
                requires
                    m.height >= 0,
                    m.width >= 2,
            ;
        }
        let mut i: isize = 1;
        while i < self.goal
            invariant
                self.wf(),
                m == self.model(),
                m.goal >= 1,
                d < 4,
                dir.x as int == dir_dx(d as int),
                dir.y as int == dir_dy(d as int),
                x < m.width,
                y < m.height,
                m.width * 2 <= m.width * m.height,
                m.height * 2 <= m.width * m.height,
                1 <= i <= m.goal,
                forall|j: int| 0 <= j < i ==> run_cell_ok(m, x as int, y as int, d as int, p, j),
            decreases m.goal - i,
        {
            proof {
                assert(-i <= dir.x * i <= i) by (nonlinear_arith)
                    requires
                        -1 <= dir.x <= 1,
                        i >= 0,
                ;
                assert(-i <= dir.y * i <= i) by (nonlinear_arith)
                    requires
                        -1 <= dir.y <= 1,
                        i >= 0,
                ;
            }
            let px = x as isize + dir.x * i;
            let py = y as isize + dir.y * i;
            proof {
                assert(dir.x as int * i as int == i as int * dir_dx(d as int)) by (nonlinear_arith)
                    requires
                        dir.x as int == dir_dx(d as int),
                ;
                assert(dir.y as int * i as int == i as int * dir_dy(d as int)) by (nonlinear_arith)
                    requires
                        dir.y as int == dir_dy(d as int),
                ;
                assert(px as int == step_x(x as int, d as int, i as int));
                assert(py as int == step_y(y as int, d as int, i as int));
            }
            if px < 0 || px >= self.width || py < 0 || py >= self.height {
                proof {
                    assert(!run_cell_ok(m, x as int, y as int, d as int, p, i as int));
                }
                return false;
            }
            proof {
                assert(self.board@.len() == m.cells.len());
                assert(m.cells[py as int] == self.board@[py as int]@);
            }
            let t = self.board[py as usize][px as usize];
            let matches_p = match t {
                Some(q) => q == p,
                None => false,
            };
            if !matches_p {
                proof {
                    assert(!run_cell_ok(m, x as int, y as int, d as int, p, i as int));
                }
                return false;
            }
            proof {
                assert(run_cell_ok(m, x as int, y as int, d as int, p, i as int));
            }
            i = i + 1;
        }
        true
    }

    /// Scans every occupied cell as a run anchor; reports a seat holding a
    /// completed run, or that nobody does.
    fn find_winner(&self) -> (r: Option<Player>)
        requires
            self.wf(),
        ensures
            match r {
                Some(p) => is_winner(self.model(), p),
                None => !any_winner(self.model()),
            },
    {
        let ghost m = self.model();
        if self.goal < 1 {
            return None;
        }
        let width = self.width as usize;
        let height = self.height as usize;
        proof {
            assert forall|p: Player, x0: int, y0: int, d: int|
                y0 < 0 && 0 <= d < 4 implies !#[trigger] has_run(m, x0, y0, d, p) by {
                lemma_no_run_at(m, x0, y0, d, p);
            }
        }
        let mut y: usize = 0;
        while y < height
            invariant
                self.wf(),
                m == self.model(),
                m.goal >= 1,
                width == m.width,
                height == m.height,
                0 <= y <= height,
                forall|p: Player, x0: int, y0: int, d: int|
                    y0 < y && 0 <= d < 4 ==> !#[trigger] has_run(m, x0, y0, d, p),
            decreases height - y,
        {
            let mut x: usize = 0;
            proof {
                assert forall|p: Player, x0: int, d: int| x0 < 0 && 0 <= d < 4 implies !#[trigger] has_run(
                    m,
                    x0,
                    y as int,
                    d,
                    p,
                ) by {
                    lemma_no_run_at(m, x0, y as int, d, p);
                }
            }
            while x < width
                invariant
                    self.wf(),
                    m == self.model(),
                    m.goal >= 1,
                    width == m.width,
                    height == m.height,
                    0 <= y < height,
                    0 <= x <= width,
                    forall|p: Player, x0: int, y0: int, d: int|
                        y0 < y && 0 <= d < 4 ==> !#[trigger] has_run(m, x0, y0, d, p),
                    forall|p: Player, x0: int, d: int|
                        x0 < x && 0 <= d < 4 ==> !#[trigger] has_run(m, x0, y as int, d, p),
                decreases width - x,
            {
                proof {
                    assert(self.board@.len() == m.cells.len());
                    assert(m.cells[y as int] == self.board@[y as int]@);
                }
                let t = self.board[y][x];
                match t {
                    Some(p) => {
                        let mut d: usize = 0;
                        while d < 4
                            invariant
                                self.wf(),
                                m == self.model(),
                                m.goal >= 1,
                                x < m.width,
                                y < m.height,
                                cell(m, x as int, y as int) == Some(p),
                                d <= 4,
                                forall|dd: int|
                                    0 <= dd < d ==> !#[trigger] has_run(m, x as int, y as int, dd, p),
                            decreases 4 - d,
                        {
                            if self.check_run(x, y, d, p) {
                                return Some(p);
                            }
                            d = d + 1;
                        }
                        proof {
                            assert forall|q: Player, dd: int| 0 <= dd < 4 implies !#[trigger] has_run(
                                m,
                                x as int,
                                y as int,
                                dd,
                                q,
                            ) by {
                                if q != p {
                                    lemma_no_run_at(m, x as int, y as int, dd, q);
                                }
                            }
                        }
                    },
                    None => {
                        proof {
                            assert forall|q: Player, dd: int| 0 <= dd < 4 implies !#[trigger] has_run(
                                m,
                                x as int,
                                y as int,
                                dd,
                                q,
                            ) by {
                                lemma_no_run_at(m, x as int, y as int, dd, q);
                            }
                        }
                    },
                }
                x = x + 1;
            }
            proof {
                assert forall|p: Player, x0: int, d: int| 0 <= d < 4 implies !#[trigger] has_run(
                    m,
                    x0,
                    y as int,
                    d,
                    p,
                ) by {
                    if x0 >= m.width {
                        lemma_no_run_at(m, x0, y as int, d, p);
                    }
                }
            }
            y = y + 1;
        }
        proof {
            assert forall|p: Player| !is_winner(m, p) by {
                if is_winner(m, p) {
                    let (x0, y0, d) = choose|x0: int, y0: int, d: int|
                        0 <= d < 4 && #[trigger] has_run(m, x0, y0, d, p);
                    if y0 >= m.height {
                        lemma_no_run_at(m, x0, y0, d, p);
                    }
                }
            }
        }
        None
    }

    /// Whether any cell is still empty.
    fn has_empty_cell(&self) -> (b: bool)
        requires
            self.wf(),
        ensures
            b == !board_full(self.model()),
    {
        let ghost m = self.model();
        let width = self.width as usize;
        let height = self.height as usize;
        let mut y: usize = 0;
        while y < height
            invariant
                self.wf(),
                m == self.model(),
                width == m.width,
                height == m.height,
                0 <= y <= height,
                forall|x0: int, y0: int|
                    0 <= x0 < width && 0 <= y0 < y ==> #[trigger] cell(m, x0, y0) is Some,
            decreases height - y,
        {
            let mut x: usize = 0;
            while x < width
                invariant
                    self.wf(),
                    m == self.model(),
                    width == m.width,
                    height == m.height,
                    0 <= y < height,
                    0 <= x <= width,
                    forall|x0: int, y0: int|
                        0 <= x0 < width && 0 <= y0 < y ==> #[trigger] cell(m, x0, y0) is Some,
                    forall|x0: int| 0 <= x0 < x ==> #[trigger] cell(m, x0, y as int) is Some,
                decreases width - x,
            {
                proof {
                    assert(self.board@.len() == m.cells.len());
                    assert(m.cells[y as int] == self.board@[y as int]@);
                }
                if self.board[y][x].is_none() {
                    proof {
                        assert(cell(m, x as int, y as int) is None);
                        assert(in_bounds(m, x as int, y as int));
                        assert(!board_full(m));
                    }
                    return true;
                }
                x = x + 1;
            }
            y = y + 1;
        }
        false
    }

    /// Places seat `p`'s stone on the empty cell `(x, y)`.
    fn put_stone(&mut self, x: usize, y: usize, p: Player)
        requires
            old(self).wf(),
            in_bounds(old(self).model(), x as int, y as int),
            cell(old(self).model(), x as int, y as int) is None,
            p < old(self).model().players.len(),
        ensures
            final(self).wf(),
            final(self).model() == place(old(self).model(), x as int, y as int, p),
            occupied_count(final(self).model()) == occupied_count(old(self).model()) + 1,
    {
        proof {
            lemma_occupied_place(self.model(), x as int, y as int, p);
        }
        let ghost m = self.model();
        self.board[y][x] = Some(p);
        proof {
            assert(final(self).model().cells =~~= place(m, x as int, y as int, p).cells);
            assert(final(self).model() =~~= place(m, x as int, y as int, p));
            assert forall|xx: int, yy: int|
                in_bounds(final(self).model(), xx, yy) && #[trigger] cell(final(self).model(), xx, yy)
                    is Some implies cell(final(self).model(), xx, yy)->0
                < final(self).model().players.len() by {
                if !(xx == x as int && yy == y as int) {
                    assert(cell(final(self).model(), xx, yy) == cell(m, xx, yy));
                }
            }
        }
    }
}


/// What a game front end can ask of the engine.
#[derive(Clone, Copy, PartialEq, Eq, Structural, Debug)]
pub enum GameMessage {
    PlayMove(Point),
}

impl Game {
    /// Applies a front-end message: a requested move is played, with any
    /// rejection discarded (the caller re-reads the board and state).
    pub fn handle_message(&mut self, message: GameMessage)
        requires
            old(self).wf(),
        ensures
            final(self).wf(),
            exists|r: Result<(), PlayMoveError>|
                play_move_post(old(self).model(), final(self).model(), message->0, r),
    {
        match message {
            GameMessage::PlayMove(point) => {
                let _ = self.play_move(point);
            },
        }
    }
}

impl Default for Game {
    /// The classic configuration: a 6 x 6 board, four in a row to win, two
    /// human seats.
    fn default() -> (g: Game)
        ensures
            g.wf(),
            g.model().width == 6,
            g.model().height == 6,
            g.model().goal == 4,
            g.model().players == seq![PlayerType::Human, PlayerType::Human],
            occupied_count(g.model()) == 0,
            state_matches(g.model(), GameState::SeatToMove(0)),
    {
        let mut players: Vec<PlayerType> = Vec::new();
        players.push(PlayerType::Human);
        players.push(PlayerType::Human);
        match Game::new(6, 6, 4, players) {
            Ok(g) => g,
            Err(_) => vstd::pervasive::unreached(),
        }
    }
}

impl GameTrait for Game {
    closed spec fn model(&self) -> GameModel {
        GameModel {
            width: self.width as int,
            height: self.height as int,
            goal: self.goal as int,
            players: self.players@,
            cells: self.board@.map_values(|row: Vec<Option<Player>>| row@),
        }
    }

    open spec fn wf(&self) -> bool {
        wf_model(self.model())
    }

    fn clear(&mut self) {
        let fresh = Self::empty_board(self.width, self.height);
        self.board = fresh;
        proof {
            lemma_rows_occupied_all_empty(self.model().cells, self.model().width);
        }
    }

    fn get_tile(&self, point: &Point) -> (r: Result<Option<Player>, InvalidPointError>) {
        if point.x < 0 {
            Err(InvalidPointError::XTooSmall)
        } else if point.x >= self.width {
            Err(InvalidPointError::XTooLarge)
        } else if point.y < 0 {
            Err(InvalidPointError::YTooSmall)
        } else if point.y >= self.height {
            Err(InvalidPointError::YTooLarge)
        } else {
            proof {
                assert(self.board@.len() == self.model().cells.len());
                assert(self.model().cells[point.y as int] == self.board@[point.y as int]@);
            }
            Ok(self.board[point.y as usize][point.x as usize])
        }
    }

    fn get_board(&self) -> (b: Vec<Vec<Option<Player>>>) {
        let ghost m = self.model();
        let width = self.width as usize;
        let height = self.height as usize;
        let mut b: Vec<Vec<Option<Player>>> = Vec::new();
        let mut y: usize = 0;
        while y < height
            invariant
                self.wf(),
                m == self.model(),
                width == m.width,
                height == m.height,
                0 <= y <= height,
                b@.len() == y,
                forall|r: int| 0 <= r < y ==> (#[trigger] b@[r])@ == m.cells[r],
            decreases height - y,
        {
            proof {
                assert(self.board@.len() == m.cells.len());
                assert(m.cells[y as int] == self.board@[y as int]@);
            }
            let mut row: Vec<Option<Player>> = Vec::new();
            let mut x: usize = 0;
            while x < width
                invariant
                    self.wf(),
                    m == self.model(),
                    width == m.width,
                    height == m.height,
                    0 <= y < height,
                    0 <= x <= width,
                    row@.len() == x,
                    self.board@.len() == m.cells.len(),
                    m.cells[y as int] == self.board@[y as int]@,
                    forall|i: int| 0 <= i < x ==> row@[i] == m.cells[y as int][i],
                decreases width - x,
            {
                row.push(self.board[y][x]);
                x = x + 1;
            }
            proof {
                assert(row@ =~= m.cells[y as int]);
            }
            b.push(row);
            y = y + 1;
        }
        b
    }

    #[verifier::rlimit(50)]
    fn play_move(&mut self, point: Point) -> (r: Result<(), PlayMoveError>) {
        let ghost m0 = self.model();
        let state = self.get_gamestate();
        let seat = match state {
            GameState::SeatToMove(s) => s,
            _ => {
                return Err(PlayMoveError::InvalidGameState(state));
            },
        };
        let tile = match self.get_tile(&point) {
            Ok(t) => t,
            Err(e) => {
                return Err(PlayMoveError::InvalidPoint(e));
            },
        };
        if let Some(q) = tile {
            return Err(PlayMoveError::PointIsPopulated(q));
        }
        self.put_stone(point.x as usize, point.y as usize, seat);
        let ghost mid0 = self.model();
        let ghost mut trace: Seq<GameModel> = seq![mid0];
        loop
            invariant
                self.wf(),
                wf_model(mid0),
                trace.len() >= 1,
                trace[0] == mid0,
                trace.last() == self.model(),
                crate::computer::chain_trace(trace),
            ensures
                self.wf(),
                ai_reaches(mid0, self.model()),
                resolved(self.model()),
            decreases self.model().width * self.model().height - occupied_count(self.model()),
        {
            let ghost prev = self.model();
            let st = self.get_gamestate();
            let s = match st {
                GameState::SeatToMove(s) => s,
                _ => {
                    proof {
                        assert(trace_ok(trace, mid0, self.model()));
                    }
                    break ;
                },
            };
            let ptype = self.players[s];
            match ptype {
                PlayerType::Human => {
                    proof {
                        assert(trace_ok(trace, mid0, self.model()));
                    }
                    break ;
                },
                PlayerType::Computer(bot) => {
                    let mv_opt = self.get_computer_move(bot);
                    match mv_opt {
                        Some(mv) => {
                            proof {
                                lemma_occupied_lt_total(prev, mv.x as int, mv.y as int);
                            }
                            self.put_stone(mv.x as usize, mv.y as usize, s);
                            proof {
                                assert(self.model() == place(
                                    prev,
                                    mv.x as int,
                                    mv.y as int,
                                    current_seat(prev),
                                ));
                                assert(chain_step(prev, self.model()));
                                lemma_trace_push(trace, self.model());
                                trace = trace.push(self.model());
                            }
                        },
                        None => {
                            // the evaluator answers None only on a full
                            // board, which a seat-to-move state excludes
                            proof {
                                assert(!board_full(prev));
                                assert(false);
                            }
                            break ;
                        },
                    }
                },
            }
        }
        proof {
            lemma_reaches_props(mid0, self.model());
            lemma_place_props(m0, point.x as int, point.y as int, seat);
            lemma_extends_trans(m0, mid0, self.model());
        }
        Ok(())
    }

    fn get_gamestate(&self) -> (r: GameState) {
        match self.find_winner() {
            Some(p) => GameState::PlayerWon(p),
            None => {
                if self.has_empty_cell() {
                    GameState::SeatToMove(self.get_current_player())
                } else {
                    GameState::Draw
                }
            },
        }
    }

    fn get_current_player(&self) -> (p: Player) {
        let n = self.occupied_cells();
        n % self.players.len()
    }

    fn get_width(&self) -> (w: isize) {
        self.width
    }

    fn get_height(&self) -> (h: isize) {
        self.height
    }

    fn get_goal(&self) -> (g: isize) {
        self.goal
    }

    fn get_player_count(&self) -> (n: usize) {
        self.players.len()
    }
}

proof fn lemma_rows_occupied_all_empty(cells: Seq<Seq<Option<Player>>>, w: int)
    requires
        forall|y: int| 0 <= y < cells.len() ==> (#[trigger] cells[y]).len() == w,
        forall|y: int, x: int|
            0 <= y < cells.len() && 0 <= x < w ==> (#[trigger] cells[y][x]) is None,
    ensures
        rows_occupied(cells) == 0,
    decreases cells.len(),
{
    if cells.len() > 0 {
        lemma_rows_occupied_all_empty(cells.drop_last(), w);
        crate::model::lemma_row_occupied_all_none(cells.last());
    }
}

} // verus!
