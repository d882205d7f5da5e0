//! The mathematical model of a game: the board as a sequence of rows, the
//! seat rotation, and win/draw detection as pure predicates. Every contract
//! of the engine is stated over this model.

use vstd::prelude::*;
use crate::bot::Bot;

verus! {

/// A seat identifier: an index into the configured player list.
pub type Player = usize;

/// Per-seat configuration, fixed at game creation.
#[derive(Clone, Copy, PartialEq, Eq, Structural, Debug)]
pub enum PlayerType {
    Human,
    Computer(Bot),
}

/// The status of a game, derived on demand from the board.
#[derive(Clone, Copy, PartialEq, Eq, Structural, Debug, Hash)]
pub enum GameState {
    SeatToMove(Player),
    PlayerWon(Player),
    Draw,
}

/// The abstract value of a game: dimensions, win length, seat configuration,
/// and the board as `height` rows of `width` cells (row-major).
#[verifier::ext_equal]
pub struct GameModel {
    pub width: int,
    pub height: int,
    pub goal: int,
    pub players: Seq<PlayerType>,
    pub cells: Seq<Seq<Option<Player>>>,
}

pub open spec fn in_bounds(m: GameModel, x: int, y: int) -> bool {
    0 <= x < m.width && 0 <= y < m.height
}

pub open spec fn cell(m: GameModel, x: int, y: int) -> Option<Player>
    recommends
        in_bounds(m, x, y),
{
    m.cells[y][x]
}

/// Well-formedness: dimensions and goal as the validating constructor
/// guarantees them, a rectangular board of matching size, every occupant a
/// configured seat, and the machine limit that all cells can be addressed
/// through `isize`.
pub open spec fn wf_model(m: GameModel) -> bool {
    &&& 2 <= m.width <= isize::MAX
    &&& 2 <= m.height <= isize::MAX
    &&& isize::MIN <= m.goal < m.width
    &&& m.goal < m.height
    &&& m.width * m.height <= isize::MAX
    &&& 2 <= m.players.len() <= usize::MAX
    &&& m.cells.len() == m.height
    &&& forall|y: int| 0 <= y < m.height ==> (#[trigger] m.cells[y]).len() == m.width
    &&& forall|x: int, y: int|
        in_bounds(m, x, y) && #[trigger] cell(m, x, y) is Some ==> cell(m, x, y)->0
            < m.players.len()
}

/// The same dimensions, goal and seats: everything a move leaves untouched.
pub open spec fn same_config(m1: GameModel, m2: GameModel) -> bool {
    m1.width == m2.width && m1.height == m2.height && m1.goal == m2.goal && m1.players
        == m2.players
}

/// `m2` is `m1` with zero or more stones added: no occupant ever changes.
pub open spec fn extends(m1: GameModel, m2: GameModel) -> bool {
    &&& same_config(m1, m2)
    &&& forall|x: int, y: int|
        in_bounds(m1, x, y) && #[trigger] cell(m1, x, y) is Some ==> cell(m2, x, y) == cell(
            m1,
            x,
            y,
        )
}

/// The board after placing seat `p`'s stone on `(x, y)`.
pub open spec fn place(m: GameModel, x: int, y: int, p: Player) -> GameModel {
    GameModel { cells: m.cells.update(y, m.cells[y].update(x, Some(p))), ..m }
}

// ---------------------------------------------------------------------------
// Occupancy counting and the derived seat rotation.
// ---------------------------------------------------------------------------

pub open spec fn row_occupied(row: Seq<Option<Player>>) -> int
    decreases row.len(),
{
    if row.len() == 0 {
        0
    } else {
        row_occupied(row.drop_last()) + if row.last() is Some {
            1int
        } else {
            0int
        }
    }
}

pub open spec fn rows_occupied(cells: Seq<Seq<Option<Player>>>) -> int
    decreases cells.len(),
{
    if cells.len() == 0 {
        0
    } else {
        rows_occupied(cells.drop_last()) + row_occupied(cells.last())
    }
}

/// How many cells of the board are occupied.
pub open spec fn occupied_count(m: GameModel) -> int {
    rows_occupied(m.cells)
}

/// Turn order is a pure function of occupancy: seat `occupied mod seats`
/// moves next.
pub open spec fn current_player(m: GameModel) -> int
    recommends
        m.players.len() >= 1,
{
    occupied_count(m) % (m.players.len() as int)
}

pub open spec fn board_full(m: GameModel) -> bool {
    forall|x: int, y: int| in_bounds(m, x, y) ==> #[trigger] cell(m, x, y) is Some
}

// ---------------------------------------------------------------------------
// Win detection: a contiguous run of `goal` same-seat stones along one of
// the four line directions.
// ---------------------------------------------------------------------------

/// The x-step of direction `d`: horizontal, anti-diagonal, vertical, diagonal.
pub open spec fn dir_dx(d: int) -> int {
    if d == 0 {
        1
    } else if d == 1 {
        -1
    } else if d == 2 {
        0
    } else {
        1
    }
}

/// The y-step of direction `d`.
pub open spec fn dir_dy(d: int) -> int {
    if d == 0 {
        0
    } else {
        1
    }
}

pub open spec fn step_x(x: int, d: int, i: int) -> int {
    x + i * dir_dx(d)
}

pub open spec fn step_y(y: int, d: int, i: int) -> int {
    y + i * dir_dy(d)
}

/// The `i`-th cell of a candidate run is on the board and held by `p`.
pub open spec fn run_cell_ok(m: GameModel, x: int, y: int, d: int, p: Player, i: int) -> bool {
    &&& in_bounds(m, step_x(x, d, i), step_y(y, d, i))
    &&& cell(m, step_x(x, d, i), step_y(y, d, i)) == Some(p)
}

/// A full run of `goal` stones of seat `p` anchored at `(x, y)` along `d`.
pub open spec fn has_run(m: GameModel, x: int, y: int, d: int, p: Player) -> bool {
    forall|i: int| 0 <= i < m.goal ==> #[trigger] run_cell_ok(m, x, y, d, p, i)
}

/// Seat `p` has completed a run of length `goal` somewhere on the board.
pub open spec fn is_winner(m: GameModel, p: Player) -> bool {
    m.goal >= 1 && exists|x: int, y: int, d: int| 0 <= d < 4 && #[trigger] has_run(m, x, y, d, p)
}

pub open spec fn any_winner(m: GameModel) -> bool {
    exists|p: Player| is_winner(m, p)
}

/// What `get_gamestate` may answer on board `m`: the exact winner-free
/// states, or a completed run's owner.
pub open spec fn state_matches(m: GameModel, s: GameState) -> bool {
    match s {
        GameState::PlayerWon(p) => is_winner(m, p),
        GameState::Draw => !any_winner(m) && board_full(m),
        GameState::SeatToMove(seat) => !any_winner(m) && !board_full(m) && seat
            == current_player(m),
    }
}

/// A terminal board: no further move is legal.
pub open spec fn terminal(m: GameModel) -> bool {
    any_winner(m) || board_full(m)
}

/// The next seat in rotation after `player` among `player_count` seats.
pub fn next_turn(player: Player, player_count: usize) -> (p: Player)
    requires
        player < player_count,
    ensures
        p as int == (player + 1) % (player_count as int),
{
    if player + 1 == player_count {
        proof {
            assert((player + 1) % (player_count as int) == 0) by (nonlinear_arith)
                requires
                    player + 1 == player_count,
                    player_count >= 1,
            ;
        }
        0
    } else {
        proof {
            assert((player + 1) % (player_count as int) == player + 1) by (nonlinear_arith)
                requires
                    0 <= player + 1 < player_count,
            ;
        }
        player + 1
    }
}

/// A board with no stones is a game in progress with seat 0 to move.
pub proof fn lemma_empty_board_state(m: GameModel)
    requires
        wf_model(m),
        forall|x: int, y: int| in_bounds(m, x, y) ==> #[trigger] cell(m, x, y) is None,
        occupied_count(m) == 0,
    ensures
        state_matches(m, GameState::SeatToMove(0)),
{
    assert forall|p: Player| !is_winner(m, p) by {
        if is_winner(m, p) {
            let (x, y, d) = choose|x: int, y: int, d: int|
                0 <= d < 4 && #[trigger] has_run(m, x, y, d, p);
            assert(run_cell_ok(m, x, y, d, p, 0));
            assert(step_x(x, d, 0) == x);
            assert(step_y(y, d, 0) == y);
        }
    }
    assert(in_bounds(m, 0, 0));
    assert(cell(m, 0, 0) is None);
    assert(!board_full(m));
}

/// Win detection is direction-symmetric: a run of `goal` stones of one seat
/// laid out against one of the four scan directions is the same win as the
/// forward run, whichever end was filled last.
pub proof fn lemma_win_direction_symmetric(m: GameModel, x: int, y: int, d: int, p: Player)
    requires
        wf_model(m),
        m.goal >= 1,
        0 <= d < 4,
        forall|i: int| 0 <= i < m.goal ==> #[trigger] run_cell_ok(m, x, y, d, p, -i),
    ensures
        is_winner(m, p),
{
    let g = m.goal;
    let dx = dir_dx(d);
    let dy = dir_dy(d);
    let bx = step_x(x, d, 1 - g);
    let by = step_y(y, d, 1 - g);
    assert forall|j: int| 0 <= j < g implies #[trigger] run_cell_ok(m, bx, by, d, p, j) by {
        let i = g - 1 - j;
        assert(run_cell_ok(m, x, y, d, p, -i));
        assert((1 - g) * dx + j * dx == (j + 1 - g) * dx) by (nonlinear_arith);
        assert((1 - g) * dy + j * dy == (j + 1 - g) * dy) by (nonlinear_arith);
        assert(step_x(bx, d, j) == step_x(x, d, -i));
        assert(step_y(by, d, j) == step_y(y, d, -i));
    }
    assert(has_run(m, bx, by, d, p));
}

/// Placing a stone on an empty cell keeps the board well formed, extends it,
/// and changes exactly that cell.
pub proof fn lemma_place_props(m: GameModel, x: int, y: int, p: Player)
    requires
        wf_model(m),
        in_bounds(m, x, y),
        cell(m, x, y) is None,
        p < m.players.len(),
    ensures
        wf_model(place(m, x, y, p)),
        extends(m, place(m, x, y, p)),
        cell(place(m, x, y, p), x, y) == Some(p),
        forall|xx: int, yy: int|
            in_bounds(m, xx, yy) && !(xx == x && yy == y) ==> #[trigger] cell(place(m, x, y, p), xx, yy)
                == cell(m, xx, yy),
        occupied_count(place(m, x, y, p)) == occupied_count(m) + 1,
{
    let m2 = place(m, x, y, p);
    lemma_occupied_place(m, x, y, p);
    assert forall|xx: int, yy: int|
        in_bounds(m2, xx, yy) && #[trigger] cell(m2, xx, yy) is Some implies cell(m2, xx, yy)->0
        < m2.players.len() by {
        if !(xx == x && yy == y) {
            assert(cell(m2, xx, yy) == cell(m, xx, yy));
        }
    }
}

pub proof fn lemma_extends_trans(m1: GameModel, m2: GameModel, m3: GameModel)
    requires
        extends(m1, m2),
        extends(m2, m3),
    ensures
        extends(m1, m3),
{
    assert forall|x: int, y: int|
        in_bounds(m1, x, y) && #[trigger] cell(m1, x, y) is Some implies cell(m3, x, y) == cell(
        m1,
        x,
        y,
    ) by {
        assert(cell(m2, x, y) == cell(m1, x, y));
    }
}

/// No run can be anchored where seat `p` holds no stone: its very first cell
/// already fails.
pub proof fn lemma_no_run_at(m: GameModel, x: int, y: int, d: int, p: Player)
    requires
        m.goal >= 1,
        !(in_bounds(m, x, y) && cell(m, x, y) == Some(p)),
    ensures
        !has_run(m, x, y, d, p),
{
    assert(step_x(x, d, 0) == x);
    assert(step_y(y, d, 0) == y);
    assert(!run_cell_ok(m, x, y, d, p, 0));
}

// ---------------------------------------------------------------------------
// Lemmas about occupancy counting.
// ---------------------------------------------------------------------------

pub proof fn lemma_row_occupied_bounds(row: Seq<Option<Player>>)
    ensures
        0 <= row_occupied(row) <= row.len(),
    decreases row.len(),
{
    if row.len() > 0 {
        lemma_row_occupied_bounds(row.drop_last());
    }
}

pub proof fn lemma_row_occupied_all_none(row: Seq<Option<Player>>)
    requires
        forall|i: int| 0 <= i < row.len() ==> row[i] is None,
    ensures
        row_occupied(row) == 0,
    decreases row.len(),
{
    if row.len() > 0 {
        lemma_row_occupied_all_none(row.drop_last());
    }
}

/// One scan step within a row: counting the prefix one cell further adds
/// exactly the occupancy of that cell.
pub proof fn lemma_row_occupied_take_step(row: Seq<Option<Player>>, i: int)
    requires
        0 <= i < row.len(),
    ensures
        row_occupied(row.take(i + 1)) == row_occupied(row.take(i)) + if row[i] is Some {
            1int
        } else {
            0int
        },
{
    assert(row.take(i + 1).drop_last() =~= row.take(i));
    assert(row.take(i + 1).last() == row[i]);
}

pub proof fn lemma_rows_occupied_take_step(cells: Seq<Seq<Option<Player>>>, y: int)
    requires
        0 <= y < cells.len(),
    ensures
        rows_occupied(cells.take(y + 1)) == rows_occupied(cells.take(y)) + row_occupied(cells[y]),
{
    assert(cells.take(y + 1).drop_last() =~= cells.take(y));
    assert(cells.take(y + 1).last() == cells[y]);
}

pub proof fn lemma_rows_occupied_bounds(cells: Seq<Seq<Option<Player>>>, w: int)
    requires
        w >= 0,
        forall|y: int| 0 <= y < cells.len() ==> (#[trigger] cells[y]).len() == w,
    ensures
        0 <= rows_occupied(cells) <= cells.len() * w,
    decreases cells.len(),
{
    if cells.len() > 0 {
        lemma_rows_occupied_bounds(cells.drop_last(), w);
        lemma_row_occupied_bounds(cells.last());
        assert((cells.len() - 1) * w + w == cells.len() * w) by (nonlinear_arith);
    }
}

/// A row with an empty cell is not fully occupied.
pub proof fn lemma_row_occupied_strict(row: Seq<Option<Player>>, i: int)
    requires
        0 <= i < row.len(),
        row[i] is None,
    ensures
        row_occupied(row) < row.len(),
    decreases row.len(),
{
    if i == row.len() - 1 {
        lemma_row_occupied_bounds(row.drop_last());
    } else {
        lemma_row_occupied_strict(row.drop_last(), i);
    }
}

/// A board with an empty cell is not fully occupied.
pub proof fn lemma_occupied_lt_total(m: GameModel, x: int, y: int)
    requires
        wf_model(m),
        in_bounds(m, x, y),
        cell(m, x, y) is None,
    ensures
        occupied_count(m) < m.width * m.height,
{
    lemma_rows_occupied_strict(m.cells, m.width, x, y);
    assert(m.height * m.width == m.width * m.height) by (nonlinear_arith);
}

proof fn lemma_rows_occupied_strict(cells: Seq<Seq<Option<Player>>>, w: int, x: int, y: int)
    requires
        w >= 0,
        forall|r: int| 0 <= r < cells.len() ==> (#[trigger] cells[r]).len() == w,
        0 <= y < cells.len(),
        0 <= x < w,
        cells[y][x] is None,
    ensures
        rows_occupied(cells) < cells.len() * w,
    decreases cells.len(),
{
    if y == cells.len() - 1 {
        lemma_rows_occupied_bounds(cells.drop_last(), w);
        lemma_row_occupied_strict(cells.last(), x);
    } else {
        lemma_rows_occupied_strict(cells.drop_last(), w, x, y);
        lemma_row_occupied_bounds(cells.last());
    }
    assert((cells.len() - 1) * w + w == cells.len() * w) by (nonlinear_arith);
}

/// Total occupancy never exceeds the number of cells.
pub proof fn lemma_occupied_le_total(m: GameModel)
    requires
        wf_model(m),
    ensures
        0 <= occupied_count(m) <= m.width * m.height,
{
    lemma_rows_occupied_bounds(m.cells, m.width);
    assert(m.height * m.width == m.width * m.height) by (nonlinear_arith);
}

pub proof fn lemma_row_occupied_update(row: Seq<Option<Player>>, x: int, p: Player)
    requires
        0 <= x < row.len(),
        row[x] is None,
    ensures
        row_occupied(row.update(x, Some(p))) == row_occupied(row) + 1,
    decreases row.len(),
{
    if x == row.len() - 1 {
        assert(row.update(x, Some(p)).drop_last() =~= row.drop_last());
    } else {
        assert(row.update(x, Some(p)).drop_last() =~= row.drop_last().update(x, Some(p)));
        lemma_row_occupied_update(row.drop_last(), x, p);
    }
}

/// Placing a stone on an empty cell raises the occupancy by exactly one.
pub proof fn lemma_occupied_place(m: GameModel, x: int, y: int, p: Player)
    requires
        wf_model(m),
        in_bounds(m, x, y),
        cell(m, x, y) is None,
    ensures
        occupied_count(place(m, x, y, p)) == occupied_count(m) + 1,
{
    lemma_row_occupied_update(m.cells[y], x, p);
    lemma_rows_occupied_update(m.cells, y, m.cells[y].update(x, Some(p)));
}

proof fn lemma_rows_occupied_update(cells: Seq<Seq<Option<Player>>>, y: int, row: Seq<Option<Player>>)
    requires
        0 <= y < cells.len(),
    ensures
        rows_occupied(cells.update(y, row)) == rows_occupied(cells) - row_occupied(cells[y])
            + row_occupied(row),
    decreases cells.len(),
{
    if y == cells.len() - 1 {
        assert(cells.update(y, row).drop_last() =~= cells.drop_last());
        assert(cells.update(y, row).last() == row);
    } else {
        assert(cells.update(y, row).drop_last() =~= cells.drop_last().update(y, row));
        assert(cells.update(y, row).last() == cells.last());
        lemma_rows_occupied_update(cells.drop_last(), y, row);
    }
}

} // verus!
