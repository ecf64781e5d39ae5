//! The mathematical model of a board: a sequence of six rows, each a sequence
//! of seven cells. Row 0 is the top row and row 5 the bottom one; pieces fall
//! towards row 5.

use vstd::prelude::*;
use crate::player::Player;

verus! {

/// Number of rows of the board.
pub const ROWS: usize = 6;

/// Number of columns of the board.
pub const COLS: usize = 7;

/// The cells of a board, indexed by row and then by column.
pub type Grid = Seq<Seq<Option<Player>>>;

/// A grid has six rows of seven cells.
pub open spec fn well_formed(g: Grid) -> bool {
    &&& g.len() == ROWS
    &&& forall|r: int| 0 <= r < ROWS ==> (#[trigger] g[r]).len() == COLS
}

/// The grid without any piece.
pub open spec fn empty_grid() -> Grid {
    Seq::new(ROWS as nat, |r: int| Seq::new(COLS as nat, |c: int| None))
}

/// The cell lies on the board.
pub open spec fn on_board(row: int, col: int) -> bool {
    0 <= row < ROWS && 0 <= col < COLS
}

/// The cell lies on the board and holds a piece of `player`.
pub open spec fn holds(g: Grid, row: int, col: int, player: Player) -> bool {
    on_board(row, col) && g[row][col] == Some(player)
}

/// The grid with one cell replaced.
pub open spec fn with_cell(g: Grid, row: int, col: int, cell: Option<Player>) -> Grid {
    g.update(row, g[row].update(col, cell))
}

/// A piece can be dropped into the column: its top cell is empty.
pub open spec fn can_play(g: Grid, col: int) -> bool {
    0 <= col < COLS && g[0][col] is None
}

/// The lowest empty cell of the column among rows `0..=row`, or -1 if all of
/// them are taken.
pub open spec fn lowest_empty_upto(g: Grid, col: int, row: int) -> int
    decreases row + 1,
{
    if row < 0 {
        -1
    } else if g[row][col] is None {
        row
    } else {
        lowest_empty_upto(g, col, row - 1)
    }
}

/// The row in which a piece dropped into the column comes to rest: the lowest
/// empty cell of the column, or -1 if the column has none.
pub open spec fn landing_row(g: Grid, col: int) -> int {
    lowest_empty_upto(g, col, ROWS - 1)
}

/// Where a piece dropped into the column lands, if the column can be played.
pub open spec fn landing(g: Grid, col: int) -> Option<(usize, usize)> {
    if can_play(g, col) {
        Some((landing_row(g, col) as usize, col as usize))
    } else {
        None
    }
}

/// The grid after `player` drops a piece into the column. A column that
/// cannot be played leaves the grid as it is.
pub open spec fn place(g: Grid, col: int, player: Player) -> Grid {
    if can_play(g, col) {
        with_cell(g, landing_row(g, col), col, Some(player))
    } else {
        g
    }
}

/// The cell `k` steps away from (`row`, `col`) in the direction (`dr`, `dc`)
/// lies on the board and holds a piece of `player`.
pub open spec fn holds_at_step(
    g: Grid,
    row: int,
    col: int,
    dr: int,
    dc: int,
    k: int,
    player: Player,
) -> bool {
    holds(g, row + k * dr, col + k * dc, player)
}

/// Three pieces of `player` lie with the cell (`row`, `col`) on one unbroken
/// line of four along the axis (`dr`, `dc`). The cell may be any of the four;
/// what it holds itself is not looked at.
pub open spec fn four_in_line(
    g: Grid,
    row: int,
    col: int,
    dr: int,
    dc: int,
    player: Player,
) -> bool {
    ||| (holds_at_step(g, row, col, dr, dc, 1, player)
        && holds_at_step(g, row, col, dr, dc, 2, player)
        && holds_at_step(g, row, col, dr, dc, 3, player))
    ||| (holds_at_step(g, row, col, dr, dc, -1, player)
        && holds_at_step(g, row, col, dr, dc, 1, player)
        && holds_at_step(g, row, col, dr, dc, 2, player))
    ||| (holds_at_step(g, row, col, dr, dc, -2, player)
        && holds_at_step(g, row, col, dr, dc, -1, player)
        && holds_at_step(g, row, col, dr, dc, 1, player))
    ||| (holds_at_step(g, row, col, dr, dc, -3, player)
        && holds_at_step(g, row, col, dr, dc, -2, player)
        && holds_at_step(g, row, col, dr, dc, -1, player))
}

/// The three cells right below (`row`, `col`) hold pieces of `player`.
pub open spec fn three_below(g: Grid, row: int, col: int, player: Player) -> bool {
    &&& holds_at_step(g, row, col, 1, 0, 1, player)
    &&& holds_at_step(g, row, col, 1, 0, 2, player)
    &&& holds_at_step(g, row, col, 1, 0, 3, player)
}

/// A piece of `player` that has just come to rest at (`row`, `col`) completes
/// four in a row: along its row, down its column, or along one of the two
/// diagonals. The column is looked at below the cell only, since nothing can
/// lie above a piece that has just fallen.
pub open spec fn wins_at(g: Grid, row: int, col: int, player: Player) -> bool {
    ||| four_in_line(g, row, col, 0, 1, player)
    ||| three_below(g, row, col, player)
    ||| four_in_line(g, row, col, 1, 1, player)
    ||| four_in_line(g, row, col, 1, -1, player)
}

/// Exactly `n` pieces of `player` follow the cell (`row`, `col`) without a gap
/// in the direction (`dr`, `dc`): the run that win detection counts.
pub open spec fn run_of(
    g: Grid,
    row: int,
    col: int,
    dr: int,
    dc: int,
    player: Player,
    n: int,
) -> bool {
    &&& 0 <= n
    &&& forall|k: int| 1 <= k <= n ==> #[trigger] holds_at_step(g, row, col, dr, dc, k, player)
    &&& !holds_at_step(g, row, col, dr, dc, n + 1, player)
}

/// Dropping a piece of `player` into the column would win at once.
pub open spec fn wins_by_playing(g: Grid, col: int, player: Player) -> bool {
    can_play(g, col) && wins_at(place(g, col, player), landing_row(g, col), col, player)
}

/// The cells in which `player` would win at once by playing one of the
/// columns `0..limit`, in ascending order of column.
pub open spec fn winning_cells(g: Grid, player: Player, limit: int) -> Seq<(usize, usize)>
    decreases limit,
{
    if limit <= 0 {
        Seq::empty()
    } else {
        let before = winning_cells(g, player, limit - 1);
        if wins_by_playing(g, limit - 1, player) {
            before.push((landing_row(g, limit - 1) as usize, (limit - 1) as usize))
        } else {
            before
        }
    }
}

/// All cells in which `player` would win at once, in ascending order of
/// column.
pub open spec fn immediate_wins(g: Grid, player: Player) -> Seq<(usize, usize)> {
    winning_cells(g, player, COLS as int)
}

/// The playable columns among `0..limit`, in ascending order.
pub open spec fn open_columns_below(g: Grid, limit: int) -> Seq<usize>
    decreases limit,
{
    if limit <= 0 {
        Seq::empty()
    } else {
        let before = open_columns_below(g, limit - 1);
        if can_play(g, limit - 1) {
            before.push((limit - 1) as usize)
        } else {
            before
        }
    }
}

/// All playable columns, in ascending order.
pub open spec fn open_columns(g: Grid) -> Seq<usize> {
    open_columns_below(g, COLS as int)
}

/// No column can be played: the top row is full.
pub open spec fn no_move_left(g: Grid) -> bool {
    forall|c: int| 0 <= c < COLS ==> !#[trigger] can_play(g, c)
}

/// 1 if the cell holds a piece, else 0.
pub open spec fn taken(g: Grid, row: int, col: int) -> int {
    if g[row][col] is Some {
        1
    } else {
        0
    }
}

/// The number of pieces in a column.
pub open spec fn column_height(g: Grid, col: int) -> int {
    taken(g, 0, col) + taken(g, 1, col) + taken(g, 2, col) + taken(g, 3, col) + taken(g, 4, col)
        + taken(g, 5, col)
}

/// The number of pieces on the grid.
pub open spec fn pieces(g: Grid) -> int {
    column_height(g, 0) + column_height(g, 1) + column_height(g, 2) + column_height(g, 3)
        + column_height(g, 4) + column_height(g, 5) + column_height(g, 6)
}

/// Pieces rest on the bottom row or on other pieces: below a piece no cell is
/// empty.
pub open spec fn stacked(g: Grid) -> bool {
    forall|upper: int, lower: int, c: int|
        0 <= upper < lower < ROWS && 0 <= c < COLS && #[trigger] taken(g, upper, c) == 1
            ==> #[trigger] taken(g, lower, c) == 1
}

/// The grid seen in a mirror that stands beside it: column 0 becomes column
/// 6 and so on.
pub open spec fn mirrored(g: Grid) -> Grid {
    Seq::new(ROWS as nat, |r: int| Seq::new(COLS as nat, |c: int| g[r][COLS - 1 - c]))
}

} // verus!
