//! Facts about a single grid: where pieces land, how columns fill, and what
//! the lists of open columns and of winning cells hold.

use vstd::prelude::*;
use crate::grid::{
    can_play, column_height, four_in_line, holds_at_step, immediate_wins, landing_row,
    lowest_empty_upto, no_move_left, open_columns, open_columns_below, pieces, place, run_of,
    stacked, taken, well_formed, winning_cells, wins_by_playing, Grid, COLS, ROWS,
};
use crate::player::Player;

verus! {

/// The scan for the lowest empty cell finds an empty cell with none but
/// taken cells below it, or -1 where all the cells it looks at are taken.
pub proof fn lemma_lowest_empty(g: Grid, col: int, row: int)
    requires
        -1 <= row,
    ensures
        -1 <= lowest_empty_upto(g, col, row) <= row,
        lowest_empty_upto(g, col, row) >= 0 ==> g[lowest_empty_upto(g, col, row)][col] is None,
        forall|r: int| lowest_empty_upto(g, col, row) < r <= row ==> (#[trigger] g[r])[col] is Some,
    decreases row + 1,
{
    if row >= 0 && g[row][col] is Some {
        lemma_lowest_empty(g, col, row - 1);
    }
}

/// The landing row of a playable column lies on the board; its cell is
/// empty and all cells below it are taken.
pub proof fn lemma_landing_row_on_board(g: Grid, col: int)
    requires
        can_play(g, col),
    ensures
        0 <= landing_row(g, col) < ROWS,
        g[landing_row(g, col)][col] is None,
        forall|r: int| landing_row(g, col) < r < ROWS ==> (#[trigger] g[r])[col] is Some,
{
    lemma_lowest_empty(g, col, ROWS - 1);
}

/// Dropping a piece keeps the shape of the grid.
pub proof fn lemma_place_well_formed(g: Grid, col: int, player: Player)
    requires
        well_formed(g),
    ensures
        well_formed(place(g, col, player)),
{
    if can_play(g, col) {
        lemma_landing_row_on_board(g, col);
    }
}

/// A piece dropped into a playable column adds one to that column and leaves
/// the other columns as they were.
pub proof fn lemma_place_adds_piece(g: Grid, col: int, player: Player)
    requires
        well_formed(g),
        can_play(g, col),
    ensures
        column_height(place(g, col, player), col) == column_height(g, col) + 1,
        forall|c: int|
            0 <= c < COLS && c != col ==> #[trigger] column_height(place(g, col, player), c)
                == column_height(g, c),
        pieces(place(g, col, player)) == pieces(g) + 1,
{
    lemma_landing_row_on_board(g, col);
    let row = landing_row(g, col);
    let after = place(g, col, player);
    assert forall|r: int, c: int| 0 <= r < ROWS && 0 <= c < COLS implies #[trigger] taken(
        after,
        r,
        c,
    ) == taken(g, r, c) + (if r == row && c == col {
        1int
    } else {
        0int
    }) by {}
}

/// A grid holds at most 42 pieces, a column at most 6, and a column that can
/// be played is not full.
pub proof fn lemma_piece_bounds(g: Grid)
    ensures
        0 <= pieces(g) <= ROWS * COLS,
        forall|c: int| 0 <= #[trigger] column_height(g, c) <= ROWS,
        forall|c: int| #[trigger] can_play(g, c) ==> column_height(g, c) < ROWS,
        !no_move_left(g) ==> pieces(g) < ROWS * COLS,
{
    if !no_move_left(g) {
        let c = choose|c: int| 0 <= c < COLS && can_play(g, c);
        assert(column_height(g, c) < ROWS);
    }
}

/// The open columns below `limit` are listed in ascending order, and a
/// column is listed exactly when it can be played.
pub proof fn lemma_open_columns_below(g: Grid, limit: int)
    requires
        0 <= limit <= COLS,
    ensures
        forall|k: int|
            0 <= k < open_columns_below(g, limit).len() ==> 0 <= (#[trigger] open_columns_below(
                g,
                limit,
            )[k]) < limit && can_play(g, open_columns_below(g, limit)[k] as int),
        forall|i: int, j: int|
            0 <= i < j < open_columns_below(g, limit).len() ==> open_columns_below(g, limit)[i]
                < open_columns_below(g, limit)[j],
        forall|c: int|
            0 <= c < limit && #[trigger] can_play(g, c) ==> open_columns_below(g, limit).contains(
                c as usize,
            ),
        open_columns_below(g, limit).len() == 0 <==> (forall|c: int|
            0 <= c < limit ==> !#[trigger] can_play(g, c)),
    decreases limit,
{
    if limit > 0 {
        let cols = open_columns_below(g, limit);
        let before = open_columns_below(g, limit - 1);
        lemma_open_columns_below(g, limit - 1);
        assert forall|c: int| 0 <= c < limit && #[trigger] can_play(g, c) implies cols.contains(
            c as usize,
        ) by {
            if c < limit - 1 {
                let k = choose|k: int| 0 <= k < before.len() && before[k] == c as usize;
                assert(cols[k] == c as usize);
            } else {
                assert(cols[cols.len() - 1] == c as usize);
            }
        }
        if !can_play(g, limit - 1) {
            assert forall|c: int| 0 <= c < limit && (forall|c: int|
                0 <= c < limit - 1 ==> !#[trigger] can_play(g, c)) implies !#[trigger] can_play(
                g,
                c,
            ) by {}
        }
    }
}

/// The open columns are listed in ascending order; a column is listed
/// exactly when it can be played, and the list is empty exactly when no move
/// is left.
pub proof fn lemma_open_columns(g: Grid)
    ensures
        forall|k: int|
            0 <= k < open_columns(g).len() ==> (#[trigger] open_columns(g)[k]) < COLS && can_play(
                g,
                open_columns(g)[k] as int,
            ),
        forall|i: int, j: int|
            0 <= i < j < open_columns(g).len() ==> open_columns(g)[i] < open_columns(g)[j],
        forall|c: int| #[trigger] can_play(g, c) ==> open_columns(g).contains(c as usize),
        open_columns(g).len() == 0 <==> no_move_left(g),
{
    lemma_open_columns_below(g, COLS as int);
}

/// On a grid whose pieces are stacked, a piece lands right above the pieces
/// of its column and leaves the grid stacked; a column can be played as long
/// as it holds fewer than six pieces.
pub proof fn lemma_stacked_column(g: Grid, col: int, player: Player)
    requires
        well_formed(g),
        stacked(g),
        0 <= col < COLS,
    ensures
        can_play(g, col) <==> column_height(g, col) < ROWS,
        can_play(g, col) ==> landing_row(g, col) == ROWS - 1 - column_height(g, col),
        stacked(place(g, col, player)),
{
    if can_play(g, col) {
        lemma_landing_row_on_board(g, col);
        let row = landing_row(g, col);
        let after = place(g, col, player);
        assert forall|upper: int, lower: int, c: int|
            0 <= upper < lower < ROWS && 0 <= c < COLS && #[trigger] taken(after, upper, c)
                == 1 implies #[trigger] taken(after, lower, c) == 1 by {
            if c == col && upper == row {
                assert(g[lower][col] is Some);
            } else {
                assert(taken(g, upper, c) == 1);
                assert(taken(g, lower, c) == 1);
            }
        }
    }
}

/// The runs that leave a cell in the two directions of an axis hold three
/// pieces between them exactly when the cell lies on a line of four along it.
pub proof fn lemma_runs_decide_line(
    g: Grid,
    row: int,
    col: int,
    dr: int,
    dc: int,
    player: Player,
    back: int,
    ahead: int,
)
    requires
        run_of(g, row, col, -dr, -dc, player, back),
        run_of(g, row, col, dr, dc, player, ahead),
    ensures
        (1 + back + ahead >= 4) == four_in_line(g, row, col, dr, dc, player),
{
    assert forall|k: int| 1 <= k <= 3 implies holds_at_step(g, row, col, -dr, -dc, k, player)
        == #[trigger] holds_at_step(g, row, col, dr, dc, -k, player) by {
        assert(k * (-dr) == (-k) * dr && k * (-dc) == (-k) * dc) by (nonlinear_arith);
    }
    assert(holds_at_step(g, row, col, dr, dc, 1, player) == (ahead >= 1));
    assert(holds_at_step(g, row, col, dr, dc, -1, player) == (back >= 1));
    assert(holds_at_step(g, row, col, dr, dc, 2, player) && ahead >= 1 ==> ahead >= 2);
    assert(holds_at_step(g, row, col, dr, dc, -2, player) && back >= 1 ==> back >= 2);
    assert(holds_at_step(g, row, col, dr, dc, 3, player) && ahead >= 2 ==> ahead >= 3);
    assert(holds_at_step(g, row, col, dr, dc, -3, player) && back >= 2 ==> back >= 3);
}

/// The cells listed as winning for the columns below `limit` are the
/// landing cells of exactly those columns whose play would win.
pub proof fn lemma_winning_cells(g: Grid, player: Player, limit: int)
    requires
        0 <= limit <= COLS,
    ensures
        forall|row: usize, col: usize|
            winning_cells(g, player, limit).contains((row, col)) <==> col < limit
                && wins_by_playing(g, col as int, player) && row == landing_row(g, col as int),
    decreases limit,
{
    let cells = winning_cells(g, player, limit);
    if limit > 0 {
        let before = winning_cells(g, player, limit - 1);
        lemma_winning_cells(g, player, limit - 1);
        if wins_by_playing(g, limit - 1, player) {
            lemma_landing_row_on_board(g, limit - 1);
            let cell = (landing_row(g, limit - 1) as usize, (limit - 1) as usize);
            assert(cells == before.push(cell));
            assert forall|row: usize, col: usize|
                cells.contains((row, col)) <==> col < limit && wins_by_playing(
                    g,
                    col as int,
                    player,
                ) && row == landing_row(g, col as int) by {
                if cells.contains((row, col)) {
                    let i = choose|i: int| 0 <= i < cells.len() && cells[i] == (row, col);
                    if i < before.len() {
                        assert(before[i] == (row, col));
                        assert(before.contains((row, col)));
                    }
                }
                if before.contains((row, col)) {
                    let i = choose|i: int| 0 <= i < before.len() && before[i] == (row, col);
                    assert(cells[i] == (row, col));
                }
                if (row, col) == cell {
                    assert(cells[before.len() as int] == cell);
                }
            }
        }
    }
}

/// The winning moves listed for a side are the landing cells of exactly
/// those columns whose play would win at once.
pub proof fn lemma_immediate_wins(g: Grid, player: Player)
    ensures
        forall|row: usize, col: usize|
            immediate_wins(g, player).contains((row, col)) <==> wins_by_playing(
                g,
                col as int,
                player,
            ) && row == landing_row(g, col as int),
{
    lemma_winning_cells(g, player, COLS as int);
}

} // verus!
