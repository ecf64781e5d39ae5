//! Laws of the game, proved over the model: how columns fill, how win
//! detection behaves under mirroring, and how the records of a match hang
//! together.

use vstd::prelude::*;
use crate::grid::{
    can_play, column_height, empty_grid, four_in_line, holds_at_step, immediate_wins, landing,
    landing_row, lowest_empty_upto, mirrored, no_move_left, on_board, place, three_below,
    well_formed, wins_at, wins_by_playing, Grid, COLS, ROWS,
};
use crate::grid_lemmas::{
    lemma_immediate_wins, lemma_landing_row_on_board, lemma_piece_bounds,
    lemma_place_well_formed, lemma_stacked_column,
};
use crate::player::Player;
use crate::record::{lemma_replay_stacks, placements_in, replay, MoveRecord};
use crate::simulation::{
    ends_in_win, finished_match, legal_match, record_fits, state_after, MatchState,
};

verus! {

/// On a new board every column can be played.
pub proof fn lemma_new_board_is_open(col: int)
    requires
        0 <= col < COLS,
    ensures
        can_play(empty_grid(), col),
        landing(empty_grid(), col) == Some(((ROWS - 1) as usize, col as usize)),
{
    reveal_with_fuel(lowest_empty_upto, 7);
}

/// A column of a board played from empty can be played until six pieces
/// have been placed in it, and no longer.
pub proof fn lemma_six_placements_fill_column(moves: Seq<MoveRecord>, col: int)
    requires
        0 <= col < COLS,
    ensures
        placements_in(moves, col) <= ROWS,
        can_play(replay(moves), col) <==> placements_in(moves, col) < ROWS,
{
    lemma_replay_stacks(moves);
    lemma_piece_bounds(replay(moves));
    lemma_stacked_column(replay(moves), col, Player::Yellow);
    assert(column_height(replay(moves), col) == placements_in(moves, col));
}

/// Gravity: on a board played from empty, the first piece placed in a
/// column lands in the bottom row, and each further one lands one row
/// higher than the one before.
pub proof fn lemma_gravity(moves: Seq<MoveRecord>, col: int)
    requires
        0 <= col < COLS,
        can_play(replay(moves), col),
    ensures
        placements_in(moves, col) < ROWS,
        landing(replay(moves), col) == Some(
            ((ROWS - 1 - placements_in(moves, col)) as usize, col as usize),
        ),
{
    lemma_replay_stacks(moves);
    lemma_stacked_column(replay(moves), col, Player::Yellow);
    assert(column_height(replay(moves), col) == placements_in(moves, col));
}

/// A piece that is dropped fills the landing cell, which was empty, and
/// changes no other cell: no piece is ever cleared or overwritten. A column
/// that cannot be played leaves the grid as it is.
pub proof fn lemma_place_fills_one_cell(g: Grid, col: int, player: Player)
    requires
        well_formed(g),
    ensures
        !can_play(g, col) ==> place(g, col, player) == g,
        can_play(g, col) ==> g[landing_row(g, col)][col] is None,
        can_play(g, col) ==> place(g, col, player)[landing_row(g, col)][col] == Some(player),
        forall|r: int, c: int|
            on_board(r, c) && !(can_play(g, col) && r == landing_row(g, col) && c == col)
                ==> #[trigger] place(g, col, player)[r][c] == g[r][c],
{
    if can_play(g, col) {
        lemma_landing_row_on_board(g, col);
    }
}

/// A walk over the mirrored grid that starts in the mirrored cell and runs
/// in the mirrored direction meets, step by step, what the walk over the
/// grid itself meets.
pub proof fn lemma_mirror_step(
    g: Grid,
    row: int,
    col: int,
    dr: int,
    dc: int,
    k: int,
    player: Player,
)
    requires
        well_formed(g),
    ensures
        holds_at_step(mirrored(g), row, COLS - 1 - col, dr, -dc, k, player) == holds_at_step(
            g,
            row,
            col,
            dr,
            dc,
            k,
            player,
        ),
{
    assert(k * (-dc) == -(k * dc)) by (nonlinear_arith);
}

/// A line of four through a cell is the same line whichever way its axis is
/// read.
pub proof fn lemma_line_reversed(g: Grid, row: int, col: int, dr: int, dc: int, player: Player)
    ensures
        four_in_line(g, row, col, -dr, -dc, player) == four_in_line(g, row, col, dr, dc, player),
{
    assert forall|k: int| -3 <= k <= 3 implies #[trigger] holds_at_step(
        g,
        row,
        col,
        -dr,
        -dc,
        k,
        player,
    ) == holds_at_step(g, row, col, dr, dc, -k, player) by {
        assert(k * (-dr) == (-k) * dr && k * (-dc) == (-k) * dc) by (nonlinear_arith);
    }
}

/// A line of four on the mirrored grid, through the mirrored cell and along
/// the mirrored axis, is a line of four on the grid itself.
pub proof fn lemma_mirror_line(g: Grid, row: int, col: int, dr: int, dc: int, player: Player)
    requires
        well_formed(g),
    ensures
        four_in_line(mirrored(g), row, COLS - 1 - col, dr, -dc, player) == four_in_line(
            g,
            row,
            col,
            dr,
            dc,
            player,
        ),
{
    lemma_mirror_step(g, row, col, dr, dc, -3, player);
    lemma_mirror_step(g, row, col, dr, dc, -2, player);
    lemma_mirror_step(g, row, col, dr, dc, -1, player);
    lemma_mirror_step(g, row, col, dr, dc, 1, player);
    lemma_mirror_step(g, row, col, dr, dc, 2, player);
    lemma_mirror_step(g, row, col, dr, dc, 3, player);
}

/// Win detection does not tell left from right: a piece wins on a grid
/// exactly when the mirrored piece wins on the mirrored grid. A line along
/// one diagonal becomes a line along the other, a line along the row stays
/// one, and so does a line down the column.
pub proof fn lemma_mirror_keeps_wins(g: Grid, row: int, col: int, player: Player)
    requires
        well_formed(g),
    ensures
        four_in_line(mirrored(g), row, COLS - 1 - col, 0, 1, player) == four_in_line(
            g,
            row,
            col,
            0,
            1,
            player,
        ),
        three_below(mirrored(g), row, COLS - 1 - col, player) == three_below(g, row, col, player),
        four_in_line(mirrored(g), row, COLS - 1 - col, 1, 1, player) == four_in_line(
            g,
            row,
            col,
            1,
            -1,
            player,
        ),
        four_in_line(mirrored(g), row, COLS - 1 - col, 1, -1, player) == four_in_line(
            g,
            row,
            col,
            1,
            1,
            player,
        ),
        wins_at(mirrored(g), row, COLS - 1 - col, player) == wins_at(g, row, col, player),
{
    lemma_mirror_line(g, row, col, 0, -1, player);
    lemma_line_reversed(g, row, col, 0, 1, player);
    lemma_mirror_line(g, row, col, 1, -1, player);
    lemma_mirror_line(g, row, col, 1, 1, player);
    lemma_mirror_step(g, row, col, 1, 0, 1, player);
    lemma_mirror_step(g, row, col, 1, 0, 2, player);
    lemma_mirror_step(g, row, col, 1, 0, 3, player);
}

/// Dropping a piece commutes with mirroring: the mirrored column of the
/// mirrored grid takes the piece in the same row.
pub proof fn lemma_mirror_place(g: Grid, col: int, player: Player)
    requires
        well_formed(g),
        0 <= col < COLS,
    ensures
        can_play(mirrored(g), COLS - 1 - col) == can_play(g, col),
        landing_row(mirrored(g), COLS - 1 - col) == landing_row(g, col),
        place(mirrored(g), COLS - 1 - col, player) == mirrored(place(g, col, player)),
{
    reveal_with_fuel(lowest_empty_upto, 7);
    if can_play(g, col) {
        lemma_landing_row_on_board(g, col);
    }
    assert(place(mirrored(g), COLS - 1 - col, player) =~~= mirrored(place(g, col, player)));
}

/// A column wins at once for a side exactly when the mirrored column does
/// so on the mirrored grid.
pub proof fn lemma_mirror_keeps_winning_moves(g: Grid, col: int, player: Player)
    requires
        well_formed(g),
        0 <= col < COLS,
    ensures
        wins_by_playing(mirrored(g), COLS - 1 - col, player) == wins_by_playing(g, col, player),
{
    lemma_mirror_place(g, col, player);
    lemma_place_well_formed(g, col, player);
    lemma_mirror_keeps_wins(place(g, col, player), landing_row(g, col), col, player);
}

/// In a match played by the rules the sides alternate from Yellow on, every
/// record fits the grid that the moves before it lead to, and no move but
/// the last can be a winning one.
pub proof fn lemma_legal_match_turns(moves: Seq<MoveRecord>, turn: int)
    requires
        legal_match(moves),
        0 <= turn < moves.len(),
    ensures
        legal_match(moves.take(turn)),
        record_fits(moves[turn], replay(moves.take(turn)), turn),
        turn + 1 < moves.len() ==> !ends_in_win(moves.take(turn + 1)),
    decreases moves.len(),
{
    let earlier = moves.drop_last();
    if turn == moves.len() - 1 {
        assert(moves.take(turn) == earlier);
    } else {
        lemma_legal_match_turns(earlier, turn);
        assert(earlier.take(turn) == moves.take(turn));
        assert(earlier.take(turn + 1) == moves.take(turn + 1));
        if turn + 1 == earlier.len() {
            assert(earlier.take(turn + 1) == earlier);
        }
    }
}

/// What the last record of a match played by the rules says agrees with the
/// grid that the moves lead to. The piece of the last move lies where it
/// landed; it completes four in a row there exactly when its cell is among
/// the winning moves recorded for that turn, and then the record's flag is
/// set.
pub proof fn lemma_last_move_on_record(moves: Seq<MoveRecord>)
    requires
        legal_match(moves),
        moves.len() > 0,
    ensures
        ({
            let last = moves.last();
            let before = replay(moves.drop_last());
            let row = landing_row(before, last.usr_move as int);
            &&& landing(before, last.usr_move as int) == Some((row as usize, last.usr_move))
            &&& replay(moves)[row][last.usr_move as int] == Some(last.player)
            &&& ends_in_win(moves) == wins_at(replay(moves), row, last.usr_move as int, last.player)
            &&& ends_in_win(moves) == last.immediate_win_positions@.contains(
                (row as usize, last.usr_move),
            )
            &&& ends_in_win(moves) ==> last.has_immediate_win
        }),
{
    let last = moves.last();
    let before = replay(moves.drop_last());
    let col = last.usr_move as int;
    lemma_replay_stacks(moves.drop_last());
    lemma_landing_row_on_board(before, col);
    lemma_immediate_wins(before, last.player);
    let row = landing_row(before, col);
    if ends_in_win(moves) {
        assert(immediate_wins(before, last.player).contains((row as usize, last.usr_move)));
    }
}

/// A match that is over has at least one move.
pub proof fn lemma_finished_match_has_moves(moves: Seq<MoveRecord>)
    requires
        finished_match(moves),
    ensures
        moves.len() > 0,
{
    if moves.len() == 0 {
        lemma_new_board_is_open(0);
    }
}

/// Round trip: replaying a finished match agrees with what was recorded
/// while it was played. Checked on the replayed grid, the piece of the last
/// move completes four in a row exactly when the match was won by it, and
/// then its cell is among the winning moves recorded for that turn and the
/// record's flag is set. Where it does not, the replayed grid has no column
/// left to play.
pub proof fn lemma_replay_agrees_with_records(moves: Seq<MoveRecord>)
    requires
        finished_match(moves),
    ensures
        moves.len() > 0,
        ({
            let last = moves.last();
            let row = landing_row(replay(moves.drop_last()), last.usr_move as int);
            let won = wins_at(replay(moves), row, last.usr_move as int, last.player);
            &&& replay(moves)[row][last.usr_move as int] == Some(last.player)
            &&& won <==> state_after(moves) == MatchState::WonBy(last.player)
            &&& won <==> last.immediate_win_positions@.contains((row as usize, last.usr_move))
            &&& won ==> last.has_immediate_win
            &&& !won <==> state_after(moves) == MatchState::Exhausted
            &&& !won ==> no_move_left(replay(moves))
        }),
{
    lemma_finished_match_has_moves(moves);
    lemma_last_move_on_record(moves);
}

} // verus!
