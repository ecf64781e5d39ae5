//! The executable board and its operations.

use vstd::prelude::*;
use crate::grid::{
    can_play, column_height, empty_grid, holds_at_step, immediate_wins, landing,
    lowest_empty_upto, on_board, open_columns, open_columns_below, place, run_of, stacked,
    three_below, well_formed, winning_cells, wins_at, with_cell, Grid, COLS, ROWS,
};
use crate::grid_lemmas::{
    lemma_landing_row_on_board, lemma_place_adds_piece, lemma_runs_decide_line,
    lemma_stacked_column,
};
use crate::player::Player;
use crate::record::{lemma_replay_stacks, replay, MoveRecord};

verus! {

/// A Connect-4 board. It starts empty and changes only when a piece is
/// dropped into a column; no cell is ever cleared.
#[derive(Clone, Copy, Debug)]
pub struct Board {
    grid: [[Option<Player>; COLS]; ROWS],
}

impl View for Board {
    type V = Grid;

    closed spec fn view(&self) -> Grid {
        Seq::new(ROWS as nat, |r: int| Seq::new(COLS as nat, |c: int| self.grid[r][c]))
    }
}

impl Board {
    /// The pieces of the board are stacked: each rests on the bottom row or
    /// on another piece. Every board made by [`Board::new`], [`Board::play`]
    /// and [`Board::replay`] is of this kind.
    pub open spec fn wf(&self) -> bool {
        well_formed(self@) && stacked(self@)
    }

    /// Whatever a board holds, it has six rows of seven cells.
    pub proof fn lemma_view_well_formed(self)
        ensures
            well_formed(self@),
    {
    }

    /// An empty board.
    pub fn new() -> (board: Board)
        ensures
            board@ == empty_grid(),
            board.wf(),
    {
        let board = Board { grid: [[None; COLS]; ROWS] };
        assert(board@ =~~= empty_grid());
        board
    }

    /// The board after the recorded moves, played in order from an empty
    /// board. A move into a full column is passed over. Whether a move won
    /// is not looked at.
    pub fn replay(moves: &[MoveRecord]) -> (board: Board)
        requires
            forall|i: int| 0 <= i < moves@.len() ==> moves@[i].usr_move < COLS,
        ensures
            board@ == replay(moves@),
            board.wf(),
    {
        proof {
            lemma_replay_stacks(moves@);
        }
        let mut board = Board::new();
        let mut i: usize = 0;
        while i < moves.len()
            invariant
                i <= moves@.len(),
                forall|i: int| 0 <= i < moves@.len() ==> moves@[i].usr_move < COLS,
                board@ == replay(moves@.take(i as int)),
            decreases moves@.len() - i,
        {
            let _ = board.play(moves[i].usr_move, moves[i].player);
            assert(moves@.take(i + 1).drop_last() == moves@.take(i as int));
            i += 1;
        }
        assert(moves@.take(i as int) == moves@);
        board
    }

    /// The content of one cell.
    pub fn cell(&self, row: usize, col: usize) -> (cell: Option<Player>)
        requires
            row < ROWS,
            col < COLS,
        ensures
            cell == self@[row as int][col as int],
    {
        self.grid[row][col]
    }

    /// Whether a piece can be dropped into the column, that is, whether its
    /// top cell is empty. On a board whose pieces are stacked that is the
    /// case as long as the column holds fewer than six pieces.
    pub fn can_play(&self, col: usize) -> (open: bool)
        requires
            col < COLS,
        ensures
            open == can_play(self@, col as int),
            self.wf() ==> open == (column_height(self@, col as int) < ROWS),
    {
        proof {
            if self.wf() {
                lemma_stacked_column(self@, col as int, Player::Yellow);
            }
        }
        self.grid[0][col].is_none()
    }

    /// Drops a piece of `player` into the column. The piece comes to rest in
    /// the lowest empty cell, whose position is returned; no other cell
    /// changes. A full column leaves the board as it is and gives `None`.
    ///
    /// On a board whose pieces are stacked the piece lands right above the
    /// pieces of its column: in the bottom row if the column is empty, and
    /// one row higher with each piece that is there already.
    pub fn play(&mut self, col: usize, player: Player) -> (pos: Option<(usize, usize)>)
        requires
            col < COLS,
        ensures
            pos == landing(old(self)@, col as int),
            final(self)@ == place(old(self)@, col as int, player),
            old(self).wf() ==> final(self).wf(),
            old(self).wf() && pos is Some ==> pos == Some(
                ((ROWS - 1 - column_height(old(self)@, col as int)) as usize, col),
            ) && column_height(final(self)@, col as int) == column_height(old(self)@, col as int)
                + 1,
    {
        if !self.can_play(col) {
            return None;
        }
        let mut row: usize = ROWS;
        while row > 0
            invariant
                row <= ROWS,
                col < COLS,
                *self == *old(self),
                can_play(self@, col as int),
                forall|r: int| row <= r < ROWS ==> (#[trigger] self@[r])[col as int] is Some,
                lowest_empty_upto(self@, col as int, ROWS - 1) == lowest_empty_upto(
                    self@,
                    col as int,
                    row - 1,
                ),
            decreases row,
        {
            row -= 1;
            assert(self@[row as int][col as int] == self.grid[row as int][col as int]);
            if self.grid[row][col].is_none() {
                self.grid[row][col] = Some(player);
                assert(self@ =~~= with_cell(old(self)@, row as int, col as int, Some(player)));
                proof {
                    if old(self).wf() {
                        lemma_stacked_column(old(self)@, col as int, player);
                        lemma_place_adds_piece(old(self)@, col as int, player);
                    }
                }
                return Some((row, col));
            }
        }
        None
    }

    /// Counts the pieces of `player` that follow the cell (`row`, `col`)
    /// without a gap in the direction (`dr`, `dc`), up to the edge of the
    /// board.
    fn count_run(&self, row: usize, col: usize, dr: i32, dc: i32, player: Player) -> (n: u32)
        requires
            row < ROWS,
            col < COLS,
            -1 <= dr <= 1,
            -1 <= dc <= 1,
            dr != 0 || dc != 0,
        ensures
            n < COLS,
            run_of(self@, row as int, col as int, dr as int, dc as int, player, n as int),
    {
        let mut n: u32 = 0;
        let mut r: i32 = row as i32 + dr;
        let mut c: i32 = col as i32 + dc;
        loop
            invariant
                row < ROWS,
                col < COLS,
                -1 <= dr <= 1,
                -1 <= dc <= 1,
                dr != 0 || dc != 0,
                n < COLS,
                r == row + (n + 1) * dr,
                c == col + (n + 1) * dc,
                n > 0 ==> on_board(r - dr, c - dc),
                forall|k: int|
                    1 <= k <= n ==> #[trigger] holds_at_step(
                        self@,
                        row as int,
                        col as int,
                        dr as int,
                        dc as int,
                        k,
                        player,
                    ),
            ensures
                n < COLS,
                run_of(self@, row as int, col as int, dr as int, dc as int, player, n as int),
            decreases COLS - n,
        {
            if !(0 <= r && r < ROWS as i32 && 0 <= c && c < COLS as i32) {
                break;
            }
            assert(self@[r as int][c as int] == self.grid[r as int][c as int]);
            let same = match self.grid[r as usize][c as usize] {
                Some(p) => p == player,
                None => false,
            };
            if !same {
                break;
            }
            assert(holds_at_step(
                self@,
                row as int,
                col as int,
                dr as int,
                dc as int,
                n + 1,
                player,
            ));
            assert((n + 2) * dr == (n + 1) * dr + dr) by (nonlinear_arith);
            assert((n + 2) * dc == (n + 1) * dc + dc) by (nonlinear_arith);
            assert(n + 1 < COLS) by {
                assert(dr == 0 ==> (n + 1) * dr == 0) by (nonlinear_arith);
                assert(dc == 0 ==> (n + 1) * dc == 0) by (nonlinear_arith);
                assert(dr == 1 ==> (n + 1) * dr == n + 1) by (nonlinear_arith);
                assert(dc == 1 ==> (n + 1) * dc == n + 1) by (nonlinear_arith);
                assert(dr == -1 ==> (n + 1) * dr == -(n + 1)) by (nonlinear_arith);
                assert(dc == -1 ==> (n + 1) * dc == -(n + 1)) by (nonlinear_arith);
            }
            n += 1;
            r += dr;
            c += dc;
        }
        n
    }

    /// Whether the piece of `player` that has just landed at (`row`, `col`)
    /// completes four in a row. The row and both diagonals are searched in
    /// both directions from the cell, the column downwards only: the answer is
    /// meant for the cell of the latest move, above which nothing lies.
    pub fn is_winning_move(&self, row: usize, col: usize, player: Player) -> (won: bool)
        requires
            row < ROWS,
            col < COLS,
        ensures
            won == wins_at(self@, row as int, col as int, player),
    {
        let ghost g = self@;
        let ghost r = row as int;
        let ghost c = col as int;

        let left = self.count_run(row, col, 0, -1, player);
        let right = self.count_run(row, col, 0, 1, player);
        proof {
            lemma_runs_decide_line(g, r, c, 0, 1, player, left as int, right as int);
        }
        if 1 + left + right >= 4 {
            return true;
        }
        let down = self.count_run(row, col, 1, 0, player);
        assert((1 + down >= 4) == three_below(g, r, c, player));
        if 1 + down >= 4 {
            return true;
        }
        let up_left = self.count_run(row, col, -1, -1, player);
        let down_right = self.count_run(row, col, 1, 1, player);
        proof {
            lemma_runs_decide_line(g, r, c, 1, 1, player, up_left as int, down_right as int);
        }
        if 1 + up_left + down_right >= 4 {
            return true;
        }
        let up_right = self.count_run(row, col, -1, 1, player);
        let down_left = self.count_run(row, col, 1, -1, player);
        proof {
            lemma_runs_decide_line(g, r, c, 1, -1, player, up_right as int, down_left as int);
        }
        if 1 + up_right + down_left >= 4 {
            return true;
        }
        false
    }

    /// The winning moves open to `player`: for each playable column, a piece
    /// is dropped on a copy of the board, and where that piece wins its
    /// landing cell is listed. Returns whether there is any such cell, and
    /// the cells in ascending order of column. The board itself is not
    /// touched.
    pub fn immediate_wins(&self, player: Player) -> (found: (bool, Vec<(usize, usize)>))
        ensures
            found.0 == (immediate_wins(self@, player).len() > 0),
            found.1@ == immediate_wins(self@, player),
    {
        let mut cells: Vec<(usize, usize)> = Vec::new();
        let mut col: usize = 0;
        while col < COLS
            invariant
                col <= COLS,
                cells@ == winning_cells(self@, player, col as int),
            decreases COLS - col,
        {
            if self.can_play(col) {
                let mut trial = self.clone();
                match trial.play(col, player) {
                    Some((row, col)) => {
                        proof {
                            lemma_landing_row_on_board(self@, col as int);
                        }
                        if trial.is_winning_move(row, col, player) {
                            cells.push((row, col));
                        }
                    },
                    None => {},
                }
            }
            col += 1;
        }
        (!cells.is_empty(), cells)
    }

    /// The columns that can still be played, in ascending order.
    pub fn playable_columns(&self) -> (cols: Vec<usize>)
        ensures
            cols@ == open_columns(self@),
    {
        let mut cols: Vec<usize> = Vec::new();
        let mut col: usize = 0;
        while col < COLS
            invariant
                col <= COLS,
                cols@ == open_columns_below(self@, col as int),
            decreases COLS - col,
        {
            if self.can_play(col) {
                cols.push(col);
            }
            col += 1;
        }
        cols
    }
}

} // verus!
