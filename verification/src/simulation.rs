//! A match as a state machine, and whole matches played by random choice.

use vstd::prelude::*;
use rand::rngs::StdRng;
use crate::board::Board;
use crate::grid::{
    can_play, empty_grid, immediate_wins, no_move_left, open_columns, pieces, place, well_formed,
    wins_by_playing, Grid, COLS, ROWS,
};
use crate::grid_lemmas::{
    lemma_landing_row_on_board, lemma_open_columns, lemma_piece_bounds, lemma_place_adds_piece,
    lemma_place_well_formed,
};
use crate::player::Player;
use crate::random::random_index;
use crate::record::{replay, MoveRecord};

verus! {

/// Where a match stands. The last two states are final.
#[derive(Clone, Copy, Debug, PartialEq, Eq, Structural)]
pub enum MatchState {
    /// The next move is still to be made.
    InProgress,
    /// The latest move completed four in a row for this side.
    WonBy(Player),
    /// Nobody has won and no column can be played.
    Exhausted,
}

/// The side that makes move number `turn`, counted from 0: Yellow opens and
/// the sides alternate.
pub open spec fn mover(turn: int) -> Player {
    if turn % 2 == 0 {
        Player::Yellow
    } else {
        Player::Red
    }
}

/// The record tells the truth about a move made in turn `turn` on the grid
/// `before`: the right side moved, into a column that could be played, and
/// the winning moves it had before moving are all listed.
pub open spec fn record_fits(rec: MoveRecord, before: Grid, turn: int) -> bool {
    &&& rec.player == mover(turn)
    &&& can_play(before, rec.usr_move as int)
    &&& rec.immediate_win_positions@ == immediate_wins(before, rec.player)
    &&& rec.has_immediate_win == (immediate_wins(before, rec.player).len() > 0)
}

/// The last of the moves completed four in a row.
pub open spec fn ends_in_win(moves: Seq<MoveRecord>) -> bool {
    moves.len() > 0 && wins_by_playing(
        replay(moves.drop_last()),
        moves.last().usr_move as int,
        moves.last().player,
    )
}

/// The moves are those of one match played by the rules, finished or not:
/// each record fits its turn, and no move was made after a winning one.
pub open spec fn legal_match(moves: Seq<MoveRecord>) -> bool
    decreases moves.len(),
{
    if moves.len() == 0 {
        true
    } else {
        let earlier = moves.drop_last();
        &&& legal_match(earlier)
        &&& !ends_in_win(earlier)
        &&& record_fits(moves.last(), replay(earlier), earlier.len() as int)
    }
}

/// The state of a match after the given moves.
pub open spec fn state_after(moves: Seq<MoveRecord>) -> MatchState {
    if ends_in_win(moves) {
        MatchState::WonBy(moves.last().player)
    } else if no_move_left(replay(moves)) {
        MatchState::Exhausted
    } else {
        MatchState::InProgress
    }
}

/// The moves are those of a match played by the rules to its end: the last
/// move won, or no column is left to play.
pub open spec fn finished_match(moves: Seq<MoveRecord>) -> bool {
    legal_match(moves) && !(state_after(moves) is InProgress)
}

/// What a simulator stands for: the moves made so far, the grid they lead
/// to, the state of the match and the side to move.
pub struct MatchView {
    pub moves: Seq<MoveRecord>,
    pub grid: Grid,
    pub state: MatchState,
    pub to_move: Player,
}

/// One match in the making. It starts on an empty board with Yellow to move
/// and takes one column per turn until the match is won or no column is
/// left.
pub struct MatchSimulator {
    board: Board,
    moves: Vec<MoveRecord>,
    current: Player,
    state: MatchState,
}

impl View for MatchSimulator {
    type V = MatchView;

    closed spec fn view(&self) -> MatchView {
        MatchView {
            moves: self.moves@,
            grid: self.board@,
            state: self.state,
            to_move: self.current,
        }
    }
}

impl MatchSimulator {
    /// The moves were made by the rules, and grid, state and side to move
    /// are what the moves lead to.
    pub open spec fn wf(&self) -> bool {
        &&& legal_match(self@.moves)
        &&& self@.grid == replay(self@.moves)
        &&& self@.state == state_after(self@.moves)
        &&& self@.state is InProgress ==> self@.to_move == mover(self@.moves.len() as int)
    }

    /// A match before its first move.
    pub fn new() -> (sim: MatchSimulator)
        ensures
            sim.wf(),
            sim@.moves.len() == 0,
            sim@.grid == empty_grid(),
            sim@.state is InProgress,
            sim@.to_move == Player::Yellow,
    {
        let sim = MatchSimulator {
            board: Board::new(),
            moves: Vec::new(),
            current: Player::Yellow,
            state: MatchState::InProgress,
        };
        assert(can_play(sim@.grid, 0));
        sim
    }

    /// The state of the match.
    pub fn state(&self) -> (state: MatchState)
        ensures
            state == self@.state,
    {
        self.state
    }

    /// The columns that the side to move may choose from, in ascending
    /// order.
    pub fn choices(&self) -> (cols: Vec<usize>)
        ensures
            cols@ == open_columns(self@.grid),
    {
        self.board.playable_columns()
    }

    /// Makes the next move of a match in progress in the given column. The
    /// winning moves that the mover had are recorded first, whether or not
    /// the column is one of them; then the piece is dropped. The match is won
    /// if that piece completes four in a row, exhausted if it filled the last
    /// free cell, and goes on with the other side otherwise.
    pub fn advance(&mut self, col: usize)
        requires
            old(self).wf(),
            old(self)@.state is InProgress,
            can_play(old(self)@.grid, col as int),
        ensures
            final(self).wf(),
            final(self)@.moves.len() == old(self)@.moves.len() + 1,
            final(self)@.moves.drop_last() == old(self)@.moves,
            final(self)@.moves.last().usr_move == col,
            record_fits(
                final(self)@.moves.last(),
                old(self)@.grid,
                old(self)@.moves.len() as int,
            ),
            final(self)@.grid == place(old(self)@.grid, col as int, old(self)@.to_move),
            final(self)@.state == (if wins_by_playing(
                old(self)@.grid,
                col as int,
                old(self)@.to_move,
            ) {
                MatchState::WonBy(old(self)@.to_move)
            } else if no_move_left(final(self)@.grid) {
                MatchState::Exhausted
            } else {
                MatchState::InProgress
            }),
            final(self)@.state is InProgress ==> final(self)@.to_move == old(
                self,
            )@.to_move.opponent(),
    {
        let ghost before = self.moves@;
        let player = self.current;
        let (has_immediate_win, immediate_win_positions) = self.board.immediate_wins(player);
        let (row, col) = self.board.play(col, player).unwrap();
        proof {
            lemma_landing_row_on_board(replay(before), col as int);
        }
        self.moves.push(
            MoveRecord { usr_move: col, has_immediate_win, immediate_win_positions, player },
        );
        assert(self.moves@.drop_last() == before);
        if self.board.is_winning_move(row, col, player) {
            self.state = MatchState::WonBy(player);
        } else if self.board.playable_columns().is_empty() {
            proof {
                lemma_open_columns(self.board@);
            }
            self.state = MatchState::Exhausted;
        } else {
            proof {
                lemma_open_columns(self.board@);
            }
            self.current = player.other();
        }
    }

    /// Ends the simulation and hands out the moves made.
    pub fn into_moves(self) -> (moves: Vec<MoveRecord>)
        ensures
            moves@ == self@.moves,
    {
        self.moves
    }
}

/// A match played by the rules has one piece on the grid for each move.
pub proof fn lemma_one_piece_per_move(moves: Seq<MoveRecord>)
    requires
        legal_match(moves),
    ensures
        well_formed(replay(moves)),
        pieces(replay(moves)) == moves.len(),
        moves.len() <= ROWS * COLS,
    decreases moves.len(),
{
    if moves.len() > 0 {
        let earlier = moves.drop_last();
        lemma_one_piece_per_move(earlier);
        lemma_place_well_formed(replay(earlier), moves.last().usr_move as int, moves.last().player);
        lemma_place_adds_piece(replay(earlier), moves.last().usr_move as int, moves.last().player);
    }
    lemma_piece_bounds(replay(moves));
}

/// Plays one whole match: in each turn one of the playable columns is drawn
/// from `rng`, each with the same chance, until a move wins or no column is
/// left. Returns the moves in order. Whatever is drawn, the moves are those
/// of a match played by the rules to its end, and there are at most 42 of
/// them.
pub fn random_connect4_match(rng: &mut StdRng) -> (moves: Vec<MoveRecord>)
    ensures
        finished_match(moves@),
        0 < moves@.len() <= ROWS * COLS,
{
    let mut sim = MatchSimulator::new();
    while sim.state() == MatchState::InProgress
        invariant
            sim.wf(),
        decreases ROWS * COLS - sim@.moves.len(),
    {
        let valid_cols = sim.choices();
        proof {
            lemma_open_columns(sim@.grid);
            lemma_one_piece_per_move(sim@.moves);
            lemma_piece_bounds(sim@.grid);
        }
        let chosen_index = random_index(rng, valid_cols.len());
        sim.advance(valid_cols[chosen_index]);
    }
    proof {
        lemma_one_piece_per_move(sim@.moves);
    }
    sim.into_moves()
}

} // verus!
