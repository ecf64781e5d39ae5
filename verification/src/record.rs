//! What is kept of a match: one record per move, and the matches of a corpus
//! with their identifiers.

use vstd::prelude::*;
use crate::grid::{can_play, column_height, empty_grid, place, stacked, well_formed, Grid, COLS};
use crate::grid_lemmas::{lemma_place_adds_piece, lemma_place_well_formed, lemma_stacked_column};
use crate::player::Player;

verus! {

/// One move of a match, with what the mover could have won with.
#[derive(Clone, Debug)]
pub struct MoveRecord {
    /// The column that was played.
    pub usr_move: usize,
    /// Whether the mover had a winning move before playing.
    pub has_immediate_win: bool,
    /// The cells in which the mover would have won at once, in ascending
    /// order of column.
    pub immediate_win_positions: Vec<(usize, usize)>,
    /// The side that moved.
    pub player: Player,
}

/// A match of a corpus: its moves in order, under an identifier that counts
/// from 1.
#[derive(Clone, Debug)]
pub struct Match {
    pub moves: Vec<MoveRecord>,
    pub id: usize,
}

impl Match {
    /// The match with the given identifier and moves.
    pub fn new(id: usize, moves: Vec<MoveRecord>) -> (m: Match)
        ensures
            m.id == id,
            m.moves == moves,
    {
        Match { id, moves }
    }
}

/// The grid reached from the empty one by playing the recorded columns in
/// order, each for the recorded side. A record whose column cannot be played
/// changes nothing.
pub open spec fn replay(moves: Seq<MoveRecord>) -> Grid
    decreases moves.len(),
{
    if moves.len() == 0 {
        empty_grid()
    } else {
        place(replay(moves.drop_last()), moves.last().usr_move as int, moves.last().player)
    }
}

/// How many of the recorded moves put a piece into the column: those that
/// name it and found it playable.
pub open spec fn placements_in(moves: Seq<MoveRecord>, col: int) -> nat
    decreases moves.len(),
{
    if moves.len() == 0 {
        0
    } else {
        let earlier = moves.drop_last();
        let landed = moves.last().usr_move == col && can_play(replay(earlier), col);
        placements_in(earlier, col) + if landed {
            1nat
        } else {
            0nat
        }
    }
}

/// Whatever moves are replayed from an empty board, the pieces are stacked
/// and each column holds as many pieces as moves were placed in it.
pub proof fn lemma_replay_stacks(moves: Seq<MoveRecord>)
    ensures
        well_formed(replay(moves)),
        stacked(replay(moves)),
        forall|c: int|
            0 <= c < COLS ==> #[trigger] column_height(replay(moves), c) == placements_in(moves, c),
    decreases moves.len(),
{
    if moves.len() > 0 {
        let earlier = moves.drop_last();
        let col = moves.last().usr_move as int;
        let player = moves.last().player;
        lemma_replay_stacks(earlier);
        lemma_place_well_formed(replay(earlier), col, player);
        if can_play(replay(earlier), col) {
            lemma_stacked_column(replay(earlier), col, player);
            lemma_place_adds_piece(replay(earlier), col, player);
        }
        assert forall|c: int| 0 <= c < COLS implies #[trigger] column_height(replay(moves), c)
            == placements_in(moves, c) by {
            assert(column_height(replay(earlier), c) == placements_in(earlier, c));
        }
    }
}

} // verus!
