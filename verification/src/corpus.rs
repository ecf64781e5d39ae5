//! A corpus: matches numbered from 1, the moves alone for a lighter output,
//! and the search for a match by its identifier.

use vstd::prelude::*;
use rand::rngs::StdRng;
use crate::grid::{COLS, ROWS};
use crate::record::{Match, MoveRecord};
use crate::simulation::{finished_match, random_connect4_match};

verus! {

/// The record `bare` is `full` without its list of winning cells: column,
/// flag and side are kept.
pub open spec fn stripped_record(full: MoveRecord, bare: MoveRecord) -> bool {
    &&& bare.usr_move == full.usr_move
    &&& bare.has_immediate_win == full.has_immediate_win
    &&& bare.player == full.player
    &&& bare.immediate_win_positions@.len() == 0
}

/// The moves `bare` are the moves `full`, each without its list of winning
/// cells.
pub open spec fn stripped_moves(full: Seq<MoveRecord>, bare: Seq<MoveRecord>) -> bool {
    &&& bare.len() == full.len()
    &&& forall|j: int| 0 <= j < full.len() ==> stripped_record(full[j], #[trigger] bare[j])
}

/// The matches carry the identifiers 1, 2, 3 and so on, in this order: what
/// a corpus looks like whose matches were made by [`generate_match`], each
/// with its own place as index.
pub open spec fn numbered_from_one(matches: Seq<Match>) -> bool {
    forall|i: int| 0 <= i < matches.len() ==> (#[trigger] matches[i]).id == i + 1
}

/// Plays the match that stands at `index` in a corpus, counted from 0. Its
/// identifier is one more than the index, so that the identifiers of a
/// corpus count from 1 in the order in which the matches were asked for,
/// whichever is finished first.
pub fn generate_match(index: usize, rng: &mut StdRng) -> (m: Match)
    requires
        index < usize::MAX,
    ensures
        m.id == index + 1,
        finished_match(m.moves@),
        0 < m.moves@.len() <= ROWS * COLS,
{
    Match::new(index + 1, random_connect4_match(rng))
}

/// The moves of each match, in the order of the corpus, with every list of
/// winning cells emptied. The flag that says whether there was a winning
/// move stays.
pub fn strip_immediate_win_positions(matches: &[Match]) -> (out: Vec<Vec<MoveRecord>>)
    ensures
        out@.len() == matches@.len(),
        forall|i: int|
            0 <= i < matches@.len() ==> stripped_moves(matches@[i].moves@, (#[trigger] out@[i])@),
{
    let mut out: Vec<Vec<MoveRecord>> = Vec::new();
    let mut i: usize = 0;
    while i < matches.len()
        invariant
            i <= matches@.len(),
            out@.len() == i,
            forall|k: int| 0 <= k < i ==> stripped_moves(matches@[k].moves@, (#[trigger] out@[k])@),
        decreases matches@.len() - i,
    {
        let moves = &matches[i].moves;
        let mut bare: Vec<MoveRecord> = Vec::new();
        let mut j: usize = 0;
        while j < moves.len()
            invariant
                j <= moves@.len(),
                bare@.len() == j,
                forall|k: int| 0 <= k < j ==> stripped_record(moves@[k], #[trigger] bare@[k]),
            decreases moves@.len() - j,
        {
            bare.push(
                MoveRecord {
                    usr_move: moves[j].usr_move,
                    has_immediate_win: moves[j].has_immediate_win,
                    immediate_win_positions: Vec::new(),
                    player: moves[j].player,
                },
            );
            j += 1;
        }
        out.push(bare);
        i += 1;
    }
    out
}

/// Looks for the match with the given identifier, from the front of the
/// corpus: the place of the first such match, or `None` if there is none.
/// The identifier is compared, never the place. In a corpus numbered from 1
/// every identifier from 1 to the number of matches is found, one place
/// before its number, and no other is.
pub fn find_match(matches: &[Match], id: usize) -> (found: Option<usize>)
    ensures
        match found {
            Some(at) => {
                &&& at < matches@.len()
                &&& matches@[at as int].id == id
                &&& forall|k: int| 0 <= k < at ==> (#[trigger] matches@[k]).id != id
            },
            None => forall|k: int| 0 <= k < matches@.len() ==> (#[trigger] matches@[k]).id != id,
        },
        numbered_from_one(matches@) ==> found == (if 1 <= id <= matches@.len() {
            Some((id - 1) as usize)
        } else {
            None
        }),
{
    let mut i: usize = 0;
    while i < matches.len()
        invariant
            i <= matches@.len(),
            forall|k: int| 0 <= k < i ==> (#[trigger] matches@[k]).id != id,
        decreases matches@.len() - i,
    {
        if matches[i].id == id {
            return Some(i);
        }
        i += 1;
    }
    proof {
        if numbered_from_one(matches@) && 1 <= id <= matches@.len() {
            assert(matches@[id - 1].id == id);
        }
    }
    None
}

} // verus!
