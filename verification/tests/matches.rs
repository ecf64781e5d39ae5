#![allow(deprecated)]

use connect4::corpus::{find_match, generate_match, strip_immediate_win_positions};
use connect4::simulation::{random_connect4_match, MatchSimulator, MatchState};
use connect4::{Board, Match, MoveRecord, Player};
use rand::rngs::mock::StepRng;
use rand::rngs::StdRng;
use rand::{Rng, SeedableRng};

/// A match that fills the board without a winner.
const DRAW: [usize; 42] = [
    4, 3, 6, 0, 1, 4, 5, 5, 1, 1, 5, 0, 1, 6, 0, 1, 5, 5, 1, 0, 4, 6, 3, 2, 6, 6, 0, 4, 6, 5, 2, 0,
    4, 2, 4, 2, 2, 2, 3, 3, 3, 3,
];

fn check_finished_match(moves: &[MoveRecord]) {
    assert!(!moves.is_empty());
    assert!(moves.len() <= 42);
    let mut board = Board::new();
    let mut player = Player::Yellow;
    for (turn, m) in moves.iter().enumerate() {
        assert_eq!(m.player, player);
        assert!(m.usr_move < 7);
        assert!(board.can_play(m.usr_move));
        let (found, cells) = board.immediate_wins(player);
        assert_eq!(m.has_immediate_win, found);
        assert_eq!(m.immediate_win_positions, cells);
        let (row, col) = board.play(m.usr_move, player).unwrap();
        let won = board.is_winning_move(row, col, player);
        assert_eq!(won, m.immediate_win_positions.contains(&(row, col)));
        if turn + 1 < moves.len() {
            assert!(!won);
        } else if won {
            assert!(m.has_immediate_win);
        } else {
            assert_eq!(moves.len(), 42);
            assert!(board.playable_columns().is_empty());
        }
        player = player.other();
    }
    let replayed = Board::replay(moves);
    for row in 0..6 {
        for col in 0..7 {
            assert_eq!(replayed.cell(row, col), board.cell(row, col));
        }
    }
}

#[test]
fn test_random_match() {
    // Use a deterministic RNG for testing
    let mut rng = StdRng::seed_from_u64(42);
    let moves = random_connect4_match(&mut rng);

    // Verify match terminates with a win or draw
    let mut board = Board::new();
    let mut last_pos = None;
    let mut last_player = Player::Yellow;

    for m in &moves {
        last_pos = board.play(m.usr_move, m.player);
        last_player = m.player;
    }

    if let Some((row, col)) = last_pos {
        // Either it's a win or the board is full
        let is_win = board.is_winning_move(row, col, last_player);

        if !is_win {
            // If not a win, board should be full or have no valid moves
            let valid_moves = (0..7).filter(|&col| board.can_play(col)).count();
            assert_eq!(valid_moves, 0);
        }
    }
}

#[test]
fn random_matches_are_played_by_the_rules_to_their_end() {
    for seed in 0..200 {
        let mut rng = StdRng::seed_from_u64(seed);
        let moves = random_connect4_match(&mut rng);
        check_finished_match(&moves);
    }
}

#[test]
fn the_same_seed_gives_the_same_match() {
    let first = random_connect4_match(&mut StdRng::seed_from_u64(7));
    let second = random_connect4_match(&mut StdRng::seed_from_u64(7));
    let columns = |moves: &[MoveRecord]| moves.iter().map(|m| m.usr_move).collect::<Vec<_>>();
    assert_eq!(columns(&first), columns(&second));
}

#[test]
fn random_matches_use_more_than_one_column() {
    let mut seen = [false; 7];
    for seed in 0..50 {
        let mut rng = StdRng::seed_from_u64(seed);
        for m in random_connect4_match(&mut rng) {
            seen[m.usr_move] = true;
        }
    }
    assert_eq!(seen, [true; 7]);
}

#[test]
fn a_source_that_steps_from_42_fills_the_columns_from_the_left() {
    let mut rng = StepRng::new(42, 1);
    let mut sim = MatchSimulator::new();
    while sim.state() == MatchState::InProgress {
        let cols = sim.choices();
        assert!(!cols.is_empty());
        let chosen = rng.random_range(0..cols.len());
        sim.advance(cols[chosen]);
    }
    assert_eq!(sim.state(), MatchState::WonBy(Player::Yellow));
    let moves = sim.into_moves();
    let columns: Vec<usize> = moves.iter().map(|m| m.usr_move).collect();
    assert_eq!(columns, vec![0, 0, 0, 0, 0, 0, 1, 1, 1, 1, 1, 1, 2, 2, 2, 2, 2, 2, 3]);
    // Yellow could win from its third piece in the bottom row on, and passes
    // twice before it does.
    for (turn, m) in moves.iter().enumerate() {
        let open = turn == 14 || turn == 16 || turn == 18;
        assert_eq!(m.has_immediate_win, open);
        assert_eq!(m.immediate_win_positions, if open { vec![(5, 3)] } else { vec![] });
    }
    check_finished_match(&moves);
}

#[test]
fn a_new_match_is_in_progress_with_all_columns_to_choose_from() {
    let sim = MatchSimulator::new();
    assert_eq!(sim.state(), MatchState::InProgress);
    assert_eq!(sim.choices(), vec![0, 1, 2, 3, 4, 5, 6]);
    assert!(sim.into_moves().is_empty());
}

#[test]
fn a_match_without_a_winner_ends_when_the_board_is_full() {
    let mut sim = MatchSimulator::new();
    for (turn, col) in DRAW.into_iter().enumerate() {
        assert_eq!(sim.state(), MatchState::InProgress, "turn {}", turn);
        assert!(sim.choices().contains(&col));
        sim.advance(col);
    }
    assert_eq!(sim.state(), MatchState::Exhausted);
    assert!(sim.choices().is_empty());
    let moves = sim.into_moves();
    assert_eq!(moves.len(), 42);
    check_finished_match(&moves);
    // Winning moves that were passed over are on record.
    assert!(!moves[14].has_immediate_win);
    assert!(moves[15].has_immediate_win);
    assert_eq!(moves[15].immediate_win_positions, vec![(4, 3)]);
    assert_eq!(moves[32].immediate_win_positions, vec![(3, 2)]);
    assert_eq!(moves[37].immediate_win_positions, vec![(3, 3)]);
    assert!(!moves[41].has_immediate_win);
    let with_wins = moves.iter().filter(|m| m.has_immediate_win).count();
    assert_eq!(with_wins, 9);
}

#[test]
fn the_winning_move_ends_the_match_at_once() {
    let mut sim = MatchSimulator::new();
    for col in [0, 6, 1, 6, 2, 6] {
        sim.advance(col);
        assert_eq!(sim.state(), MatchState::InProgress);
    }
    // Both sides have three in a line now; Yellow moves and takes the win.
    sim.advance(3);
    assert_eq!(sim.state(), MatchState::WonBy(Player::Yellow));
    let moves = sim.into_moves();
    assert_eq!(moves.len(), 7);
    assert_eq!(moves[5].player, Player::Red);
    assert_eq!(moves[5].immediate_win_positions, vec![]);
    assert_eq!(moves[6].player, Player::Yellow);
    assert!(moves[6].has_immediate_win);
    assert_eq!(moves[6].immediate_win_positions, vec![(5, 3)]);
    check_finished_match(&moves);
}

#[test]
fn a_winning_move_that_is_passed_over_stays_on_record() {
    let mut sim = MatchSimulator::new();
    for col in [0, 6, 1, 6, 2, 6, 4] {
        sim.advance(col);
    }
    assert_eq!(sim.state(), MatchState::InProgress);
    sim.advance(6);
    assert_eq!(sim.state(), MatchState::WonBy(Player::Red));
    let moves = sim.into_moves();
    assert!(moves[6].has_immediate_win);
    assert_eq!(moves[6].immediate_win_positions, vec![(5, 3)]);
    assert_eq!(moves[6].usr_move, 4);
    assert!(moves[7].has_immediate_win);
    assert_eq!(moves[7].immediate_win_positions, vec![(2, 6)]);
}

#[test]
fn replay_rebuilds_the_board_move_by_move() {
    let moves: Vec<MoveRecord> = DRAW
        .iter()
        .enumerate()
        .map(|(turn, &col)| MoveRecord {
            usr_move: col,
            has_immediate_win: false,
            immediate_win_positions: Vec::new(),
            player: if turn % 2 == 0 { Player::Yellow } else { Player::Red },
        })
        .collect();
    let mut board = Board::new();
    let empty = Board::replay(&moves[..0]);
    for row in 0..6 {
        for col in 0..7 {
            assert_eq!(empty.cell(row, col), None);
        }
    }
    for (turn, m) in moves.iter().enumerate() {
        board.play(m.usr_move, m.player);
        let replayed = Board::replay(&moves[..turn + 1]);
        for row in 0..6 {
            for col in 0..7 {
                assert_eq!(replayed.cell(row, col), board.cell(row, col));
            }
        }
    }
    assert!(Board::replay(&moves).playable_columns().is_empty());
}

#[test]
fn replay_passes_over_a_move_into_a_full_column() {
    let moves: Vec<MoveRecord> = (0..8)
        .map(|_| MoveRecord {
            usr_move: 5,
            has_immediate_win: true,
            immediate_win_positions: vec![(0, 0)],
            player: Player::Red,
        })
        .collect();
    let board = Board::replay(&moves);
    for row in 0..6 {
        for col in 0..7 {
            assert_eq!(board.cell(row, col), if col == 5 { Some(Player::Red) } else { None });
        }
    }
}

#[test]
fn a_generated_match_is_numbered_from_one() {
    let mut rng = StdRng::seed_from_u64(3);
    let first = generate_match(0, &mut rng);
    assert_eq!(first.id, 1);
    check_finished_match(&first.moves);
    let later = generate_match(36, &mut rng);
    assert_eq!(later.id, 37);
    check_finished_match(&later.moves);
}

#[test]
fn a_match_keeps_its_identifier_and_moves() {
    let moves = random_connect4_match(&mut StdRng::seed_from_u64(11));
    let columns: Vec<usize> = moves.iter().map(|m| m.usr_move).collect();
    let m = Match::new(5, moves);
    assert_eq!(m.id, 5);
    assert_eq!(m.moves.iter().map(|m| m.usr_move).collect::<Vec<_>>(), columns);
    let empty = Match::new(1, Vec::new());
    assert_eq!(empty.id, 1);
    assert!(empty.moves.is_empty());
}

#[test]
fn stripping_empties_the_lists_and_keeps_the_rest() {
    let mut rng = StdRng::seed_from_u64(5);
    let corpus: Vec<Match> = (0..20).map(|i| generate_match(i, &mut rng)).collect();
    assert!(corpus.iter().any(|m| m.moves.iter().any(|r| !r.immediate_win_positions.is_empty())));
    let bare = strip_immediate_win_positions(&corpus);
    assert_eq!(bare.len(), corpus.len());
    for (full, stripped) in corpus.iter().zip(&bare) {
        assert_eq!(full.moves.len(), stripped.len());
        for (a, b) in full.moves.iter().zip(stripped) {
            assert_eq!(b.usr_move, a.usr_move);
            assert_eq!(b.has_immediate_win, a.has_immediate_win);
            assert_eq!(b.player, a.player);
            assert!(b.immediate_win_positions.is_empty());
        }
    }
    assert!(strip_immediate_win_positions(&[]).is_empty());
}

#[test]
fn a_match_is_found_by_its_identifier_not_its_place() {
    let corpus: Vec<Match> =
        [4usize, 9, 1, 9, 3].into_iter().map(|id| Match::new(id, Vec::new())).collect();
    assert_eq!(find_match(&corpus, 4), Some(0));
    assert_eq!(find_match(&corpus, 9), Some(1));
    assert_eq!(find_match(&corpus, 1), Some(2));
    assert_eq!(find_match(&corpus, 3), Some(4));
    assert_eq!(find_match(&corpus, 0), None);
    assert_eq!(find_match(&corpus, 2), None);
    assert_eq!(find_match(&corpus, 5), None);
    assert_eq!(find_match(&[], 1), None);
}

#[test]
fn the_last_match_of_a_corpus_is_found() {
    let mut rng = StdRng::seed_from_u64(9);
    let corpus: Vec<Match> = (0..5).map(|i| generate_match(i, &mut rng)).collect();
    for id in 1..=5 {
        assert_eq!(find_match(&corpus, id), Some(id - 1));
    }
    assert_eq!(find_match(&corpus, 6), None);
}
