use calculate_winner::{all_moves_valid, compute_winner};

#[test]
fn scenario_rock_vs_paper_computer_wins() {
    assert_eq!(compute_winner(vec![[0, 1]]), 1);
}

#[test]
fn scenario_rock_vs_scissors_player_wins() {
    assert_eq!(compute_winner(vec![[0, 2]]), 0);
}

#[test]
fn scenario_two_ties_is_tie() {
    assert_eq!(compute_winner(vec![[1, 1], [2, 2]]), 2);
}

#[test]
fn scenario_three_player_wins() {
    assert_eq!(compute_winner(vec![[0, 2], [1, 0], [2, 1]]), 0);
}

#[test]
fn empty_game_is_tie() {
    assert_eq!(compute_winner(vec![]), 2);
}

#[test]
fn computing_twice_gives_the_same_outcome() {
    let game = vec![[0, 1], [2, 0], [1, 1], [2, 1]];
    assert_eq!(compute_winner(game.clone()), compute_winner(game));
}

#[test]
fn swapping_every_round_flips_the_outcome() {
    let game = vec![[0, 1], [2, 2], [0, 1]];
    let swapped: Vec<[u32; 2]> = game.iter().map(|r| [r[1], r[0]]).collect();
    assert_eq!(compute_winner(game), 1);
    assert_eq!(compute_winner(swapped), 0);
}

#[test]
fn swapping_every_round_keeps_a_tie() {
    let game = vec![[0, 1], [1, 0], [2, 2]];
    let swapped: Vec<[u32; 2]> = game.iter().map(|r| [r[1], r[0]]).collect();
    assert_eq!(compute_winner(game), 2);
    assert_eq!(compute_winner(swapped), 2);
}

#[test]
fn mixed_game_with_more_computer_wins() {
    assert_eq!(compute_winner(vec![[0, 2], [0, 1], [2, 0], [1, 1]]), 1);
}

#[test]
fn out_of_range_move_scores_for_the_computer() {
    // The engine's documented fallthrough: a move outside {0, 1, 2} never
    // matches a player-beats pair, so the round goes to the computer.
    assert_eq!(compute_winner(vec![[5, 0]]), 1);
    assert_eq!(compute_winner(vec![[0, 7]]), 1);
}

#[test]
fn all_moves_valid_accepts_legal_games() {
    assert!(all_moves_valid(&vec![]));
    assert!(all_moves_valid(&vec![[0, 1], [2, 2], [1, 0]]));
}

#[test]
fn all_moves_valid_rejects_an_illegal_move() {
    assert!(!all_moves_valid(&vec![[0, 1], [3, 0]]));
    assert!(!all_moves_valid(&vec![[0, 4]]));
}
