//! Verified core of a provable rock-paper-scissors game.
//!
//! Moves are encoded as integers: 0 = rock, 1 = paper, 2 = scissors. A game
//! is an ordered sequence of rounds, each a `[player_move, computer_move]`
//! pair. The outcome engine tallies the rounds and classifies the game as a
//! player win (0), a computer win (1) or a tie (2).

use vstd::prelude::*;

pub mod codec;
pub mod driver;

verus! {

/// True when move `p` beats move `c`: rock blunts scissors, paper wraps
/// rock, scissors cut paper.
pub open spec fn player_beats(p: u32, c: u32) -> bool {
    (p == 0 && c == 2) || (p == 1 && c == 0) || (p == 2 && c == 1)
}

/// The point the player earns from one round: 1 when the moves differ and
/// the player's move beats the computer's, else 0.
pub open spec fn round_player_point(r: [u32; 2]) -> int {
    if r[0] != r[1] && player_beats(r[0], r[1]) {
        1
    } else {
        0
    }
}

/// The point the computer earns from one round: 1 when the moves differ and
/// the player's move does not beat the computer's, else 0. A move outside
/// {0, 1, 2} therefore scores for the computer; see `rounds_valid`.
pub open spec fn round_computer_point(r: [u32; 2]) -> int {
    if r[0] != r[1] && !player_beats(r[0], r[1]) {
        1
    } else {
        0
    }
}

/// Total number of rounds the player won.
pub open spec fn player_score(rounds: Seq<[u32; 2]>) -> int
    decreases rounds.len(),
{
    if rounds.len() == 0 {
        0
    } else {
        player_score(rounds.drop_last()) + round_player_point(rounds.last())
    }
}

/// Total number of rounds the computer won.
pub open spec fn computer_score(rounds: Seq<[u32; 2]>) -> int
    decreases rounds.len(),
{
    if rounds.len() == 0 {
        0
    } else {
        computer_score(rounds.drop_last()) + round_computer_point(rounds.last())
    }
}

/// The outcome of a game: 0 when the player took more rounds, 1 when the
/// computer did, 2 when they tied.
pub open spec fn outcome_of(rounds: Seq<[u32; 2]>) -> u32 {
    if player_score(rounds) == computer_score(rounds) {
        2
    } else if player_score(rounds) > computer_score(rounds) {
        0
    } else {
        1
    }
}

/// A legal move: rock, paper or scissors.
pub open spec fn valid_move(m: u32) -> bool {
    m == 0 || m == 1 || m == 2
}

/// Every round of the game holds two legal moves.
pub open spec fn rounds_valid(rounds: Seq<[u32; 2]>) -> bool {
    forall|i: int|
        0 <= i < rounds.len() ==> valid_move((#[trigger] rounds[i])[0]) && valid_move(rounds[i][1])
}

/// `b` is `a` with the two moves of every round exchanged.
pub open spec fn swapped_rounds(a: Seq<[u32; 2]>, b: Seq<[u32; 2]>) -> bool {
    &&& b.len() == a.len()
    &&& forall|i: int|
        0 <= i < a.len() ==> (#[trigger] b[i])[0] == a[i][1] && b[i][1] == a[i][0]
}

/// The outcome as seen from the other side of the table: player and
/// computer wins exchanged, a tie left alone.
pub open spec fn flipped_outcome(w: u32) -> u32 {
    if w == 0 {
        1
    } else if w == 1 {
        0
    } else {
        w
    }
}

/// Tallies the rounds of a game and classifies the result.
///
/// Returns 0 when the player wins, 1 when the computer wins and 2 on a tie.
/// A round whose moves are equal scores for nobody; a round whose moves
/// differ scores for the player exactly when the player's move beats the
/// computer's, and otherwise for the computer — also when a move lies
/// outside {0, 1, 2}, which is the deliberate fallthrough this contract
/// pins down.
pub fn compute_winner(game_result: Vec<[u32; 2]>) -> (winner: u32)
    ensures
        winner == outcome_of(game_result@),
{
    let mut player_wins: u64 = 0;
    let mut computer_wins: u64 = 0;
    let n = game_result.len();
    for i in 0..n
        invariant
            n == game_result@.len(),
            player_wins == player_score(game_result@.take(i as int)),
            computer_wins == computer_score(game_result@.take(i as int)),
            player_wins + computer_wins <= i,
    {
        let round = game_result[i];
        let player_move = round[0];
        let computer_move = round[1];
        proof {
            assert(game_result@.take(i as int + 1).drop_last() =~= game_result@.take(i as int));
            assert(game_result@.take(i as int + 1).last() == game_result@[i as int]);
        }
        if player_move == computer_move {
            // Tie round: no points.
        } else if (player_move == 0 && computer_move == 2) || (player_move == 1
            && computer_move == 0) || (player_move == 2 && computer_move == 1) {
            player_wins = player_wins + 1;
        } else {
            computer_wins = computer_wins + 1;
        }
    }
    proof {
        assert(game_result@.take(n as int) =~= game_result@);
    }
    if player_wins == computer_wins {
        2
    } else if player_wins > computer_wins {
        0
    } else {
        1
    }
}

/// Decides whether every move of the game is legal; the check behind the
/// invalid-move rejection at the driver's input boundary.
pub fn all_moves_valid(game_result: &Vec<[u32; 2]>) -> (ok: bool)
    ensures
        ok == rounds_valid(game_result@),
{
    let n = game_result.len();
    for i in 0..n
        invariant
            n == game_result@.len(),
            forall|t: int|
                0 <= t < i ==> valid_move((#[trigger] game_result@[t])[0]) && valid_move(
                    game_result@[t][1],
                ),
    {
        let round = game_result[i];
        if round[0] > 2 || round[1] > 2 {
            return false;
        }
    }
    true
}

/// A fresh vector holding the same rounds; the moves are plain integers,
/// so the copy is exact.
pub(crate) fn copy_rounds(game: &Vec<[u32; 2]>) -> (r: Vec<[u32; 2]>)
    ensures
        r@ == game@,
{
    let mut r: Vec<[u32; 2]> = Vec::new();
    let n = game.len();
    for i in 0..n
        invariant
            n == game@.len(),
            r@ == game@.take(i as int),
    {
        r.push(game[i]);
        proof {
            assert(r@ =~= game@.take(i as int + 1));
        }
    }
    proof {
        assert(game@.take(n as int) =~= game@);
    }
    r
}

/// Determinism law: the outcome is a function of the rounds alone, so two
/// results computed from the same game — as `compute_winner`'s contract
/// pins each result to be — are the same.
pub proof fn lemma_compute_winner_deterministic(rounds: Seq<[u32; 2]>, w1: u32, w2: u32)
    requires
        w1 == outcome_of(rounds),
        w2 == outcome_of(rounds),
    ensures
        w1 == w2,
{
}

proof fn lemma_swapped_scores(a: Seq<[u32; 2]>, b: Seq<[u32; 2]>)
    requires
        rounds_valid(a),
        swapped_rounds(a, b),
    ensures
        player_score(b) == computer_score(a),
        computer_score(b) == player_score(a),
    decreases a.len(),
{
    if a.len() > 0 {
        assert(rounds_valid(a.drop_last())) by {
            assert(forall|i: int|
                0 <= i < a.len() - 1 ==> a.drop_last()[i] == a[i]);
        }
        assert(swapped_rounds(a.drop_last(), b.drop_last())) by {
            assert(forall|i: int|
                0 <= i < a.len() - 1 ==> a.drop_last()[i] == a[i] && b.drop_last()[i] == b[i]);
        }
        lemma_swapped_scores(a.drop_last(), b.drop_last());
        assert(a[a.len() - 1] == a.last());
        assert(b[a.len() - 1] == b.last());
    }
}

/// Mirror law: exchanging the two moves of every round of a game with
/// legal moves flips a player win into a computer win and back, and keeps
/// a tie a tie.
pub proof fn lemma_swapped_game_flips_outcome(a: Seq<[u32; 2]>, b: Seq<[u32; 2]>)
    requires
        rounds_valid(a),
        swapped_rounds(a, b),
    ensures
        outcome_of(b) == flipped_outcome(outcome_of(a)),
{
    lemma_swapped_scores(a, b);
}

} // verus!
