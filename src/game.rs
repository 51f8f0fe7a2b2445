//! Resolving a round of scissors-paper-stone between a host and an opponent.
use vstd::prelude::*;

verus! {

#[derive(Debug, Clone, Copy, PartialEq, Eq, Structural)]
pub enum Move {
    Scissors,
    Paper,
    Stone,
}

#[derive(Debug, Clone, Copy, PartialEq, Eq, Structural)]
pub enum GameResult {
    Done,
    Draw,
}

/// `a` beats `b`: scissors cut paper, paper wraps stone, stone blunts scissors.
pub open spec fn beats(a: Move, b: Move) -> bool {
    (a == Move::Scissors && b == Move::Paper) || (a == Move::Paper && b == Move::Stone) || (a
        == Move::Stone && b == Move::Scissors)
}

/// The winner of a round: `0` where the host's move wins, `1` where the opponent's
/// move wins, `-1` for a draw.
pub fn resolve_game(move0: Move, move1: Move) -> (r: i8)
    ensures
        r == 0 <==> beats(move0, move1),
        r == 1 <==> beats(move1, move0),
        r == -1 <==> move0 == move1,
{
    match move0 {
        Move::Scissors => match move1 {
            Move::Scissors => -1,
            Move::Paper => 0,
            Move::Stone => 1,
        },
        Move::Paper => match move1 {
            Move::Scissors => 1,
            Move::Paper => -1,
            Move::Stone => 0,
        },
        Move::Stone => match move1 {
            Move::Scissors => 0,
            Move::Paper => 1,
            Move::Stone => -1,
        },
    }
}

/// How a round ends: done with a winner, or a draw that keeps the game open.
pub fn game_result(move0: Move, move1: Move) -> (r: GameResult)
    ensures
        r == GameResult::Draw <==> move0 == move1,
{
    if resolve_game(move0, move1) == -1 {
        GameResult::Draw
    } else {
        GameResult::Done
    }
}

} // verus!
