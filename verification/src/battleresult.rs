//! The immutable outcome of one decided pairwise confrontation.

use vstd::prelude::*;

use crate::choice::Choice;
use crate::choice::Verb;
use crate::player::Player;

verus! {

/// A directed battle outcome: who won, with which weapon, over whom, and the
/// verb describing what the winning weapon does to the losing one. Two
/// results are equal exactly when all five fields are equal; round resolution
/// deduplicates by that equality.
#[derive(Clone, Copy, PartialEq, Eq, Structural, Debug)]
pub struct BattleResult {
    pub winner: Player,
    pub winner_choice: Choice,
    pub loser: Player,
    pub loser_choice: Choice,
    pub verb: Verb,
}

impl BattleResult {
    /// Materializes a directed result from its five fields.
    pub fn new(winner: Player, winner_choice: Choice, loser: Player, loser_choice: Choice,
        verb: Verb) -> (r: BattleResult)
        ensures
            r == (BattleResult { winner, winner_choice, loser, loser_choice, verb }),
    {
        BattleResult { winner, winner_choice, loser, loser_choice, verb }
    }
}

} // verus!
