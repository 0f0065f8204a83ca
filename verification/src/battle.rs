//! Evaluation of one unordered pair of (player, choice) entries against the
//! dominance table.

use vstd::prelude::*;

use crate::battleresult::BattleResult;
use crate::choice::Choice;
use crate::choice::Side;
use crate::choice::Verb;
use crate::choice::dominance;
use crate::choice::spec_dominance;
use crate::player::Player;

verus! {

/// What evaluating a pair yields: nothing on a tie, otherwise the directed
/// result with winner and loser assigned by the dominance side and carrying
/// the matched verb.
pub open spec fn spec_evaluate(p1: Player, c1: Choice, p2: Player, c2: Choice) -> Option<
    BattleResult,
> {
    match spec_dominance(c1, c2) {
        None => None,
        Some((side, verb)) => Some(
            if side == Side::First {
                BattleResult { winner: p1, winner_choice: c1, loser: p2, loser_choice: c2, verb }
            } else {
                BattleResult { winner: p2, winner_choice: c2, loser: p1, loser_choice: c1, verb }
            },
        ),
    }
}

/// One unordered pair of (player, choice) entries, ready to be evaluated.
pub struct Battle {
    pub player1: Player,
    pub choice1: Choice,
    pub player2: Player,
    pub choice2: Choice,
}

impl Battle {
    /// Pairs two players with their committed choices.
    pub fn new(player1: Player, choice1: Choice, player2: Player, choice2: Choice) -> (r: Battle)
        ensures
            r == (Battle { player1, choice1, player2, choice2 }),
    {
        Battle { player1, choice1, player2, choice2 }
    }

    /// Pairs two players with their committed choices, from references.
    pub fn new_ref(player1: &Player, choice1: &Choice, player2: &Player, choice2: &Choice) -> (r:
        Battle)
        ensures
            r == (Battle {
                player1: *player1,
                choice1: *choice1,
                player2: *player2,
                choice2: *choice2,
            }),
    {
        Self::new(*player1, *choice1, *player2, *choice2)
    }

    /// Evaluates the pair: nothing on a tie, otherwise the directed result.
    pub fn battle(&self) -> (r: Option<BattleResult>)
        ensures
            r == spec_evaluate(self.player1, self.choice1, self.player2, self.choice2),
    {
        match dominance(self.choice1, self.choice2) {
            None => None,
            Some((side, verb)) => match side {
                Side::First => Some(self.win1(verb)),
                Side::Second => Some(self.win2(verb)),
            },
        }
    }

    /// The result when the first entry of the pair wins.
    fn win1(&self, verb: Verb) -> (r: BattleResult)
        ensures
            r == (BattleResult {
                winner: self.player1,
                winner_choice: self.choice1,
                loser: self.player2,
                loser_choice: self.choice2,
                verb,
            }),
    {
        BattleResult::new(self.player1, self.choice1, self.player2, self.choice2, verb)
    }

    /// The result when the second entry of the pair wins.
    fn win2(&self, verb: Verb) -> (r: BattleResult)
        ensures
            r == (BattleResult {
                winner: self.player2,
                winner_choice: self.choice2,
                loser: self.player1,
                loser_choice: self.choice1,
                verb,
            }),
    {
        BattleResult::new(self.player2, self.choice2, self.player1, self.choice1, verb)
    }
}

} // verus!
