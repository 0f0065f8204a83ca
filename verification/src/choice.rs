//! The fixed, closed set of playable weapons, the short-code alphabet that
//! names them, and the dominance table deciding which weapon beats which.

use vstd::prelude::*;

verus! {

/// One value from the fixed, closed set of five playable weapons.
#[derive(Clone, Copy, PartialEq, Eq, Structural, Debug)]
pub enum Choice {
    Rock,
    Paper,
    Scissors,
    Lizard,
    Spock,
}

/// Which argument of the dominance table wins a confrontation.
#[derive(Clone, Copy, PartialEq, Eq, Structural, Debug)]
pub enum Side {
    First,
    Second,
}

/// The descriptive verb of a beat-relation: what the winning weapon does to
/// the losing one, independent of argument order.
#[derive(Clone, Copy, PartialEq, Eq, Structural, Debug)]
pub enum Verb {
    Covers,
    Crushes,
    Cuts,
    Decapitates,
    Disproves,
    Eats,
    Poisons,
    Smashes,
    Vaporizes,
}

impl Verb {
    /// The canonical lower-case text of the verb.
    pub open spec fn spec_text(self) -> Seq<char> {
        match self {
            Verb::Covers => "covers"@,
            Verb::Crushes => "crushes"@,
            Verb::Cuts => "cuts"@,
            Verb::Decapitates => "decapitates"@,
            Verb::Disproves => "disproves"@,
            Verb::Eats => "eats"@,
            Verb::Poisons => "poisons"@,
            Verb::Smashes => "smashes"@,
            Verb::Vaporizes => "vaporizes"@,
        }
    }

    /// The canonical lower-case text of the verb.
    pub fn text(&self) -> (r: &'static str)
        ensures
            r@ == self.spec_text(),
    {
        match self {
            Verb::Covers => "covers",
            Verb::Crushes => "crushes",
            Verb::Cuts => "cuts",
            Verb::Decapitates => "decapitates",
            Verb::Disproves => "disproves",
            Verb::Eats => "eats",
            Verb::Poisons => "poisons",
            Verb::Smashes => "smashes",
            Verb::Vaporizes => "vaporizes",
        }
    }
}

/// The fixed dominance table over ordered pairs of weapons: which argument
/// wins, and the verb describing what the winner does to the loser. Equal
/// arguments have no winner.
pub open spec fn spec_dominance(a: Choice, b: Choice) -> Option<(Side, Verb)> {
    match (a, b) {
        (Choice::Rock, Choice::Rock) => None,
        (Choice::Rock, Choice::Paper) => Some((Side::Second, Verb::Covers)),
        (Choice::Rock, Choice::Scissors) => Some((Side::First, Verb::Crushes)),
        (Choice::Rock, Choice::Lizard) => Some((Side::First, Verb::Crushes)),
        (Choice::Rock, Choice::Spock) => Some((Side::Second, Verb::Vaporizes)),
        (Choice::Paper, Choice::Rock) => Some((Side::First, Verb::Covers)),
        (Choice::Paper, Choice::Paper) => None,
        (Choice::Paper, Choice::Scissors) => Some((Side::Second, Verb::Cuts)),
        (Choice::Paper, Choice::Lizard) => Some((Side::Second, Verb::Eats)),
        (Choice::Paper, Choice::Spock) => Some((Side::First, Verb::Disproves)),
        (Choice::Scissors, Choice::Rock) => Some((Side::Second, Verb::Crushes)),
        (Choice::Scissors, Choice::Paper) => Some((Side::First, Verb::Cuts)),
        (Choice::Scissors, Choice::Scissors) => None,
        (Choice::Scissors, Choice::Lizard) => Some((Side::First, Verb::Decapitates)),
        (Choice::Scissors, Choice::Spock) => Some((Side::Second, Verb::Smashes)),
        (Choice::Lizard, Choice::Rock) => Some((Side::Second, Verb::Crushes)),
        (Choice::Lizard, Choice::Paper) => Some((Side::First, Verb::Eats)),
        (Choice::Lizard, Choice::Scissors) => Some((Side::Second, Verb::Decapitates)),
        (Choice::Lizard, Choice::Lizard) => None,
        (Choice::Lizard, Choice::Spock) => Some((Side::First, Verb::Poisons)),
        (Choice::Spock, Choice::Rock) => Some((Side::First, Verb::Vaporizes)),
        (Choice::Spock, Choice::Paper) => Some((Side::Second, Verb::Disproves)),
        (Choice::Spock, Choice::Scissors) => Some((Side::First, Verb::Smashes)),
        (Choice::Spock, Choice::Lizard) => Some((Side::Second, Verb::Poisons)),
        (Choice::Spock, Choice::Spock) => None,
    }
}

/// The dominance table as executable code: exactly `spec_dominance`.
pub fn dominance(a: Choice, b: Choice) -> (r: Option<(Side, Verb)>)
    ensures
        r == spec_dominance(a, b),
{
    match (a, b) {
        (Choice::Rock, Choice::Rock) => None,
        (Choice::Rock, Choice::Paper) => Some((Side::Second, Verb::Covers)),
        (Choice::Rock, Choice::Scissors) => Some((Side::First, Verb::Crushes)),
        (Choice::Rock, Choice::Lizard) => Some((Side::First, Verb::Crushes)),
        (Choice::Rock, Choice::Spock) => Some((Side::Second, Verb::Vaporizes)),
        (Choice::Paper, Choice::Rock) => Some((Side::First, Verb::Covers)),
        (Choice::Paper, Choice::Paper) => None,
        (Choice::Paper, Choice::Scissors) => Some((Side::Second, Verb::Cuts)),
        (Choice::Paper, Choice::Lizard) => Some((Side::Second, Verb::Eats)),
        (Choice::Paper, Choice::Spock) => Some((Side::First, Verb::Disproves)),
        (Choice::Scissors, Choice::Rock) => Some((Side::Second, Verb::Crushes)),
        (Choice::Scissors, Choice::Paper) => Some((Side::First, Verb::Cuts)),
        (Choice::Scissors, Choice::Scissors) => None,
        (Choice::Scissors, Choice::Lizard) => Some((Side::First, Verb::Decapitates)),
        (Choice::Scissors, Choice::Spock) => Some((Side::Second, Verb::Smashes)),
        (Choice::Lizard, Choice::Rock) => Some((Side::Second, Verb::Crushes)),
        (Choice::Lizard, Choice::Paper) => Some((Side::First, Verb::Eats)),
        (Choice::Lizard, Choice::Scissors) => Some((Side::Second, Verb::Decapitates)),
        (Choice::Lizard, Choice::Lizard) => None,
        (Choice::Lizard, Choice::Spock) => Some((Side::First, Verb::Poisons)),
        (Choice::Spock, Choice::Rock) => Some((Side::First, Verb::Vaporizes)),
        (Choice::Spock, Choice::Paper) => Some((Side::Second, Verb::Disproves)),
        (Choice::Spock, Choice::Scissors) => Some((Side::First, Verb::Smashes)),
        (Choice::Spock, Choice::Lizard) => Some((Side::Second, Verb::Poisons)),
        (Choice::Spock, Choice::Spock) => None,
    }
}

/// Law: for distinct weapons the table is total and antisymmetric. Both
/// argument orders yield a result, exactly one of the two orders awards the
/// win to its first argument, and both orders carry the same verb.
pub proof fn lemma_dominance_total_antisymmetric(a: Choice, b: Choice)
    requires
        a != b,
    ensures
        spec_dominance(a, b) is Some,
        spec_dominance(b, a) is Some,
        (spec_dominance(a, b)->Some_0.0 == Side::First) <==> (spec_dominance(b, a)->Some_0.0
            == Side::Second),
        spec_dominance(a, b)->Some_0.1 == spec_dominance(b, a)->Some_0.1,
{
}

/// Law: a weapon never beats itself; equal arguments yield no winner.
pub proof fn lemma_dominance_self_tie(a: Choice)
    ensures
        spec_dominance(a, a) is None,
{
}

/// The weapon a short-code symbol stands for, if any.
pub open spec fn spec_choice_from_char(c: char) -> Option<Choice> {
    match c {
        'r' => Some(Choice::Rock),
        'p' => Some(Choice::Paper),
        's' => Some(Choice::Scissors),
        'l' => Some(Choice::Lizard),
        'S' => Some(Choice::Spock),
        _ => None,
    }
}

/// Maps a short-code symbol to its weapon; every other symbol maps to nothing.
pub fn get_choice_from_char(c: char) -> (r: Option<Choice>)
    ensures
        r == spec_choice_from_char(c),
{
    match c {
        'r' => Some(Choice::Rock),
        'p' => Some(Choice::Paper),
        's' => Some(Choice::Scissors),
        'l' => Some(Choice::Lizard),
        'S' => Some(Choice::Spock),
        _ => None,
    }
}

} // verus!
