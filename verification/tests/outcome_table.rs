use rpsls::choice::Choice;
use rpsls::choice::Side;
use rpsls::choice::Verb;
use rpsls::choice::dominance;
use rpsls::choice::get_choice_from_char;

const ALL: [Choice; 5] = [Choice::Rock, Choice::Paper, Choice::Scissors, Choice::Lizard, Choice::Spock];

#[test]
fn self_pairs_yield_no_winner() {
    for c in ALL {
        assert_eq!(dominance(c, c), None);
    }
}

#[test]
fn distinct_pairs_are_total_and_antisymmetric() {
    for a in ALL {
        for b in ALL {
            if a != b {
                let (side_ab, verb_ab) = dominance(a, b).expect("distinct pair must decide");
                let (side_ba, verb_ba) = dominance(b, a).expect("distinct pair must decide");
                assert_eq!(verb_ab, verb_ba);
                assert_eq!(side_ab == Side::First, side_ba == Side::Second);
            }
        }
    }
}

#[test]
fn each_choice_beats_exactly_two() {
    for a in ALL {
        let mut wins = 0;
        for b in ALL {
            if a != b {
                if let Some((Side::First, _)) = dominance(a, b) {
                    wins += 1;
                }
            }
        }
        assert_eq!(wins, 2);
    }
}

#[test]
fn full_table_matches_the_canonical_relations() {
    let beats = [
        (Choice::Paper, Verb::Covers, Choice::Rock),
        (Choice::Rock, Verb::Crushes, Choice::Scissors),
        (Choice::Rock, Verb::Crushes, Choice::Lizard),
        (Choice::Spock, Verb::Vaporizes, Choice::Rock),
        (Choice::Scissors, Verb::Cuts, Choice::Paper),
        (Choice::Lizard, Verb::Eats, Choice::Paper),
        (Choice::Paper, Verb::Disproves, Choice::Spock),
        (Choice::Scissors, Verb::Decapitates, Choice::Lizard),
        (Choice::Spock, Verb::Smashes, Choice::Scissors),
        (Choice::Lizard, Verb::Poisons, Choice::Spock),
    ];
    for (winner, verb, loser) in beats {
        assert_eq!(dominance(winner, loser), Some((Side::First, verb)));
        assert_eq!(dominance(loser, winner), Some((Side::Second, verb)));
    }
}

#[test]
fn verbs_render_their_canonical_text() {
    assert_eq!(Verb::Covers.text(), "covers");
    assert_eq!(Verb::Crushes.text(), "crushes");
    assert_eq!(Verb::Cuts.text(), "cuts");
    assert_eq!(Verb::Decapitates.text(), "decapitates");
    assert_eq!(Verb::Disproves.text(), "disproves");
    assert_eq!(Verb::Eats.text(), "eats");
    assert_eq!(Verb::Poisons.text(), "poisons");
    assert_eq!(Verb::Smashes.text(), "smashes");
    assert_eq!(Verb::Vaporizes.text(), "vaporizes");
}

#[test]
fn short_codes_map_to_their_weapons() {
    assert_eq!(get_choice_from_char('r'), Some(Choice::Rock));
    assert_eq!(get_choice_from_char('p'), Some(Choice::Paper));
    assert_eq!(get_choice_from_char('s'), Some(Choice::Scissors));
    assert_eq!(get_choice_from_char('l'), Some(Choice::Lizard));
    assert_eq!(get_choice_from_char('S'), Some(Choice::Spock));
    assert_eq!(get_choice_from_char('x'), None);
    assert_eq!(get_choice_from_char('R'), None);
    assert_eq!(get_choice_from_char(' '), None);
}
