use rpsls::battle::Battle;
use rpsls::battleresult::BattleResult;
use rpsls::choice::Choice;
use rpsls::choice::Verb;
use rpsls::game::Game;
use rpsls::player::Player;
use rpsls::registry::SessionId;

fn fresh_game(rounds: u64) -> Game {
    Game::new(SessionId { nonce: 0, serial: 0 }, rounds)
}

#[test]
fn battle_evaluates_pairs() {
    let a = Player::new(1);
    let b = Player::new(2);
    let won = Battle::new(a, Choice::Rock, b, Choice::Scissors).battle().unwrap();
    assert_eq!(
        won,
        BattleResult::new(a, Choice::Rock, b, Choice::Scissors, Verb::Crushes)
    );
    let lost = Battle::new_ref(&a, &Choice::Rock, &b, &Choice::Paper).battle().unwrap();
    assert_eq!(lost.winner, b);
    assert_eq!(lost.loser, a);
    assert_eq!(lost.verb, Verb::Covers);
    assert_eq!(Battle::new(a, Choice::Spock, b, Choice::Spock).battle(), None);
}

#[test]
fn joining_twice_fails() {
    let mut g = fresh_game(1);
    let a = Player::new(7);
    assert!(g.add_player(&a));
    assert!(!g.add_player(&a));
    assert_eq!(g.get_player_count(), 1);
}

#[test]
fn joining_after_start_fails_and_changes_nothing() {
    let mut g = fresh_game(1);
    assert!(g.add_player(&Player::new(1)));
    assert!(g.add_player(&Player::new(2)));
    assert!(g.start_round());
    assert!(!g.add_player(&Player::new(3)));
    assert_eq!(g.get_player_count(), 2);
}

#[test]
fn starting_needs_two_players() {
    let mut g = fresh_game(1);
    assert!(!g.start_round());
    assert!(g.add_player(&Player::new(1)));
    assert!(!g.start_round());
    assert!(!g.is_started());
    assert!(g.add_player(&Player::new(2)));
    assert!(g.start_round());
    assert!(g.is_started());
    assert!(!g.start_round());
}

#[test]
fn submissions_before_start_are_ignored() {
    let mut g = fresh_game(1);
    let a = Player::new(1);
    g.add_player(&a);
    g.add_player(&Player::new(2));
    g.submit_choice(&a, 'r');
    assert_eq!(g.get_finished_players(), 0);
}

#[test]
fn unknown_players_and_symbols_are_ignored() {
    let mut g = fresh_game(1);
    let a = Player::new(1);
    let b = Player::new(2);
    g.add_player(&a);
    g.add_player(&b);
    g.start_round();
    g.submit_choice(&Player::new(99), 'r');
    assert_eq!(g.get_finished_players(), 0);
    g.submit_choice(&a, 'q');
    assert_eq!(g.get_finished_players(), 0);
    g.submit_choice(&a, 'r');
    assert_eq!(g.get_finished_players(), 1);
    assert!(!g.did_all_choose());
    g.submit_choice(&b, 'p');
    assert!(g.did_all_choose());
}

#[test]
fn resubmitting_the_same_choice_changes_nothing() {
    let mut g = fresh_game(1);
    let a = Player::new(1);
    let b = Player::new(2);
    g.add_player(&a);
    g.add_player(&b);
    g.start_round();
    g.submit_choice(&a, 'r');
    g.submit_choice(&a, 'r');
    assert_eq!(g.get_finished_players(), 1);
    g.submit_choice(&b, 's');
    let report = g.resolve_round();
    assert_eq!(report.results.len(), 1);
    assert_eq!(report.results[0].winner, a);
    assert_eq!(report.results[0].verb, Verb::Crushes);
}

#[test]
fn last_submission_wins() {
    let mut g = fresh_game(1);
    let a = Player::new(1);
    let b = Player::new(2);
    g.add_player(&a);
    g.add_player(&b);
    g.start_round();
    g.submit_choice(&a, 'r');
    g.submit_choice(&a, 'p');
    g.submit_choice(&b, 's');
    let report = g.resolve_round();
    assert_eq!(report.results.len(), 1);
    assert_eq!(report.results[0].winner, b);
    assert_eq!(report.results[0].verb, Verb::Cuts);
}

#[test]
fn committed_choices_never_outnumber_players() {
    let mut g = fresh_game(2);
    let a = Player::new(1);
    let b = Player::new(2);
    g.add_player(&a);
    g.add_player(&b);
    g.start_round();
    assert!(g.get_finished_players() <= g.get_player_count());
    g.submit_choice(&a, 'r');
    g.submit_choice(&a, 'p');
    g.submit_choice(&b, 'l');
    assert!(g.get_finished_players() <= g.get_player_count());
    g.resolve_round();
    assert!(g.get_finished_players() <= g.get_player_count());
    assert_eq!(g.get_finished_players(), 0);
}

#[test]
fn all_tie_round_yields_no_results_and_no_points() {
    let mut g = fresh_game(1);
    let a = Player::new(1);
    let b = Player::new(2);
    let c = Player::new(3);
    g.add_player(&a);
    g.add_player(&b);
    g.add_player(&c);
    g.start_round();
    g.submit_choice(&a, 'l');
    g.submit_choice(&b, 'l');
    assert_eq!(g.did_all_choose_same(), Some(Choice::Lizard));
    g.submit_choice(&c, 'l');
    assert_eq!(g.did_all_choose_same(), Some(Choice::Lizard));
    let report = g.resolve_round();
    assert!(report.all_tied);
    assert_eq!(report.tied_choice, Some(Choice::Lizard));
    assert_eq!(report.results.len(), 0);
    assert_eq!(report.leaderboard, vec![(a, 0), (b, 0), (c, 0)]);
}

#[test]
fn rock_scissors_paper_triangle_scores_one_each() {
    let mut g = fresh_game(1);
    let a = Player::new(1);
    let b = Player::new(2);
    let c = Player::new(3);
    g.add_player(&a);
    g.add_player(&b);
    g.add_player(&c);
    g.start_round();
    g.submit_choice(&a, 'r');
    g.submit_choice(&b, 's');
    g.submit_choice(&c, 'p');
    assert_eq!(g.did_all_choose_same(), None);
    let report = g.resolve_round();
    assert!(!report.all_tied);
    assert_eq!(report.tied_choice, None);
    let a_beats_b = BattleResult::new(a, Choice::Rock, b, Choice::Scissors, Verb::Crushes);
    let c_beats_a = BattleResult::new(c, Choice::Paper, a, Choice::Rock, Verb::Covers);
    let b_beats_c = BattleResult::new(b, Choice::Scissors, c, Choice::Paper, Verb::Cuts);
    // Pair enumeration runs in join order: (a,b), (a,c), (b,c).
    assert_eq!(report.results, vec![a_beats_b, c_beats_a, b_beats_c]);
    // Everyone won exactly once; ties stand in join order.
    assert_eq!(report.leaderboard, vec![(a, 1), (b, 1), (c, 1)]);
}

#[test]
fn interactions_are_deduplicated_by_value_equality() {
    let mut g = fresh_game(1);
    let a = Player::new(1);
    let b = Player::new(2);
    let c = Player::new(3);
    g.add_player(&a);
    g.add_player(&b);
    g.add_player(&c);
    g.start_round();
    g.submit_choice(&a, 'r');
    g.submit_choice(&b, 'r');
    g.submit_choice(&c, 's');
    // Pairs: (a,b) tie, (a,c) and (b,c) decided; winners differ, so
    // full-field equality keeps both.
    let results = g.get_all_interactions();
    assert_eq!(results.len(), 2);
    assert_eq!(
        results[0],
        BattleResult::new(a, Choice::Rock, c, Choice::Scissors, Verb::Crushes)
    );
    assert_eq!(
        results[1],
        BattleResult::new(b, Choice::Rock, c, Choice::Scissors, Verb::Crushes)
    );
}

#[test]
fn leaderboard_sorts_points_descending_with_join_order_ties() {
    let mut g = fresh_game(2);
    let a = Player::new(10);
    let b = Player::new(20);
    let c = Player::new(30);
    g.add_player(&a);
    g.add_player(&b);
    g.add_player(&c);
    g.start_round();
    // Round 1: b's rock beats a's scissors and c's lizard; a's scissors
    // decapitate c's lizard.
    g.submit_choice(&a, 's');
    g.submit_choice(&b, 'r');
    g.submit_choice(&c, 'l');
    let report = g.resolve_round();
    assert_eq!(report.leaderboard, vec![(b, 2), (a, 1), (c, 0)]);
    // Round 2: all tie; points and ordering stay, ties in join order.
    g.submit_choice(&a, 'S');
    g.submit_choice(&b, 'S');
    g.submit_choice(&c, 'S');
    let report = g.resolve_round();
    assert!(report.all_tied);
    assert_eq!(report.leaderboard, vec![(b, 2), (a, 1), (c, 0)]);
}

#[test]
fn rounds_advance_until_done() {
    let mut g = fresh_game(2);
    let a = Player::new(1);
    let b = Player::new(2);
    g.add_player(&a);
    g.add_player(&b);
    g.start_round();
    assert_eq!(g.get_round(), 1);
    assert_eq!(g.get_rounds(), 2);
    g.submit_choice(&a, 'r');
    g.submit_choice(&b, 'p');
    g.resolve_round();
    assert!(!g.is_done());
    assert_eq!(g.get_round(), 2);
    assert!(g.is_started());
    assert_eq!(g.get_finished_players(), 0);
    g.submit_choice(&a, 'r');
    g.submit_choice(&b, 'p');
    let report = g.resolve_round();
    assert!(g.is_done());
    assert_eq!(report.leaderboard, vec![(b, 2), (a, 0)]);
}
