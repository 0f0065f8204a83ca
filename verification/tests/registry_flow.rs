use rpsls::player::Player;
use rpsls::registry::Registry;
use rpsls::registry::SessionId;

#[test]
fn created_ids_are_distinct() {
    let mut reg = Registry::new();
    let mut ids: Vec<SessionId> = Vec::new();
    for _ in 0..20 {
        ids.push(reg.new_game(1).expect("creation must succeed"));
    }
    assert_eq!(reg.session_count(), 20);
    for i in 0..ids.len() {
        for j in 0..ids.len() {
            if i != j {
                assert_ne!(ids[i], ids[j]);
            }
        }
    }
}

#[test]
fn lookup_and_delete_report_presence() {
    let mut reg = Registry::new();
    let id = reg.new_game(3).unwrap();
    assert!(reg.contains_session(id));
    let game = reg.get_game(id).expect("created session must be stored");
    assert_eq!(game.get_rounds(), 3);
    assert_eq!(game.get_player_count(), 0);
    assert!(!reg.is_session_finished(id));
    assert!(reg.delete_game(id));
    assert!(!reg.contains_session(id));
    assert!(!reg.delete_game(id));
    assert!(reg.get_game(id).is_none());
}

#[test]
fn unknown_ids_are_rejected_everywhere() {
    let mut reg = Registry::new();
    let ghost_id = SessionId { nonce: 5, serial: 99 };
    assert!(!reg.contains_session(ghost_id));
    assert!(!reg.join_session(ghost_id, Player::new(1)));
    assert!(!reg.start_session(ghost_id));
    assert!(reg.submit_choice(ghost_id, Player::new(1), 'r').is_none());
    assert!(!reg.is_session_finished(ghost_id));
    assert!(!reg.delete_game(ghost_id));
}

#[test]
fn registry_enforces_the_session_rules() {
    let mut reg = Registry::new();
    let id = reg.new_game(1).unwrap();
    let a = Player::new(1);
    let b = Player::new(2);
    assert!(reg.join_session(id, a));
    assert!(!reg.join_session(id, a));
    assert!(!reg.start_session(id));
    assert!(reg.join_session(id, b));
    assert!(reg.start_session(id));
    assert!(!reg.join_session(id, Player::new(3)));
    assert_eq!(reg.get_game(id).unwrap().get_player_count(), 2);
}

#[test]
fn completing_the_last_round_removes_the_session() {
    let mut reg = Registry::new();
    let id = reg.new_game(2).unwrap();
    let a = Player::new(1);
    let b = Player::new(2);
    reg.join_session(id, a);
    reg.join_session(id, b);
    reg.start_session(id);
    // Round 1 resolves on the last submission; the session stays.
    assert!(reg.submit_choice(id, a, 'r').is_none());
    let report = reg.submit_choice(id, b, 's').expect("last submission resolves");
    assert!(!report.all_tied);
    assert_eq!(report.results.len(), 1);
    assert_eq!(report.results[0].winner, a);
    assert_eq!(report.leaderboard, vec![(a, 1), (b, 0)]);
    assert!(reg.contains_session(id));
    assert!(!reg.is_session_finished(id));
    assert_eq!(reg.get_game(id).unwrap().get_round(), 2);
    assert_eq!(reg.get_game(id).unwrap().get_finished_players(), 0);
    assert!(reg.get_game(id).unwrap().is_started());
    // Round 2 resolves and the session is removed from the registry.
    assert!(reg.submit_choice(id, b, 'p').is_none());
    let report = reg.submit_choice(id, a, 'S').expect("last submission resolves");
    assert_eq!(report.results[0].winner, b);
    assert_eq!(report.leaderboard, vec![(a, 1), (b, 1)]);
    assert!(!reg.contains_session(id));
    assert!(reg.submit_choice(id, a, 'r').is_none());
}

#[test]
fn late_submissions_apply_to_the_next_round() {
    let mut reg = Registry::new();
    let id = reg.new_game(2).unwrap();
    let a = Player::new(1);
    let b = Player::new(2);
    reg.join_session(id, a);
    reg.join_session(id, b);
    reg.start_session(id);
    reg.submit_choice(id, a, 'r');
    assert!(reg.submit_choice(id, b, 'p').is_some());
    // The resolved round's map was cleared atomically; this lands in round 2.
    assert!(reg.submit_choice(id, a, 'l').is_none());
    assert_eq!(reg.get_game(id).unwrap().get_finished_players(), 1);
}

#[test]
fn sessions_are_independent() {
    let mut reg = Registry::new();
    let one = reg.new_game(1).unwrap();
    let two = reg.new_game(1).unwrap();
    let a = Player::new(1);
    let b = Player::new(2);
    reg.join_session(one, a);
    reg.join_session(one, b);
    reg.join_session(two, a);
    reg.start_session(one);
    assert!(reg.get_game(one).unwrap().is_started());
    assert!(!reg.get_game(two).unwrap().is_started());
    assert_eq!(reg.get_game(two).unwrap().get_player_count(), 1);
    reg.submit_choice(one, a, 'r');
    reg.submit_choice(one, b, 's');
    assert!(!reg.contains_session(one));
    assert!(reg.contains_session(two));
}
