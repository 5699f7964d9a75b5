use matchflow::app_state::AppState;
use matchflow::messages::ServerMessage;
use matchflow::structs::{Player, PlayerStatus};

fn record(s: &AppState, id: u128) -> Player {
    s.players().iter().find(|p| p.id == id).unwrap().copy()
}

/// Two idle players, each alone in a lobby (10 and 20), both searching.
fn two_searching_lobbies() -> AppState {
    let mut s = AppState::new(0);
    s.connect_player(Player::new(1, 0, 0), true);
    s.connect_player(Player::new(2, 0, 0), true);
    let p1 = record(&s, 1);
    s.create_lobby_with_id(&p1, 10);
    let p2 = record(&s, 2);
    s.create_lobby_with_id(&p2, 20);
    let p1 = record(&s, 1);
    s.find_game(&p1, 1_000_000_000);
    let p2 = record(&s, 2);
    s.find_game(&p2, 2_000_000_000);
    s.take_outbox();
    s
}

fn all_compatible(n: usize) -> Vec<Vec<bool>> {
    vec![vec![true; n]; n]
}

#[test]
fn planning_pairs_each_entry_with_the_first_compatible_later_one() {
    let mut s = AppState::new(0);
    for k in 0..5u128 {
        s.queue_lobby(matchflow::structs::QueueEntry { start_time: 0, lobby_id: k, member_mmrs: vec![], player_count: 1 });
    }
    let mut c = vec![vec![false; 5]; 5];
    c[0][3] = true;
    c[0][4] = true;
    c[1][2] = true;
    c[2][4] = true;
    let pairs = s.plan_matches(&c);
    // Round 0 pairs 0 with 3; the queue becomes [1, 2, 4]; round 1 looks at
    // position 1 (entry 2) and pairs it with entry 4; entry 1 is skipped.
    assert_eq!(pairs, vec![(0, 3), (2, 4)]);
}

#[test]
fn a_short_queue_forms_no_game() {
    let mut s = AppState::new(0);
    s.queue_lobby(matchflow::structs::QueueEntry { start_time: 0, lobby_id: 1, member_mmrs: vec![], player_count: 1 });
    assert!(s.plan_matches(&all_compatible(1)).is_empty());
}

#[test]
fn forming_a_match_creates_a_waiting_game() {
    let mut s = two_searching_lobbies();
    s.form_matches_with_ids(&all_compatible(2), &vec![500], 5_000_000_000);
    assert!(s.queueing_lobbys().is_empty());
    let w = s.waiting_games();
    assert_eq!(w.len(), 1);
    assert_eq!(w[0].id, 500);
    assert_eq!(w[0].team1, vec![1]);
    assert_eq!(w[0].team2, vec![2]);
    assert_eq!(w[0].lobbys, vec![10, 20]);
    assert_eq!(w[0].start_time, 5_000_000_000);
    assert!(w[0].confirmed.is_empty());
    assert_eq!(record(&s, 1).status, PlayerStatus::NeedConfirmation { game_id: 500 });
    assert_eq!(s.lobbys()[1].status, PlayerStatus::NeedConfirmation { game_id: 500 });
    assert_eq!(s.queue_time_samples(), &vec![4_000_000_000]);
    let out = s.take_outbox();
    assert_eq!(out.len(), 2);
    assert!(matches!(out[0], (1, ServerMessage::GameFound { game_id: 500 })));
    assert!(matches!(out[1], (2, ServerMessage::GameFound { game_id: 500 })));
}

#[test]
fn incompatible_lobbies_stay_queued() {
    let mut s = two_searching_lobbies();
    let r = s.try_form_matches(&vec![vec![false; 2]; 2], 3);
    assert_eq!(r, Ok(()));
    assert_eq!(s.queueing_lobbys().len(), 2);
    assert!(s.waiting_games().is_empty());
}

#[test]
fn a_match_with_a_vanished_lobby_changes_nothing() {
    let mut s = two_searching_lobbies();
    s.queue_lobby(matchflow::structs::QueueEntry { start_time: 0, lobby_id: 99, member_mmrs: vec![], player_count: 1 });
    let mut c = vec![vec![false; 3]; 3];
    c[0][2] = true;
    let r = s.try_form_matches(&c, 3);
    assert_eq!(r, Err(99));
    assert_eq!(s.queueing_lobbys().len(), 3);
    assert!(s.waiting_games().is_empty());
}

#[test]
fn random_game_ids_are_version_four_uuids() {
    let mut s = two_searching_lobbies();
    assert_eq!(s.try_form_matches(&all_compatible(2), 3), Ok(()));
    assert_eq!((s.waiting_games()[0].id >> 76) & 0xF, 4);
}

#[test]
fn confirmed_games_start() {
    let mut s = two_searching_lobbies();
    s.form_matches_with_ids(&all_compatible(2), &vec![500], 3_000_000_000);
    let p1 = record(&s, 1);
    s.confirm_game(&p1, 500);
    let p1 = record(&s, 1);
    s.confirm_game(&p1, 500);
    assert_eq!(s.waiting_games()[0].confirmed, vec![1]);
    let p2 = record(&s, 2);
    s.confirm_game(&p2, 500);
    s.take_outbox();
    s.check_confirmations(4_000_000_000, Some(20));
    assert!(s.waiting_games().is_empty());
    assert_eq!(s.ongoing_games().len(), 1);
    assert_eq!(record(&s, 2).status, PlayerStatus::InGame { game_id: 500 });
    assert_eq!(s.lobbys()[0].status, PlayerStatus::InGame { game_id: 500 });
    assert_eq!(s.match_samples(), &vec![true]);
    assert_eq!(s.successful_match_count(), 1);
    let out = s.take_outbox();
    assert!(matches!(out[0], (1, ServerMessage::GameStarting { game_id: 500 })));
    assert!(matches!(out[1], (2, ServerMessage::GameStarting { game_id: 500 })));
}

#[test]
fn unconfirmed_games_time_out() {
    let mut s = two_searching_lobbies();
    s.form_matches_with_ids(&all_compatible(2), &vec![500], 3_000_000_000);
    // Exactly at the limit the game still waits.
    s.check_confirmations(23_000_000_000, Some(20));
    assert_eq!(s.waiting_games().len(), 1);
    s.check_confirmations(23_000_000_001, Some(20));
    assert!(s.waiting_games().is_empty());
    assert_eq!(record(&s, 1).status, PlayerStatus::Idle);
    assert_eq!(s.lobbys()[1].status, PlayerStatus::Idle);
    assert_eq!(s.match_samples(), &vec![false]);
    assert_eq!(s.successful_match_count(), 0);
}

#[test]
fn a_timed_out_game_is_cancelled_and_confirmed_lobbies_requeue() {
    let mut s = two_searching_lobbies();
    s.form_matches_with_ids(&all_compatible(2), &vec![500], 3_000_000_000);
    s.take_outbox();
    let p1 = record(&s, 1);
    s.confirm_game(&p1, 500);
    s.check_confirmations(30_000_000_000, Some(15));
    assert!(s.waiting_games().is_empty());
    let out = s.take_outbox();
    assert_eq!(out.len(), 3);
    assert!(matches!(&out[2], (2, ServerMessage::StatusUpdate { status: PlayerStatus::Idle })));
    assert!(out.iter().any(|(to, m)| *to == 1 && matches!(m, ServerMessage::GameCancelled { game_id: 500 })));
    assert!(out.iter().any(|(to, m)| *to == 2 && matches!(m, ServerMessage::GameCancelled { game_id: 500 })));
    // Player 1 confirmed: lobby 10 goes back into the queue.
    assert_eq!(s.queueing_lobbys().len(), 1);
    assert_eq!(s.queueing_lobbys()[0].lobby_id, 10);
    assert_eq!(s.queueing_lobbys()[0].start_time, 30_000_000_000);
    assert_eq!(record(&s, 1).status, PlayerStatus::InQueue { queue_time: 30_000_000_000 });
    // Player 2 did not: lobby 20 is idle.
    assert_eq!(record(&s, 2).status, PlayerStatus::Idle);
    assert_eq!(s.lobbys()[1].status, PlayerStatus::Idle);
}

#[test]
fn a_disconnect_cancels_the_pending_game_and_requeues_the_other_lobby() {
    let mut s = two_searching_lobbies();
    s.form_matches_with_ids(&all_compatible(2), &vec![500], 3_000_000_000);
    s.take_outbox();
    s.disconnect_player(1, 7_000_000_000);
    assert!(s.waiting_games().is_empty());
    assert_eq!(s.lobbys().len(), 1);
    assert_eq!(s.queueing_lobbys().len(), 1);
    assert_eq!(s.queueing_lobbys()[0].lobby_id, 20);
    assert_eq!(record(&s, 2).status, PlayerStatus::InQueue { queue_time: 7_000_000_000 });
    let out = s.take_outbox();
    assert!(out.iter().any(|(to, m)| *to == 2 && matches!(m, ServerMessage::GameCancelled { game_id: 500 })));
}

#[test]
fn without_a_time_limit_games_wait() {
    let mut s = two_searching_lobbies();
    s.form_matches_with_ids(&all_compatible(2), &vec![500], 3);
    s.check_confirmations(u64::MAX, None);
    assert_eq!(s.waiting_games().len(), 1);
}

#[test]
fn finished_games_are_taken_in_order() {
    let mut s = two_searching_lobbies();
    s.form_matches_with_ids(&all_compatible(2), &vec![500], 3);
    for id in [1u128, 2] {
        let p = record(&s, id);
        s.confirm_game(&p, 500);
    }
    s.check_confirmations(4, None);
    assert_eq!(s.take_finished_games(&vec![false]).len(), 0);
    assert_eq!(s.ongoing_games().len(), 1);
    let done = s.take_finished_games(&vec![true]);
    assert_eq!(done.len(), 1);
    assert!(s.ongoing_games().is_empty());
    let result = s.resolve_game(&done[0], false, 10);
    assert_eq!(result.id, 500);
    assert_eq!(result.winner, 2);
    assert_eq!(result.start_time, 3);
    assert_eq!(result.duration, 7);
    assert_eq!(record(&s, 1).status, PlayerStatus::Idle);
    let (winners, losers) = result.sides();
    assert_eq!(winners, vec![2]);
    assert_eq!(losers, vec![1]);
    assert_eq!(s.team_true_skills(&vec![1, 2, 3]).len(), 2);
}

#[test]
fn recording_a_result_updates_the_player() {
    let mut s = AppState::new(0);
    s.connect_player(Player::new(1, 0, 0), true);
    assert!(s.update_player(1, 500, true, 1016.0f64.to_bits(), 1032.0f64.to_bits(), 1016, 16.0f64.to_bits()));
    let p = record(&s, 1);
    assert_eq!(f64::from_bits(p.mmr), 1016.0);
    assert_eq!(f64::from_bits(p.true_skill), 1032.0);
    assert_eq!(p.debug_rank, "Silver");
    assert_eq!(p.wins, vec![500]);
    assert!(p.losses.is_empty());
    let out = s.take_outbox();
    assert_eq!(out.len(), 2);
    match &out[0] {
        (1, ServerMessage::GameResult { game_id, won, mmr_change, new_mmr, new_rank }) => {
            assert_eq!(*game_id, 500);
            assert!(*won);
            assert_eq!(f64::from_bits(*mmr_change), 16.0);
            assert_eq!(f64::from_bits(*new_mmr), 1016.0);
            assert_eq!(new_rank, "Silver");
        },
        _ => panic!("expected a result"),
    }
    match &out[1] {
        (1, ServerMessage::PlayerUpdated { player }) => {
            assert_eq!(player.wins, vec![500]);
            assert_eq!(player.debug_rank, "Silver");
        },
        _ => panic!("expected the updated record"),
    }
    s.update_player(1, 501, false, 0, 0, 0, 0);
    assert_eq!(record(&s, 1).losses, vec![501]);
    assert_eq!(record(&s, 1).debug_rank, "Iron");
    assert!(!s.update_player(2, 501, false, 0, 0, 0, 0));
}

#[test]
fn the_sample_window_keeps_the_last_twenty_five() {
    let mut s = AppState::new(0);
    for k in 0..30u64 {
        s.add_queue_time_sample(k);
        s.add_successful_match_sample(k % 2 == 0);
    }
    assert_eq!(s.queue_time_samples().len(), 25);
    assert_eq!(s.queue_time_samples()[0], 5);
    assert_eq!(*s.queue_time_samples().last().unwrap(), 29);
    assert_eq!(s.match_samples().len(), 25);
    assert_eq!(s.successful_match_count(), 12);
}

#[test]
fn the_dashboard_counts_match_the_state() {
    let mut s = two_searching_lobbies();
    s.form_matches_with_ids(&all_compatible(2), &vec![500], 3_000_000_000);
    let snap = s.snapshot();
    assert_eq!(snap.total_player, 2);
    assert_eq!(snap.connected_players, 2);
    assert_eq!(snap.lobby_number, 2);
    assert_eq!(snap.queueing_lobbies, 0);
    assert_eq!(snap.waiting_games, 1);
    assert_eq!(snap.ongoing_games, 0);
    assert_eq!(snap.game_number, 1);
    let g = s.waiting_games()[0].copy();
    let gs = matchflow::app_state::dashboard::GameSnapshot::from(g, 5_999_999_999);
    assert_eq!(gs.elapsed_seconds, 2);
    assert_eq!(gs.team1, vec![1]);
    let def = matchflow::app_state::dashboard::DashboardSnapshot::default();
    assert_eq!(def.total_player, 0);
}

#[test]
fn queue_entries_report_whole_seconds() {
    let e = matchflow::structs::QueueEntry { start_time: 1_000_000_000, lobby_id: 1, member_mmrs: vec![], player_count: 1 };
    assert_eq!(e.queue_seconds(3_500_000_000), 2);
    assert_eq!(e.queue_seconds(0), 0);
}

#[test]
fn settings_can_be_changed() {
    let mut s = AppState::new(0);
    s.apply_settings(5, 3);
    assert_eq!(s.settings().lobby_capacity, 5);
    assert_eq!(s.settings().team_size, 3);
}

#[test]
fn leaving_a_lobby_cancels_its_pending_game() {
    let mut s = two_searching_lobbies();
    s.form_matches_with_ids(&all_compatible(2), &vec![500], 3_000_000_000);
    s.take_outbox();
    let p2 = record(&s, 2);
    s.remove_player_from_lobby(&p2, 9_000_000_000);
    assert!(s.waiting_games().is_empty());
    assert!(s.lobbys().iter().all(|l| l.id != 20));
    assert_eq!(s.queueing_lobbys().len(), 1);
    assert_eq!(s.queueing_lobbys()[0].lobby_id, 10);
    assert_eq!(s.queueing_lobbys()[0].start_time, 9_000_000_000);
    let out = s.take_outbox();
    assert_eq!(out.len(), 2);
}
