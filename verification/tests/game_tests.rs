use matchflow::app_state::AppState;
use matchflow::messages::{ClientMessage, ServerMessage};
use matchflow::structs::{Player, PlayerStatus, DEFAULT_RATING_BITS};

fn state_with_players(ids: &[u128]) -> AppState {
    let mut s = AppState::new(0);
    for id in ids {
        s.connect_player(Player::new(*id, 0, 0), true);
    }
    s
}

fn record(s: &AppState, id: u128) -> Player {
    s.players().iter().find(|p| p.id == id).unwrap().copy()
}

fn error_text(m: &ServerMessage) -> Option<String> {
    match m {
        ServerMessage::Error { message } => Some(message.clone()),
        _ => None,
    }
}

fn lobby_of_two(s: &mut AppState, a: u128, b: u128, lid: u128) {
    let pa = record(s, a);
    s.create_lobby_with_id(&pa, lid);
    let pb = record(s, b);
    s.join_existing_lobby(&pb, lid);
    s.take_outbox();
}

#[test]
fn searching_queues_the_lobby_and_its_members() {
    let mut s = state_with_players(&[1, 2]);
    lobby_of_two(&mut s, 1, 2, 10);
    let p2 = record(&s, 2);
    s.find_game(&p2, 5_000);
    let q = s.queueing_lobbys();
    assert_eq!(q.len(), 1);
    assert_eq!(q[0].lobby_id, 10);
    assert_eq!(q[0].start_time, 5_000);
    assert_eq!(q[0].player_count, 2);
    assert_eq!(q[0].member_mmrs, vec![DEFAULT_RATING_BITS, DEFAULT_RATING_BITS]);
    assert_eq!(s.lobbys()[0].status, PlayerStatus::InQueue { queue_time: 5_000 });
    assert_eq!(record(&s, 1).status, PlayerStatus::InQueue { queue_time: 5_000 });
    let out = s.take_outbox();
    assert_eq!(out.len(), 2);
    for (i, (to, m)) in out.iter().enumerate() {
        assert_eq!(*to, [1u128, 2][i]);
        match m {
            ServerMessage::SearchingGame { lobby_id, player_searching } => {
                assert_eq!(*lobby_id, 10);
                assert_eq!(player_searching.clone(), record(&s, 2).name);
            },
            _ => panic!("expected a search notice"),
        }
    }
}

#[test]
fn searching_without_a_lobby_is_an_error() {
    let mut s = state_with_players(&[1]);
    let p = record(&s, 1);
    s.find_game(&p, 1);
    let out = s.take_outbox();
    assert_eq!(error_text(&out[0].1).unwrap(), "You are not in a lobby");
    assert!(s.queueing_lobbys().is_empty());
}

#[test]
fn cancelling_withdraws_the_lobby() {
    let mut s = state_with_players(&[1, 2]);
    lobby_of_two(&mut s, 1, 2, 10);
    let p1 = record(&s, 1);
    s.find_game(&p1, 1);
    let p1 = record(&s, 1);
    s.cancel_research(&p1);
    assert!(s.queueing_lobbys().is_empty());
    assert_eq!(s.lobbys()[0].status, PlayerStatus::Idle);
    assert_eq!(record(&s, 2).status, PlayerStatus::Idle);
}

#[test]
fn cancelling_without_a_lobby_is_an_error() {
    let mut s = state_with_players(&[1]);
    let p = record(&s, 1);
    s.cancel_research(&p);
    let out = s.take_outbox();
    assert_eq!(error_text(&out[0].1).unwrap(), "You are not in a lobby");
}

#[test]
fn dequeue_undoes_queue() {
    let mut s = state_with_players(&[1]);
    let p1 = record(&s, 1);
    s.create_lobby_with_id(&p1, 10);
    s.queue_lobby(matchflow::structs::QueueEntry { start_time: 1, lobby_id: 77, member_mmrs: vec![], player_count: 0 });
    s.queue_lobby(matchflow::structs::QueueEntry { start_time: 2, lobby_id: 10, member_mmrs: vec![], player_count: 1 });
    s.dequeue_lobby(10);
    assert_eq!(s.queueing_lobbys().len(), 1);
    assert_eq!(s.queueing_lobbys()[0].lobby_id, 77);
}

#[test]
fn dequeue_removes_only_the_first_entry() {
    let mut s = AppState::new(0);
    s.queue_lobby(matchflow::structs::QueueEntry { start_time: 1, lobby_id: 5, member_mmrs: vec![], player_count: 0 });
    s.queue_lobby(matchflow::structs::QueueEntry { start_time: 2, lobby_id: 5, member_mmrs: vec![], player_count: 0 });
    s.dequeue_lobby(5);
    assert_eq!(s.queueing_lobbys().len(), 1);
    assert_eq!(s.queueing_lobbys()[0].start_time, 2);
    s.dequeue_lobby(6);
    assert_eq!(s.queueing_lobbys().len(), 1);
}

#[test]
fn confirming_reports_each_refusal() {
    let mut s = state_with_players(&[1]);
    let p = record(&s, 1);
    s.confirm_game(&p, 3);
    let mut in_lobby = record(&s, 1);
    in_lobby.lobby = Some(10);
    s.confirm_game(&in_lobby, 3);
    in_lobby.status = PlayerStatus::NeedConfirmation { game_id: 4 };
    s.confirm_game(&in_lobby, 3);
    let out = s.take_outbox();
    assert_eq!(error_text(&out[0].1).unwrap(), "You are not in a lobby");
    assert_eq!(error_text(&out[1].1).unwrap(), "You are not in a game confirmation state");
    assert_eq!(error_text(&out[2].1).unwrap(), "You are not confirming the correct game");
}

#[test]
fn handle_message_dispatches_requests() {
    let mut s = state_with_players(&[1]);
    s.handle_message_with_id(1, ClientMessage::JoinLobby { id: None }, 0, 10);
    assert_eq!(record(&s, 1).lobby, Some(10));
    s.handle_message_with_id(1, ClientMessage::SearchGame, 9, 0);
    assert_eq!(s.queueing_lobbys().len(), 1);
    s.handle_message_with_id(1, ClientMessage::CancelSearch, 9, 0);
    assert!(s.queueing_lobbys().is_empty());
    s.take_outbox();
    s.handle_message_with_id(1, ClientMessage::PlayerInfo, 0, 0);
    let out = s.take_outbox();
    match &out[0].1 {
        ServerMessage::PlayerInfo { player } => {
            assert_eq!(player.id, 1);
            assert_eq!(player.lobby, Some(10));
            assert_eq!(player.debug_rank, "Silver");
        },
        _ => panic!("expected the player record"),
    }
    s.handle_message_with_id(1, ClientMessage::DisplayPlayer { id: None }, 0, 0);
    let out = s.take_outbox();
    assert_eq!(out.len(), 1);
    assert!(matches!(&out[0], (1, ServerMessage::PlayerInfo { player }) if player.id == 1));
    s.handle_message_with_id(1, ClientMessage::DisplayPlayer { id: Some(77) }, 0, 0);
    let out = s.take_outbox();
    assert_eq!(error_text(&out[0].1).unwrap(), "Player not found");
    s.handle_message_with_id(1, ClientMessage::LeaveLobby, 0, 0);
    assert!(s.lobbys().is_empty());
    // Requests from players who are not connected change nothing.
    s.take_outbox();
    s.handle_message(2, ClientMessage::JoinLobby { id: None }, 0);
    assert!(s.lobbys().is_empty());
    assert!(s.take_outbox().is_empty());
}

#[test]
fn new_players_start_at_the_default_rating() {
    let p = Player::new(8, 3, 4);
    assert_eq!(p.id, 8);
    assert_eq!(f64::from_bits(p.mmr), 1000.0);
    assert_eq!(f64::from_bits(p.true_skill), 1000.0);
    assert_eq!(p.debug_rank, "Silver");
    assert_eq!(p.status, PlayerStatus::Idle);
    assert!(p.lobby.is_none() && p.wins.is_empty() && p.losses.is_empty());
    assert_eq!(p.debug_player_level, 3);
    assert_eq!(p.debug_player_form, 4);
    assert!(!p.name.is_empty());
}

#[test]
fn status_labels() {
    assert_eq!(PlayerStatus::Idle.to_string(), "Idle");
    assert_eq!(PlayerStatus::InQueue { queue_time: 0 }.to_string(), "In Queue");
    assert_eq!(PlayerStatus::NeedConfirmation { game_id: 0 }.to_string(), "Need Confirmation");
    assert_eq!(PlayerStatus::InGame { game_id: 0 }.to_string(), "In Game");
}

#[test]
fn queue_entries_hold_the_hidden_skill() {
    let mut s = AppState::new(0);
    let mut a = Player::new(1, 0, 0);
    a.true_skill = 1234.0f64.to_bits();
    a.mmr = 900.0f64.to_bits();
    s.connect_player(a, true);
    let p = record(&s, 1);
    s.create_lobby_with_id(&p, 10);
    let p = record(&s, 1);
    s.find_game(&p, 7);
    assert_eq!(s.queueing_lobbys()[0].member_mmrs, vec![1234.0f64.to_bits()]);
}

#[test]
fn searching_when_not_idle_is_refused() {
    let mut s = state_with_players(&[1, 2]);
    lobby_of_two(&mut s, 1, 2, 10);
    let p1 = record(&s, 1);
    s.find_game(&p1, 1);
    s.take_outbox();
    let p1 = record(&s, 1);
    s.find_game(&p1, 2);
    assert_eq!(s.queueing_lobbys().len(), 1);
    let out = s.take_outbox();
    assert_eq!(out.len(), 1);
    assert_eq!(out[0].0, 1);
    assert_eq!(error_text(&out[0].1).unwrap(), "Cannot search for a game while in queue or in game");
}

#[test]
fn cancelling_tells_the_lobby_who_cancelled() {
    let mut s = state_with_players(&[1, 2]);
    lobby_of_two(&mut s, 1, 2, 10);
    let p1 = record(&s, 1);
    s.find_game(&p1, 1);
    s.take_outbox();
    let p2 = record(&s, 2);
    s.cancel_research(&p2);
    let out = s.take_outbox();
    assert_eq!(out.len(), 2);
    for (i, (to, m)) in out.iter().enumerate() {
        assert_eq!(*to, [1u128, 2][i]);
        match m {
            ServerMessage::SearchCancelled { lobby_id, player_cancelling } => {
                assert_eq!(*lobby_id, 10);
                assert_eq!(player_cancelling.clone(), record(&s, 2).name);
            },
            _ => panic!("expected a cancellation notice"),
        }
    }
}

#[test]
fn new_players_have_hyphenated_names() {
    assert!(Player::new(5, 0, 0).name.contains('-'));
}

#[test]
fn displaying_another_player() {
    let mut s = state_with_players(&[1, 2]);
    s.handle_message_with_id(1, ClientMessage::DisplayPlayer { id: Some(2) }, 0, 0);
    let out = s.take_outbox();
    assert_eq!(out.len(), 1);
    match &out[0] {
        (1, ServerMessage::PlayerInfo { player }) => {
            assert_eq!(player.id, 2);
            assert_eq!(player.name, record(&s, 2).name);
        },
        _ => panic!("expected player 2's record"),
    }
}

#[test]
fn a_queued_lobby_is_not_queued_again() {
    let mut s = state_with_players(&[1, 2]);
    let p1 = record(&s, 1);
    s.create_lobby_with_id(&p1, 10);
    let p1 = record(&s, 1);
    s.find_game(&p1, 1);
    let p2 = record(&s, 2);
    s.join_existing_lobby(&p2, 10);
    s.take_outbox();
    let p2 = record(&s, 2);
    assert_eq!(p2.status, PlayerStatus::Idle);
    s.find_game(&p2, 2);
    assert_eq!(s.queueing_lobbys().len(), 1);
    let out = s.take_outbox();
    assert_eq!(out.len(), 1);
    assert_eq!(error_text(&out[0].1).unwrap(), "Your lobby is already searching or in a game");
}
