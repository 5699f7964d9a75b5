use matchflow::app_state::AppState;
use matchflow::messages::ServerMessage;
use matchflow::structs::{Player, PlayerStatus};

fn state_with_players(ids: &[u128]) -> AppState {
    let mut s = AppState::new(0);
    for id in ids {
        s.connect_player(Player::new(*id, 0, 0), true);
    }
    s
}

fn record(s: &AppState, id: u128) -> Player {
    s.players().iter().find(|p| p.id == id).unwrap().copy()
}

fn error_text(m: &ServerMessage) -> Option<String> {
    match m {
        ServerMessage::Error { message } => Some(message.clone()),
        _ => None,
    }
}

#[test]
fn new_state_is_empty_with_default_settings() {
    let s = AppState::new(7);
    assert_eq!(s.total_player(), 7);
    assert!(s.players().is_empty());
    assert!(s.lobbys().is_empty());
    assert_eq!(s.settings().team_size, 1);
    assert_eq!(s.settings().lobby_capacity, 1);
    assert_eq!(s.settings().div_number, 4);
    assert_eq!(s.settings().points_per_div, 100);
    assert_eq!(s.settings().ranks.len(), 11);
    assert_eq!(s.settings().ranks[0], "Unranked");
    assert_eq!(s.settings().ranks[10], "Challenger");
}

#[test]
fn connecting_counts_new_players_and_replaces_records() {
    let mut s = AppState::new(3);
    s.connect_player(Player::new(1, 0, 0), true);
    s.connect_player(Player::new(1, 5, 5), false);
    assert_eq!(s.total_player(), 4);
    assert_eq!(s.players().len(), 1);
    assert_eq!(s.players()[0].debug_player_level, 5);
}

#[test]
fn creating_a_lobby_makes_the_player_its_owner_and_member() {
    let mut s = state_with_players(&[1]);
    let p = record(&s, 1);
    s.create_lobby_with_id(&p, 10);
    assert_eq!(s.lobbys().len(), 1);
    assert_eq!(s.lobbys()[0].id, 10);
    assert_eq!(s.lobbys()[0].owner, 1);
    assert_eq!(s.lobbys()[0].players, vec![1]);
    assert_eq!(record(&s, 1).lobby, Some(10));
    let out = s.take_outbox();
    assert_eq!(out.len(), 1);
    assert!(matches!(out[0], (1, ServerMessage::LobbyJoined { lobby_id: 10 })));
}

#[test]
fn creating_a_lobby_with_a_random_id_works_too() {
    let mut s = state_with_players(&[1]);
    let p = record(&s, 1);
    s.create_new_lobby(&p);
    assert_eq!(s.lobbys().len(), 1);
    let lid = s.lobbys()[0].id;
    assert_eq!(record(&s, 1).lobby, Some(lid));
    // A version-4 UUID.
    assert_eq!((lid >> 76) & 0xF, 4);
}

#[test]
fn a_busy_player_is_refused_and_no_lobby_is_created() {
    let mut s = state_with_players(&[1]);
    let mut p = record(&s, 1);
    p.status = PlayerStatus::InGame { game_id: 99 };
    s.create_lobby_with_id(&p, 10);
    assert!(s.lobbys().is_empty());
    let out = s.take_outbox();
    assert_eq!(out.len(), 1);
    assert_eq!(error_text(&out[0].1).unwrap(), "Cannot join lobby while in queue or in game");
}

#[test]
fn joining_and_leaving_pass_ownership_and_delete_empty_lobbies() {
    let mut s = state_with_players(&[1, 2]);
    let p1 = record(&s, 1);
    s.create_lobby_with_id(&p1, 10);
    let p2 = record(&s, 2);
    s.join_existing_lobby(&p2, 10);
    assert_eq!(s.lobbys()[0].players, vec![1, 2]);
    let p1 = record(&s, 1);
    s.leave_lobby(&p1);
    assert_eq!(s.lobbys()[0].players, vec![2]);
    assert_eq!(s.lobbys()[0].owner, 2);
    assert_eq!(record(&s, 1).lobby, None);
    let p2 = record(&s, 2);
    s.leave_lobby(&p2);
    assert!(s.lobbys().is_empty());
    let out = s.take_outbox();
    assert!(matches!(out.last().unwrap(), (2, ServerMessage::LobbyLeft { lobby_id: 10 })));
}

#[test]
fn joining_a_missing_lobby_is_refused() {
    let mut s = state_with_players(&[1]);
    let p = record(&s, 1);
    s.join_existing_lobby(&p, 42);
    let out = s.take_outbox();
    assert_eq!(error_text(&out[0].1).unwrap(), "Lobby not found");
}

#[test]
fn joining_another_lobby_leaves_the_current_one() {
    let mut s = state_with_players(&[1, 2]);
    let p1 = record(&s, 1);
    s.create_lobby_with_id(&p1, 10);
    let p2 = record(&s, 2);
    s.create_lobby_with_id(&p2, 20);
    let p1 = record(&s, 1);
    s.join_existing_lobby(&p1, 20);
    assert_eq!(s.lobbys().len(), 1);
    assert_eq!(s.lobbys()[0].id, 20);
    assert_eq!(s.lobbys()[0].players, vec![2, 1]);
    assert_eq!(record(&s, 1).lobby, Some(20));
}

#[test]
fn leaving_is_refused_when_busy_or_lobbyless() {
    let mut s = state_with_players(&[1]);
    let p = record(&s, 1);
    s.leave_lobby(&p);
    let mut busy = record(&s, 1);
    busy.status = PlayerStatus::InQueue { queue_time: 5 };
    busy.lobby = Some(3);
    s.leave_lobby(&busy);
    let out = s.take_outbox();
    assert_eq!(error_text(&out[0].1).unwrap(), "You are not in a lobby");
    assert_eq!(error_text(&out[1].1).unwrap(), "Cannot leave lobby while in queue or in game");
}

#[test]
fn displaying_a_lobby_lists_member_names_and_status() {
    let mut s = state_with_players(&[1, 2]);
    let p1 = record(&s, 1);
    s.create_lobby_with_id(&p1, 10);
    let p2 = record(&s, 2);
    s.join_existing_lobby(&p2, 10);
    s.take_outbox();
    let p2 = record(&s, 2);
    s.display_lobby(&p2);
    let out = s.take_outbox();
    match &out[0] {
        (2, ServerMessage::Lobby { lobby_id, players, status }) => {
            assert_eq!(*lobby_id, 10);
            assert_eq!(players.clone(), vec![record(&s, 1).name, record(&s, 2).name]);
            assert_eq!(status, "Idle");
        },
        _ => panic!("expected a lobby description"),
    }
}

#[test]
fn displaying_without_a_lobby_is_an_error() {
    let mut s = state_with_players(&[1]);
    let p = record(&s, 1);
    s.display_lobby(&p);
    let out = s.take_outbox();
    assert_eq!(error_text(&out[0].1).unwrap(), "You are not in a lobby");
}

#[test]
fn disconnecting_removes_the_player_everywhere() {
    let mut s = state_with_players(&[1, 2]);
    let p1 = record(&s, 1);
    s.create_lobby_with_id(&p1, 10);
    let p2 = record(&s, 2);
    s.join_existing_lobby(&p2, 10);
    let p1 = record(&s, 1);
    s.find_game(&p1, 1000);
    assert_eq!(s.queueing_lobbys().len(), 1);
    let last = s.disconnect_player(1, 0).unwrap();
    assert_eq!(last.id, 1);
    assert!(s.players().iter().all(|p| p.id != 1));
    assert_eq!(s.lobbys()[0].players, vec![2]);
    assert_eq!(s.lobbys()[0].owner, 2);
    assert_eq!(s.lobbys()[0].status, PlayerStatus::Idle);
    assert_eq!(record(&s, 2).status, PlayerStatus::Idle);
    assert!(s.queueing_lobbys().is_empty());
    assert!(s.disconnect_player(1, 0).is_none());
}

#[test]
fn the_last_member_disconnecting_deletes_the_lobby() {
    let mut s = state_with_players(&[1]);
    let p1 = record(&s, 1);
    s.create_lobby_with_id(&p1, 10);
    s.disconnect_player(1, 0);
    assert!(s.lobbys().is_empty());
    assert!(s.players().is_empty());
}

#[test]
fn help_lists_the_commands() {
    let mut s = state_with_players(&[1]);
    s.help(1);
    let out = s.take_outbox();
    match &out[0].1 {
        ServerMessage::Info { message } => {
            assert_eq!(message, "Available commands: JoinLobby, DisplayLobby, LeaveLobby, SearchGame, CancelSearch, ConfirmGame, DisplayPlayer")
        },
        _ => panic!("expected help"),
    }
}

#[test]
fn leave_undoes_join() {
    let mut s = state_with_players(&[1, 2]);
    let p1 = record(&s, 1);
    s.create_lobby_with_id(&p1, 10);
    s.take_outbox();
    let before: Vec<(u128, Vec<u128>, u128)> = s.lobbys().iter().map(|l| (l.id, l.players.clone(), l.owner)).collect();
    let p2 = record(&s, 2);
    s.join_existing_lobby(&p2, 10);
    let p2 = record(&s, 2);
    s.leave_lobby(&p2);
    let after: Vec<(u128, Vec<u128>, u128)> = s.lobbys().iter().map(|l| (l.id, l.players.clone(), l.owner)).collect();
    assert_eq!(before, after);
    assert_eq!(record(&s, 2).lobby, None);
    assert_eq!(record(&s, 2).status, PlayerStatus::Idle);
    assert_eq!(s.take_outbox().len(), 2);
}

#[test]
fn disconnect_cascades_through_lobbies() {
    let mut s = state_with_players(&[1, 2, 3]);
    let p1 = record(&s, 1);
    s.create_lobby_with_id(&p1, 10);
    let p2 = record(&s, 2);
    s.join_existing_lobby(&p2, 10);
    let p3 = record(&s, 3);
    s.create_lobby_with_id(&p3, 30);
    s.disconnect_player(2, 0);
    for l in s.lobbys() {
        assert!(!l.players.contains(&2));
        for m in &l.players {
            let p = record(&s, *m);
            assert_eq!(p.lobby, Some(l.id));
        }
    }
}
