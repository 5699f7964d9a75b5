use matchflow::app_state::simulation::game_length_secs;
use matchflow::bot::{
    bot_reaction, found_game_reaction, idle_reaction, idle_timeout_secs, network_plan, offline_pause_secs, plan_from_draws, session_game_quota,
    startup_delay_ms, BotReaction, BotRequest, NetPlan,
};
use matchflow::client::{command_from_parts, interpret_line, parse_command, Command, LineAction};
use matchflow::ids::{parse_player_ids, read_id_list, stored_id_list};
use matchflow::structs::{Player, PlayerStatus};
use matchflow::rank::mmr_to_rank;

const ID_TEXT: &str = "67e55044-10b1-426f-9247-bb680e5fe0c8";
const ID: u128 = 0x67e5504410b1426f9247bb680e5fe0c8;

#[test]
fn commands_without_arguments() {
    assert_eq!(parse_command("DisplayLobby"), Ok(Command::DisplayLobby));
    assert_eq!(parse_command("LeaveLobby"), Ok(Command::LeaveLobby));
    assert_eq!(parse_command("SearchGame"), Ok(Command::SearchGame));
    assert_eq!(parse_command("CancelSearch"), Ok(Command::CancelSearch));
    assert_eq!(parse_command("Help"), Ok(Command::Help));
    assert_eq!(parse_command("  \tSearchGame \n"), Ok(Command::SearchGame));
}

#[test]
fn commands_with_identifiers() {
    assert_eq!(parse_command("JoinLobby"), Ok(Command::JoinLobby { id: None }));
    assert_eq!(parse_command(&format!("JoinLobby {}", ID_TEXT)), Ok(Command::JoinLobby { id: Some(ID) }));
    assert_eq!(parse_command(&format!("  JoinLobby   {}  ", ID_TEXT)), Ok(Command::JoinLobby { id: Some(ID) }));
    assert_eq!(parse_command(&format!("ConfirmGame {}", ID_TEXT)), Ok(Command::ConfirmGame { id: ID }));
    assert_eq!(parse_command(&format!("DisplayPlayer {}", ID_TEXT)), Ok(Command::DisplayPlayer { id: Some(ID) }));
    assert_eq!(parse_command("DisplayPlayer"), Ok(Command::DisplayPlayer { id: None }));
}

#[test]
fn command_errors() {
    assert_eq!(parse_command("JoinLobby xyz"), Err("Invalid UUID: xyz".to_string()));
    assert_eq!(parse_command("ConfirmGame"), Err("Usage: ConfirmGame <uuid>".to_string()));
    assert_eq!(parse_command("ConfirmGame 12"), Err("Invalid UUID: 12".to_string()));
    assert_eq!(parse_command("DisplayPlayer nope"), Err("Invalid UUID: nope".to_string()));
    assert_eq!(parse_command(""), Err(String::new()));
    assert_eq!(parse_command("   "), Err(String::new()));
    assert_eq!(parse_command("Dance now"), Err("Unknown command: Dance".to_string()));
    assert_eq!(parse_command("searchgame"), Err("Unknown command: searchgame".to_string()));
}

#[test]
fn typed_lines() {
    assert!(matches!(interpret_line("q"), LineAction::Quit));
    assert!(matches!(interpret_line(" quit "), LineAction::Quit));
    assert!(matches!(interpret_line("h"), LineAction::ShowHelp));
    assert!(matches!(interpret_line("help"), LineAction::ShowHelp));
    assert!(matches!(interpret_line(""), LineAction::Nothing));
    assert!(matches!(interpret_line("SearchGame"), LineAction::Send(Command::SearchGame)));
    match interpret_line("Nope") {
        LineAction::Report(e) => assert_eq!(e, "Unknown command: Nope"),
        _ => panic!("expected an error"),
    }
}

#[test]
fn rank_boundaries() {
    assert_eq!(mmr_to_rank(0), "Iron");
    assert_eq!(mmr_to_rank(799), "Iron");
    assert_eq!(mmr_to_rank(800), "Bronze");
    assert_eq!(mmr_to_rank(999), "Bronze");
    assert_eq!(mmr_to_rank(1000), "Silver");
    assert_eq!(mmr_to_rank(1014), "Silver");
    assert_eq!(mmr_to_rank(1199), "Silver");
    assert_eq!(mmr_to_rank(1200), "Gold");
    assert_eq!(mmr_to_rank(1400), "Platinum");
    assert_eq!(mmr_to_rank(1600), "Diamond");
    assert_eq!(mmr_to_rank(1799), "Diamond");
    assert_eq!(mmr_to_rank(1800), "Master");
    assert_eq!(mmr_to_rank(2500), "Master");
    assert_eq!(mmr_to_rank(u32::MAX), "Master");
}

#[test]
fn ranks_never_drop_as_ratings_rise() {
    let order = ["Iron", "Bronze", "Silver", "Gold", "Platinum", "Diamond", "Master"];
    let mut last = 0;
    for mmr in (0..2500u32).step_by(7) {
        let tier = order.iter().position(|r| *r == mmr_to_rank(mmr)).unwrap();
        assert!(tier >= last);
        last = tier;
    }
}

#[test]
fn bots_react_to_server_messages() {
    match bot_reaction("Welcome", None, "", false, 0, 8) {
        BotReaction::Send { delay_ms, request: BotRequest::JoinLobby, constrained: false } => {
            assert!((500..2000).contains(&delay_ms))
        },
        _ => panic!("expected a join"),
    }
    match bot_reaction("LobbyJoined", None, "", false, 0, 8) {
        BotReaction::Send { delay_ms, request: BotRequest::SearchGame, constrained: false } => {
            assert!((1000..4000).contains(&delay_ms))
        },
        _ => panic!("expected a search"),
    }
    let mut ignored = 0;
    for _ in 0..200 {
        match bot_reaction("GameFound", Some("abc".to_string()), "", true, 0, 8) {
            BotReaction::Send { delay_ms, request: BotRequest::ConfirmGame { game_id }, constrained: true } => {
                assert!((300..=8000).contains(&delay_ms));
                assert_eq!(game_id, "abc");
            },
            BotReaction::Ignore => ignored += 1,
            _ => panic!("expected a confirmation or nothing"),
        }
        assert!(matches!(
            bot_reaction("GameFound", None, "", false, 0, 8),
            BotReaction::Wait { .. } | BotReaction::Ignore
        ));
    }
    assert!(ignored < 200);
    assert!(matches!(bot_reaction("StatusUpdate", None, "In Game", false, 0, 8), BotReaction::Ignore));
    assert!(matches!(bot_reaction("GameResult", None, "", false, 0, 8), BotReaction::Ignore));
    for _ in 0..50 {
        match bot_reaction("StatusUpdate", None, "Idle", false, 0, 8) {
            BotReaction::Disconnect => {},
            BotReaction::Send { delay_ms, request: BotRequest::SearchGame, constrained: false } => {
                assert!((30_000..120_000).contains(&delay_ms) || (1500..4000).contains(&delay_ms))
            },
            _ => panic!("unexpected reaction"),
        }
    }
}

#[test]
fn the_degraded_network() {
    assert_eq!(network_plan(100, 0), NetPlan::Drop);
    assert_eq!(network_plan(0, 0), NetPlan::Deliver { delay_ms: 0 });
    for _ in 0..50 {
        match network_plan(0, 2000) {
            NetPlan::Deliver { delay_ms } => assert!((10..2000).contains(&delay_ms)),
            NetPlan::Drop => panic!("nothing is lost at a zero loss rate"),
        }
    }
}

#[test]
fn random_pauses_stay_in_their_ranges() {
    for _ in 0..200 {
        assert!((5..=120).contains(&offline_pause_secs()));
        assert!((10..2000).contains(&startup_delay_ms()));
        assert!((600..=1200).contains(&game_length_secs()));
        assert!((1..=8).contains(&session_game_quota()));
        assert!((30..=120).contains(&idle_timeout_secs()));
    }
}

#[test]
fn reactions_follow_the_draws() {
    assert!(matches!(idle_reaction(0, 8, 9, 40, 2000), BotReaction::Disconnect));
    assert!(matches!(
        idle_reaction(0, 8, 10, 40, 2000),
        BotReaction::Send { delay_ms: 40_000, request: BotRequest::SearchGame, constrained: false }
    ));
    assert!(matches!(
        idle_reaction(0, 8, 29, 119, 2000),
        BotReaction::Send { delay_ms: 119_000, request: BotRequest::SearchGame, constrained: false }
    ));
    assert!(matches!(
        idle_reaction(0, 8, 30, 40, 2000),
        BotReaction::Send { delay_ms: 2000, request: BotRequest::SearchGame, constrained: false }
    ));
    assert!(matches!(idle_reaction(3, 3, 50, 40, 2000), BotReaction::Disconnect));
    assert!(matches!(found_game_reaction(9, 500, Some("g".to_string()), false), BotReaction::Ignore));
    match found_game_reaction(10, 500, Some("g".to_string()), true) {
        BotReaction::Send { delay_ms: 500, request: BotRequest::ConfirmGame { game_id }, constrained: true } => {
            assert_eq!(game_id, "g")
        },
        _ => panic!("expected a confirmation"),
    }
    assert!(matches!(found_game_reaction(50, 700, None, false), BotReaction::Wait { delay_ms: 700 }));
    assert_eq!(plan_from_draws(34, 500, 35, 2000), NetPlan::Drop);
    assert_eq!(plan_from_draws(35, 500, 35, 2000), NetPlan::Deliver { delay_ms: 500 });
    assert_eq!(plan_from_draws(99, 500, 35, 0), NetPlan::Deliver { delay_ms: 0 });
}

#[test]
fn commands_from_their_parts() {
    assert_eq!(command_from_parts("ConfirmGame", Some(("x", Some(7)))), Ok(Command::ConfirmGame { id: 7 }));
    assert_eq!(command_from_parts("ConfirmGame", Some(("x", None))), Err("Invalid UUID: x".to_string()));
    assert_eq!(command_from_parts("ConfirmGame", None), Err("Usage: ConfirmGame <uuid>".to_string()));
    assert_eq!(command_from_parts("JoinLobby", None), Ok(Command::JoinLobby { id: None }));
    assert_eq!(command_from_parts("DisplayPlayer", Some(("y", Some(3)))), Ok(Command::DisplayPlayer { id: Some(3) }));
    assert_eq!(command_from_parts("", None), Err(String::new()));
    assert_eq!(command_from_parts("Nope", None), Err("Unknown command: Nope".to_string()));
}

#[test]
fn surrounding_space_is_ignored() {
    assert_eq!(parse_command("  LeaveLobby  "), parse_command("LeaveLobby"));
    assert_eq!(parse_command(&format!("\tConfirmGame {} ", ID_TEXT)), parse_command(&format!("ConfirmGame {}", ID_TEXT)));
}

#[test]
fn stored_identifiers_are_read_back() {
    let texts = vec![ID_TEXT.to_string(), "not-a-uuid".to_string(), ID_TEXT.to_uppercase()];
    assert_eq!(parse_player_ids(&texts), vec![ID, ID]);
    assert_eq!(read_id_list(&format!("[\"{}\"]", ID_TEXT)), vec![ID]);
    assert_eq!(read_id_list("[]"), Vec::<u128>::new());
    assert_eq!(read_id_list("garbage"), Vec::<u128>::new());
}

#[test]
fn loaded_players_are_idle_with_their_stored_lists() {
    let p = Player::loaded(
        9,
        "amber-otter".to_string(),
        1014.2f64.to_bits(),
        1014,
        1200.0f64.to_bits(),
        &format!("[\"{}\"]", ID_TEXT),
        "oops",
        1,
        2,
    );
    assert_eq!(p.id, 9);
    assert_eq!(p.name, "amber-otter");
    assert_eq!(p.debug_rank, "Silver");
    assert_eq!(p.status, PlayerStatus::Idle);
    assert_eq!(p.lobby, None);
    assert_eq!(p.wins, vec![ID]);
    assert!(p.losses.is_empty());
    assert_eq!(p.debug_player_level, 1);
    assert_eq!(p.debug_player_form, 2);
}

#[test]
fn stored_lists_read_back() {
    let ids = vec![ID, 1, u128::MAX];
    let text = stored_id_list(&ids);
    assert_eq!(text, format!("[\"{}\",\"00000000-0000-0000-0000-000000000001\",\"ffffffff-ffff-ffff-ffff-ffffffffffff\"]", ID_TEXT));
    assert_eq!(read_id_list(&text), ids);
    let mut p = Player::new(3, 0, 0);
    p.wins = vec![ID];
    p.losses = vec![2, 3];
    let q = Player::loaded(
        p.id,
        p.name.clone(),
        p.mmr,
        1000,
        p.true_skill,
        &stored_id_list(&p.wins),
        &stored_id_list(&p.losses),
        0,
        0,
    );
    assert_eq!(q.wins, p.wins);
    assert_eq!(q.losses, p.losses);
    assert_eq!(q.name, p.name);
    assert_eq!(q.debug_rank, p.debug_rank);
    assert_eq!(q.status, PlayerStatus::Idle);
    assert_eq!(stored_id_list(&vec![]), "[]");
}
