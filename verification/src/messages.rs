//! Messages exchanged between players and the server.

use vstd::prelude::*;

use crate::structs::{Player, PlayerInfo, PlayerInfoView, PlayerStatus, PlayerView};

verus! {

/// A message the server sends to one player.
#[allow(inconsistent_fields)]
pub enum ServerMessage {
    Welcome { player: Player },
    LobbyJoined { lobby_id: u128 },
    Lobby { lobby_id: u128, players: Vec<String>, status: String },
    LobbyLeft { lobby_id: u128 },
    SearchingGame { lobby_id: u128, player_searching: String },
    SearchCancelled { lobby_id: u128, player_cancelling: String },
    GameFound { game_id: u128 },
    GameStarting { game_id: u128 },
    GameCancelled { game_id: u128 },
    /// `mmr_change` and `new_mmr` are `f64` bit patterns.
    GameResult { game_id: u128, won: bool, mmr_change: u64, new_mmr: u64, new_rank: String },
    PlayerUpdated { player: Player },
    PlayerInfo { player: PlayerInfo },
    Error { message: String },
    Info { message: String },
    StatusUpdate { status: PlayerStatus },
}

#[allow(inconsistent_fields)]
pub enum MessageView {
    Welcome { player: PlayerView },
    LobbyJoined { lobby_id: u128 },
    Lobby { lobby_id: u128, players: Seq<Seq<char>>, status: Seq<char> },
    LobbyLeft { lobby_id: u128 },
    SearchingGame { lobby_id: u128, player_searching: Seq<char> },
    SearchCancelled { lobby_id: u128, player_cancelling: Seq<char> },
    GameFound { game_id: u128 },
    GameStarting { game_id: u128 },
    GameCancelled { game_id: u128 },
    GameResult { game_id: u128, won: bool, mmr_change: u64, new_mmr: u64, new_rank: Seq<char> },
    PlayerUpdated { player: PlayerView },
    PlayerInfo { player: PlayerInfoView },
    Error { message: Seq<char> },
    Info { message: Seq<char> },
    StatusUpdate { status: PlayerStatus },
}

/// The texts of a vector of strings.
pub open spec fn texts(v: Seq<String>) -> Seq<Seq<char>> {
    v.map_values(|s: String| s@)
}

impl View for ServerMessage {
    type V = MessageView;

    open spec fn view(&self) -> MessageView {
        match self {
            ServerMessage::Welcome { player } => MessageView::Welcome { player: player@ },
            ServerMessage::LobbyJoined { lobby_id } => MessageView::LobbyJoined { lobby_id: *lobby_id },
            ServerMessage::Lobby { lobby_id, players, status } => MessageView::Lobby {
                lobby_id: *lobby_id,
                players: texts(players@),
                status: status@,
            },
            ServerMessage::LobbyLeft { lobby_id } => MessageView::LobbyLeft { lobby_id: *lobby_id },
            ServerMessage::SearchingGame { lobby_id, player_searching } => MessageView::SearchingGame {
                lobby_id: *lobby_id,
                player_searching: player_searching@,
            },
            ServerMessage::SearchCancelled { lobby_id, player_cancelling } => MessageView::SearchCancelled {
                lobby_id: *lobby_id,
                player_cancelling: player_cancelling@,
            },
            ServerMessage::GameFound { game_id } => MessageView::GameFound { game_id: *game_id },
            ServerMessage::GameStarting { game_id } => MessageView::GameStarting { game_id: *game_id },
            ServerMessage::GameCancelled { game_id } => MessageView::GameCancelled { game_id: *game_id },
            ServerMessage::GameResult { game_id, won, mmr_change, new_mmr, new_rank } => MessageView::GameResult {
                game_id: *game_id,
                won: *won,
                mmr_change: *mmr_change,
                new_mmr: *new_mmr,
                new_rank: new_rank@,
            },
            ServerMessage::PlayerUpdated { player } => MessageView::PlayerUpdated { player: player@ },
            ServerMessage::PlayerInfo { player } => MessageView::PlayerInfo { player: player@ },
            ServerMessage::Error { message } => MessageView::Error { message: message@ },
            ServerMessage::Info { message } => MessageView::Info { message: message@ },
            ServerMessage::StatusUpdate { status } => MessageView::StatusUpdate { status: *status },
        }
    }
}

/// Copies a vector of strings.
pub fn copy_strings(v: &Vec<String>) -> (r: Vec<String>)
    ensures
        texts(r@) == texts(v@),
{
    let mut r: Vec<String> = Vec::new();
    let mut i: usize = 0;
    while i < v.len()
        invariant
            0 <= i <= v.len(),
            r@.len() == i,
            forall|j: int| 0 <= j < i ==> #[trigger] r@[j]@ == v@[j]@,
        decreases v.len() - i,
    {
        r.push(v[i].clone());
        i = i + 1;
    }
    assert(texts(r@) =~= texts(v@));
    r
}

impl ServerMessage {
    /// A copy of the message.
    pub fn copy(&self) -> (m: ServerMessage)
        ensures
            m@ == self@,
    {
        match self {
            ServerMessage::Welcome { player } => ServerMessage::Welcome { player: player.copy() },
            ServerMessage::LobbyJoined { lobby_id } => ServerMessage::LobbyJoined { lobby_id: *lobby_id },
            ServerMessage::Lobby { lobby_id, players, status } => ServerMessage::Lobby {
                lobby_id: *lobby_id,
                players: copy_strings(players),
                status: status.clone(),
            },
            ServerMessage::LobbyLeft { lobby_id } => ServerMessage::LobbyLeft { lobby_id: *lobby_id },
            ServerMessage::SearchingGame { lobby_id, player_searching } => ServerMessage::SearchingGame {
                lobby_id: *lobby_id,
                player_searching: player_searching.clone(),
            },
            ServerMessage::SearchCancelled { lobby_id, player_cancelling } => ServerMessage::SearchCancelled {
                lobby_id: *lobby_id,
                player_cancelling: player_cancelling.clone(),
            },
            ServerMessage::GameFound { game_id } => ServerMessage::GameFound { game_id: *game_id },
            ServerMessage::GameStarting { game_id } => ServerMessage::GameStarting { game_id: *game_id },
            ServerMessage::GameCancelled { game_id } => ServerMessage::GameCancelled { game_id: *game_id },
            ServerMessage::GameResult { game_id, won, mmr_change, new_mmr, new_rank } => ServerMessage::GameResult {
                game_id: *game_id,
                won: *won,
                mmr_change: *mmr_change,
                new_mmr: *new_mmr,
                new_rank: new_rank.clone(),
            },
            ServerMessage::PlayerUpdated { player } => ServerMessage::PlayerUpdated { player: player.copy() },
            ServerMessage::PlayerInfo { player } => ServerMessage::PlayerInfo { player: player.copy() },
            ServerMessage::Error { message } => ServerMessage::Error { message: message.clone() },
            ServerMessage::Info { message } => ServerMessage::Info { message: message.clone() },
            ServerMessage::StatusUpdate { status } => ServerMessage::StatusUpdate { status: *status },
        }
    }
}

/// A request a player sends to the server.
#[allow(inconsistent_fields)]
pub enum ClientMessage {
    PlayerInfo,
    DisplayPlayer { id: Option<u128> },
    JoinLobby { id: Option<u128> },
    DisplayLobby,
    LeaveLobby,
    SearchGame,
    CancelSearch,
    ConfirmGame { id: u128 },
}

} // verus!
