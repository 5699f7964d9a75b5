//! The records the server keeps: players, lobbies, queue entries and games.
//!
//! Identifiers are the 128-bit values of UUIDs. Times are nanoseconds on the
//! server's monotonic clock. Ratings are carried as the bit patterns of the
//! floating-point values that the surrounding program computes with; the
//! library stores and moves them but never interprets them.

use vstd::prelude::*;

use crate::ids::{generate_name, id_list_or_empty, read_id_list};
use crate::rank::{mmr_to_rank, rank_name};

verus! {

/// Bit pattern of the rating 1000.0 that every new player starts with.
pub const DEFAULT_RATING_BITS: u64 = 0x408F_4000_0000_0000u64;

/// Truncated value of the starting rating, used to derive the starting rank.
pub const DEFAULT_RATING_FLOOR: u32 = 1000u32;

/// Where a player (or a lobby) stands in the matchmaking cycle.
#[derive(Clone, Copy, Debug, PartialEq, Eq, Structural)]
pub enum PlayerStatus {
    Idle,
    InQueue { queue_time: u64 },
    NeedConfirmation { game_id: u128 },
    InGame { game_id: u128 },
}

/// Text shown for a status.
pub open spec fn status_label(s: PlayerStatus) -> Seq<char> {
    match s {
        PlayerStatus::Idle => "Idle"@,
        PlayerStatus::InQueue { .. } => "In Queue"@,
        PlayerStatus::NeedConfirmation { .. } => "Need Confirmation"@,
        PlayerStatus::InGame { .. } => "In Game"@,
    }
}

impl PlayerStatus {
    /// Whether the status is `Idle`.
    pub fn is_idle(&self) -> (b: bool)
        ensures
            b == (*self is Idle),
    {
        match self {
            PlayerStatus::Idle => true,
            _ => false,
        }
    }

    /// The text shown for this status.
    pub fn to_string(&self) -> (s: String)
        ensures
            s@ == status_label(*self),
    {
        match self {
            PlayerStatus::Idle => String::from_str("Idle"),
            PlayerStatus::InQueue { .. } => String::from_str("In Queue"),
            PlayerStatus::NeedConfirmation { .. } => String::from_str("Need Confirmation"),
            PlayerStatus::InGame { .. } => String::from_str("In Game"),
        }
    }
}

/// A connected player.
pub struct Player {
    pub id: u128,
    pub name: String,
    /// Visible rating, as the bit pattern of an `f64`.
    pub mmr: u64,
    /// Hidden rating, as the bit pattern of an `f64`.
    pub true_skill: u64,
    pub debug_rank: String,
    pub status: PlayerStatus,
    pub lobby: Option<u128>,
    pub wins: Vec<u128>,
    pub losses: Vec<u128>,
    /// Simulated skill ceiling, as the bit pattern of an `f32`.
    pub debug_player_level: u32,
    /// Simulated day-to-day form, as the bit pattern of an `f32`.
    pub debug_player_form: u32,
}

pub struct PlayerView {
    pub id: u128,
    pub name: Seq<char>,
    pub mmr: u64,
    pub true_skill: u64,
    pub debug_rank: Seq<char>,
    pub status: PlayerStatus,
    pub lobby: Option<u128>,
    pub wins: Seq<u128>,
    pub losses: Seq<u128>,
    pub debug_player_level: u32,
    pub debug_player_form: u32,
}

impl View for Player {
    type V = PlayerView;

    open spec fn view(&self) -> PlayerView {
        PlayerView {
            id: self.id,
            name: self.name@,
            mmr: self.mmr,
            true_skill: self.true_skill,
            debug_rank: self.debug_rank@,
            status: self.status,
            lobby: self.lobby,
            wins: self.wins@,
            losses: self.losses@,
            debug_player_level: self.debug_player_level,
            debug_player_form: self.debug_player_form,
        }
    }
}

/// Copies a vector of identifiers.
pub fn copy_ids(v: &Vec<u128>) -> (r: Vec<u128>)
    ensures
        r@ == v@,
{
    let r = v.clone();
    assert(r@ =~= v@);
    r
}

impl Player {
    /// A fresh player at the starting rating, idle and in no lobby, with a
    /// generated name and the given simulation values.
    pub fn new(id: u128, debug_player_level: u32, debug_player_form: u32) -> (p: Player)
        ensures
            p.id == id,
            p.mmr == DEFAULT_RATING_BITS,
            p.true_skill == DEFAULT_RATING_BITS,
            p.debug_rank@ == rank_name(DEFAULT_RATING_FLOOR),
            p.status == PlayerStatus::Idle,
            p.lobby is None,
            p.wins@.len() == 0,
            p.losses@.len() == 0,
            p.debug_player_level == debug_player_level,
            p.debug_player_form == debug_player_form,
            p.name@.contains('-'),
    {
        let name = generate_name();
        Player {
            id,
            name,
            mmr: DEFAULT_RATING_BITS,
            true_skill: DEFAULT_RATING_BITS,
            debug_rank: String::from_str(mmr_to_rank(DEFAULT_RATING_FLOOR)),
            status: PlayerStatus::Idle,
            lobby: None,
            wins: Vec::new(),
            losses: Vec::new(),
            debug_player_level,
            debug_player_form,
        }
    }

    /// A player read back from storage: the stored name, ratings and win and
    /// loss lists (stored as JSON lists of UUIDs; one that cannot be read
    /// counts as empty), the rank of the rating truncated to `rank_floor`,
    /// idle and in no lobby, with the given simulation values.
    pub fn loaded(
        id: u128,
        name: String,
        mmr: u64,
        rank_floor: u32,
        true_skill: u64,
        wins_text: &str,
        losses_text: &str,
        debug_player_level: u32,
        debug_player_form: u32,
    ) -> (p: Player)
        ensures
            p.id == id,
            p.name@ == name@,
            p.mmr == mmr,
            p.true_skill == true_skill,
            p.debug_rank@ == rank_name(rank_floor),
            p.status == PlayerStatus::Idle,
            p.lobby is None,
            p.wins@ == id_list_or_empty(wins_text@),
            p.losses@ == id_list_or_empty(losses_text@),
            p.debug_player_level == debug_player_level,
            p.debug_player_form == debug_player_form,
    {
        Player {
            id,
            name,
            mmr,
            true_skill,
            debug_rank: String::from_str(mmr_to_rank(rank_floor)),
            status: PlayerStatus::Idle,
            lobby: None,
            wins: read_id_list(wins_text),
            losses: read_id_list(losses_text),
            debug_player_level,
            debug_player_form,
        }
    }

    /// A copy of the player record.
    pub fn copy(&self) -> (p: Player)
        ensures
            p@ == self@,
    {
        Player {
            id: self.id,
            name: self.name.clone(),
            mmr: self.mmr,
            true_skill: self.true_skill,
            debug_rank: self.debug_rank.clone(),
            status: self.status,
            lobby: self.lobby,
            wins: copy_ids(&self.wins),
            losses: copy_ids(&self.losses),
            debug_player_level: self.debug_player_level,
            debug_player_form: self.debug_player_form,
        }
    }
}

/// The public part of a player record, without the hidden rating and the
/// simulation values.
pub struct PlayerInfo {
    pub id: u128,
    pub name: String,
    pub mmr: u64,
    pub debug_rank: String,
    pub status: PlayerStatus,
    pub lobby: Option<u128>,
    pub wins: Vec<u128>,
    pub losses: Vec<u128>,
}

pub struct PlayerInfoView {
    pub id: u128,
    pub name: Seq<char>,
    pub mmr: u64,
    pub debug_rank: Seq<char>,
    pub status: PlayerStatus,
    pub lobby: Option<u128>,
    pub wins: Seq<u128>,
    pub losses: Seq<u128>,
}

impl View for PlayerInfo {
    type V = PlayerInfoView;

    open spec fn view(&self) -> PlayerInfoView {
        PlayerInfoView {
            id: self.id,
            name: self.name@,
            mmr: self.mmr,
            debug_rank: self.debug_rank@,
            status: self.status,
            lobby: self.lobby,
            wins: self.wins@,
            losses: self.losses@,
        }
    }
}

/// The public part of a player view.
pub open spec fn player_info_of(p: PlayerView) -> PlayerInfoView {
    PlayerInfoView {
        id: p.id,
        name: p.name,
        mmr: p.mmr,
        debug_rank: p.debug_rank,
        status: p.status,
        lobby: p.lobby,
        wins: p.wins,
        losses: p.losses,
    }
}

impl PlayerInfo {
    /// The public part of a player record.
    pub fn from(player: Player) -> (info: PlayerInfo)
        ensures
            info@ == player_info_of(player@),
    {
        PlayerInfo {
            id: player.id,
            name: player.name,
            mmr: player.mmr,
            debug_rank: player.debug_rank,
            status: player.status,
            lobby: player.lobby,
            wins: player.wins,
            losses: player.losses,
        }
    }
}

impl PlayerInfo {
    /// A copy of the record.
    pub fn copy(&self) -> (p: PlayerInfo)
        ensures
            p@ == self@,
    {
        PlayerInfo {
            id: self.id,
            name: self.name.clone(),
            mmr: self.mmr,
            debug_rank: self.debug_rank.clone(),
            status: self.status,
            lobby: self.lobby,
            wins: copy_ids(&self.wins),
            losses: copy_ids(&self.losses),
        }
    }
}

/// A group of players that searches for a game together.
pub struct Lobby {
    pub id: u128,
    pub players: Vec<u128>,
    pub owner: u128,
    pub status: PlayerStatus,
}

pub struct LobbyView {
    pub id: u128,
    pub players: Seq<u128>,
    pub owner: u128,
    pub status: PlayerStatus,
}

impl View for Lobby {
    type V = LobbyView;

    open spec fn view(&self) -> LobbyView {
        LobbyView { id: self.id, players: self.players@, owner: self.owner, status: self.status }
    }
}

impl Lobby {
    /// An empty idle lobby with the given owner.
    pub fn new(id: u128, owner: u128) -> (l: Lobby)
        ensures
            l@ == (LobbyView { id, players: Seq::empty(), owner, status: PlayerStatus::Idle }),
    {
        let l = Lobby { id, players: Vec::new(), owner, status: PlayerStatus::Idle };
        assert(l@.players =~= Seq::<u128>::empty());
        l
    }

    /// A copy of the lobby record.
    pub fn copy(&self) -> (l: Lobby)
        ensures
            l@ == self@,
    {
        Lobby { id: self.id, players: copy_ids(&self.players), owner: self.owner, status: self.status }
    }
}

/// A lobby waiting in the matchmaking queue.
pub struct QueueEntry {
    /// When the lobby entered the queue.
    pub start_time: u64,
    pub lobby_id: u128,
    /// Hidden skill ratings (as `f64` bit patterns) of the lobby's connected
    /// members when it was queued; their sum divided by `player_count` is
    /// the lobby's average rating.
    pub member_mmrs: Vec<u64>,
    /// Number of players listed in the lobby when it was queued.
    pub player_count: usize,
}

pub struct QueueEntryView {
    pub start_time: u64,
    pub lobby_id: u128,
    pub member_mmrs: Seq<u64>,
    pub player_count: usize,
}

impl View for QueueEntry {
    type V = QueueEntryView;

    open spec fn view(&self) -> QueueEntryView {
        QueueEntryView {
            start_time: self.start_time,
            lobby_id: self.lobby_id,
            member_mmrs: self.member_mmrs@,
            player_count: self.player_count,
        }
    }
}

impl QueueEntry {
    /// A copy of the queue entry.
    pub fn copy(&self) -> (e: QueueEntry)
        ensures
            e@ == self@,
    {
        QueueEntry {
            start_time: self.start_time,
            lobby_id: self.lobby_id,
            member_mmrs: copy_ratings(&self.member_mmrs),
            player_count: self.player_count,
        }
    }
}

/// Copies a vector of rating bit patterns.
pub fn copy_ratings(v: &Vec<u64>) -> (r: Vec<u64>)
    ensures
        r@ == v@,
{
    let r = v.clone();
    assert(r@ =~= v@);
    r
}

/// Phase of a game.
#[derive(Clone, Copy, Debug, PartialEq, Eq, Structural)]
pub enum GameStatus {
    WaitingForConfirmation,
    Ongoing,
    Finished,
}

/// A game between two teams, formed from two lobbies.
pub struct Game {
    pub id: u128,
    pub team1: Vec<u128>,
    pub team2: Vec<u128>,
    pub lobbys: Vec<u128>,
    pub confirmed: Vec<u128>,
    pub start_time: u64,
    pub status: GameStatus,
}

pub struct GameView {
    pub id: u128,
    pub team1: Seq<u128>,
    pub team2: Seq<u128>,
    pub lobbys: Seq<u128>,
    pub confirmed: Seq<u128>,
    pub start_time: u64,
    pub status: GameStatus,
}

impl View for Game {
    type V = GameView;

    open spec fn view(&self) -> GameView {
        GameView {
            id: self.id,
            team1: self.team1@,
            team2: self.team2@,
            lobbys: self.lobbys@,
            confirmed: self.confirmed@,
            start_time: self.start_time,
            status: self.status,
        }
    }
}

impl Game {
    /// A game waiting for confirmation, started at `now`, with nobody
    /// confirmed yet.
    pub fn new(id: u128, team1: Vec<u128>, team2: Vec<u128>, lobbys: Vec<u128>, now: u64) -> (g: Game)
        ensures
            g@ == (GameView {
                id,
                team1: team1@,
                team2: team2@,
                lobbys: lobbys@,
                confirmed: Seq::empty(),
                start_time: now,
                status: GameStatus::WaitingForConfirmation,
            }),
    {
        let g = Game {
            id,
            team1,
            team2,
            lobbys,
            start_time: now,
            status: GameStatus::WaitingForConfirmation,
            confirmed: Vec::new(),
        };
        assert(g@.confirmed =~= Seq::<u128>::empty());
        g
    }

    /// A copy of the game record.
    pub fn copy(&self) -> (g: Game)
        ensures
            g@ == self@,
    {
        Game {
            id: self.id,
            team1: copy_ids(&self.team1),
            team2: copy_ids(&self.team2),
            lobbys: copy_ids(&self.lobbys),
            confirmed: copy_ids(&self.confirmed),
            start_time: self.start_time,
            status: self.status,
        }
    }
}

/// The outcome of a finished game.
pub struct GameResult {
    pub id: u128,
    pub team1: Vec<u128>,
    pub team2: Vec<u128>,
    /// 1 when the first team won, 2 otherwise.
    pub winner: u8,
    pub start_time: u64,
    /// Nanoseconds between the start of the game and its resolution.
    pub duration: u64,
}

pub struct GameResultView {
    pub id: u128,
    pub team1: Seq<u128>,
    pub team2: Seq<u128>,
    pub winner: u8,
    pub start_time: u64,
    pub duration: u64,
}

impl View for GameResult {
    type V = GameResultView;

    open spec fn view(&self) -> GameResultView {
        GameResultView {
            id: self.id,
            team1: self.team1@,
            team2: self.team2@,
            winner: self.winner,
            start_time: self.start_time,
            duration: self.duration,
        }
    }
}

} // verus!
