//! Summaries of the server state for the monitoring dashboard.

use vstd::prelude::*;

use crate::app_state::confirmation::elapsed;
use crate::app_state::{AppState, StateView};
use crate::structs::{copy_ids, Game, GameView, QueueEntry};

verus! {

/// Counts shown live on the dashboard.
#[derive(Clone, Copy, Debug, PartialEq, Eq, Structural)]
pub struct DashboardSnapshot {
    pub total_player: usize,
    pub connected_players: usize,
    pub lobby_number: usize,
    pub game_number: usize,
    pub queueing_lobbies: usize,
    pub waiting_games: usize,
    pub ongoing_games: usize,
}

impl Default for DashboardSnapshot {
    fn default() -> (r: DashboardSnapshot)
        ensures
            r == (DashboardSnapshot {
                total_player: 0,
                connected_players: 0,
                lobby_number: 0,
                game_number: 0,
                queueing_lobbies: 0,
                waiting_games: 0,
                ongoing_games: 0,
            }),
    {
        DashboardSnapshot {
            total_player: 0,
            connected_players: 0,
            lobby_number: 0,
            game_number: 0,
            queueing_lobbies: 0,
            waiting_games: 0,
            ongoing_games: 0,
        }
    }
}

/// The dashboard's counts for a state; the game count covers the games
/// waiting for confirmation and those in progress.
pub open spec fn snapshot_of(s: StateView) -> DashboardSnapshot {
    DashboardSnapshot {
        total_player: s.total_player,
        connected_players: s.players.len() as usize,
        lobby_number: s.lobbys.len() as usize,
        game_number: if s.waiting.len() + s.ongoing.len() <= usize::MAX {
            (s.waiting.len() + s.ongoing.len()) as usize
        } else {
            usize::MAX
        },
        queueing_lobbies: s.queue.len() as usize,
        waiting_games: s.waiting.len() as usize,
        ongoing_games: s.ongoing.len() as usize,
    }
}

/// Number of `true` values.
pub open spec fn count_true(s: Seq<bool>) -> nat
    decreases s.len(),
{
    if s.len() == 0 {
        0
    } else {
        count_true(s.drop_last()) + if s.last() { 1nat } else { 0nat }
    }
}

/// Whole seconds elapsed from `start` to `now`.
pub open spec fn whole_seconds(now: u64, start: u64) -> u64 {
    (elapsed(now, start) / 1_000_000_000) as u64
}

/// A game as the dashboard lists it.
pub struct GameSnapshot {
    pub id: u128,
    pub team1: Vec<u128>,
    pub team2: Vec<u128>,
    pub lobbys: Vec<u128>,
    pub confirmed: Vec<u128>,
    pub elapsed_seconds: u64,
}

impl GameSnapshot {
    /// The dashboard's view of a game at time `now`.
    pub fn from(game: Game, now: u64) -> (r: GameSnapshot)
        ensures
            r.id == game.id,
            r.team1@ == game.team1@,
            r.team2@ == game.team2@,
            r.lobbys@ == game.lobbys@,
            r.confirmed@ == game.confirmed@,
            r.elapsed_seconds == whole_seconds(now, game.start_time),
    {
        let waited: u64 = if now >= game.start_time { now - game.start_time } else { 0 };
        GameSnapshot {
            id: game.id,
            team1: copy_ids(&game.team1),
            team2: copy_ids(&game.team2),
            lobbys: copy_ids(&game.lobbys),
            confirmed: copy_ids(&game.confirmed),
            elapsed_seconds: waited / 1_000_000_000,
        }
    }
}

impl QueueEntry {
    /// Whole seconds the entry has been waiting at time `now`.
    pub fn queue_seconds(&self, now: u64) -> (r: u64)
        ensures
            r == whole_seconds(now, self.start_time),
    {
        let waited: u64 = if now >= self.start_time { now - self.start_time } else { 0 };
        waited / 1_000_000_000
    }
}

impl AppState {
    /// The dashboard's live counts.
    pub fn snapshot(&self) -> (r: DashboardSnapshot)
        ensures
            r == snapshot_of(self@),
    {
        DashboardSnapshot {
            total_player: self.total_player,
            connected_players: self.players.len(),
            lobby_number: self.lobbys.len(),
            game_number: self.waiting_games.len().saturating_add(self.ongoing_games.len()),
            queueing_lobbies: self.queueing_lobbys.len(),
            waiting_games: self.waiting_games.len(),
            ongoing_games: self.ongoing_games.len(),
        }
    }

    /// How many of the recent found games were confirmed.
    pub fn successful_match_count(&self) -> (r: usize)
        ensures
            r == count_true(self@.match_outcomes),
    {
        let s = &self.debug_successful_match_rate;
        let mut c: usize = 0;
        let mut k: usize = 0;
        while k < s.len()
            invariant
                0 <= k <= s@.len(),
                c == count_true(s@.take(k as int)),
                c <= k,
            decreases s@.len() - k,
        {
            proof {
                assert(s@.take(k + 1).drop_last() =~= s@.take(k as int));
                assert(s@.take(k + 1).last() == s@[k as int]);
            }
            if s[k] {
                c = c + 1;
            }
            k = k + 1;
        }
        assert(s@.take(s@.len() as int) =~= s@);
        c
    }

    /// Changes the lobby capacity and the team size.
    pub fn apply_settings(&mut self, lobby_capacity: usize, team_size: usize)
        requires
            old(self).wf(),
        ensures
            final(self).wf(),
            final(self)@.settings.lobby_capacity == lobby_capacity,
            final(self)@.settings.team_size == team_size,
            final(self)@.settings.ranks == old(self)@.settings.ranks,
            final(self)@.settings.div_number == old(self)@.settings.div_number,
            final(self)@.settings.points_per_div == old(self)@.settings.points_per_div,
            final(self)@ == (StateView { settings: final(self)@.settings, ..old(self)@ }),
    {
        self.settings.lobby_capacity = lobby_capacity;
        self.settings.team_size = team_size;
        assert(self@ =~= StateView { settings: self@.settings, ..old(self)@ });
    }
}

} // verus!
