//! Games in progress coming to an end, and the bookkeeping of their results.
//!
//! When a game ends, and who wins, is decided by chance and by the players'
//! simulated skill in floating point; the surrounding program decides it and
//! hands the outcome over. Rating changes are likewise computed outside and
//! recorded here.

use vstd::prelude::*;

use crate::app_state::confirmation::elapsed;
use crate::app_state::{games_view, AppState, StateView};
use crate::keyed::{lemma_key_index, lemma_unique_update, lookup, replace_key, unique_keys, Keyed};
use crate::messages::{MessageView, ServerMessage};
use crate::rank::{mmr_to_rank, rank_name};
use crate::structs::{copy_ids, Game, GameResult, GameResultView, GameView, PlayerStatus, PlayerView};

verus! {

/// The games whose flag equals `want`, in order.
pub open spec fn select(gs: Seq<GameView>, flags: Seq<bool>, want: bool) -> Seq<GameView>
    decreases gs.len(),
{
    if gs.len() == 0 || flags.len() != gs.len() {
        Seq::empty()
    } else {
        let r = select(gs.drop_last(), flags.drop_last(), want);
        if flags.last() == want {
            r.push(gs.last())
        } else {
            r
        }
    }
}

/// Every selected game is one of the games.
pub proof fn lemma_select_contains(gs: Seq<GameView>, flags: Seq<bool>, want: bool, x: int)
    requires
        0 <= x < select(gs, flags, want).len(),
    ensures
        gs.contains(select(gs, flags, want)[x]),
    decreases gs.len(),
{
    let r = select(gs.drop_last(), flags.drop_last(), want);
    if x < r.len() {
        lemma_select_contains(gs.drop_last(), flags.drop_last(), want, x);
        let j = choose|j: int| 0 <= j < gs.drop_last().len() && gs.drop_last()[j] == r[x];
        assert(gs[j] == r[x]);
    } else {
        assert(gs[gs.len() - 1] == gs.last());
    }
}

/// Selecting games keeps identifiers unique.
pub proof fn lemma_unique_select(gs: Seq<GameView>, flags: Seq<bool>, want: bool)
    requires
        unique_keys(gs),
    ensures
        unique_keys(select(gs, flags, want)),
    decreases gs.len(),
{
    if gs.len() > 0 && flags.len() == gs.len() {
        let d = gs.drop_last();
        assert forall|a: int, b: int|
            0 <= a < d.len() && 0 <= b < d.len() && a != b implies #[trigger] d[a].key() != #[trigger] d[b].key() by {
            assert(d[a] == gs[a] && d[b] == gs[b]);
        }
        lemma_unique_select(d, flags.drop_last(), want);
        let r = select(d, flags.drop_last(), want);
        if flags.last() == want {
            let t = r.push(gs.last());
            assert forall|a: int, b: int|
                0 <= a < t.len() && 0 <= b < t.len() && a != b implies #[trigger] t[a].key() != #[trigger] t[b].key() by {
                if a < r.len() && b < r.len() {
                    assert(t[a] == r[a] && t[b] == r[b]);
                } else {
                    let y = if a < r.len() { a } else { b };
                    assert(t[y] == r[y]);
                    lemma_select_contains(d, flags.drop_last(), want, y);
                    let j = choose|j: int| 0 <= j < d.len() && d[j] == r[y];
                    assert(gs[j] == d[j]);
                    assert(gs[j].key() != gs[gs.len() - 1].key());
                }
            }
        }
    }
}

/// Selecting by flags that tell, game by game, whether a predicate holds
/// is filtering by that predicate.
pub proof fn lemma_select_filter(gs: Seq<GameView>, flags: Seq<bool>, want: bool, pred: spec_fn(GameView) -> bool)
    requires
        flags.len() == gs.len(),
        forall|i: int| 0 <= i < gs.len() ==> (flags[i] == want) == pred(#[trigger] gs[i]),
    ensures
        select(gs, flags, want) == gs.filter(pred),
    decreases gs.len(),
{
    if gs.len() > 0 {
        let d = gs.drop_last();
        assert forall|i: int| 0 <= i < d.len() implies (flags.drop_last()[i] == want) == pred(#[trigger] d[i]) by {
            assert(d[i] == gs[i]);
        }
        lemma_select_filter(d, flags.drop_last(), want, pred);
        assert(gs =~= d.push(gs.last()));
        d.lemma_filter_push(gs.last(), pred);
        assert(flags.last() == flags[gs.len() - 1]);
    } else {
        assert(gs.filter(pred) =~= Seq::<GameView>::empty()) by {
            reveal(Seq::filter);
        }
    }
}

/// Splits games by their flags, keeping the order: first the games whose
/// flag is set, then the others.
pub(crate) fn split_games(games: Vec<Game>, flags: &Vec<bool>) -> (r: (Vec<Game>, Vec<Game>))
    requires
        flags@.len() == games@.len(),
    ensures
        games_view(r.0@) == select(games_view(games@), flags@, true),
        games_view(r.1@) == select(games_view(games@), flags@, false),
{
    let ghost gs = games_view(games@);
    let n = games.len();
    let mut yes: Vec<Game> = Vec::new();
    let mut no: Vec<Game> = Vec::new();
    let mut k: usize = 0;
    while k < n
        invariant
            0 <= k <= n,
            n == games@.len(),
            flags@.len() == n,
            gs == games_view(games@),
            games_view(yes@) == select(gs.take(k as int), flags@.take(k as int), true),
            games_view(no@) == select(gs.take(k as int), flags@.take(k as int), false),
        decreases n - k,
    {
        let g = games[k].copy();
        proof {
            assert(gs.take(k + 1).drop_last() =~= gs.take(k as int));
            assert(flags@.take(k + 1).drop_last() =~= flags@.take(k as int));
            assert(gs.take(k + 1).last() == g@);
            assert(flags@.take(k + 1).last() == flags@[k as int]);
        }
        if flags[k] {
            let ghost prev = games_view(yes@);
            yes.push(g);
            assert(games_view(yes@) =~= prev.push(gs[k as int]));
        } else {
            let ghost prev = games_view(no@);
            no.push(g);
            assert(games_view(no@) =~= prev.push(gs[k as int]));
        }
        k = k + 1;
    }
    assert(gs.take(n as int) =~= gs);
    assert(flags@.take(n as int) =~= flags@);
    (yes, no)
}

/// The outcome record of a game resolved at time `now`.
pub open spec fn result_of(g: GameView, team1_won: bool, now: u64) -> GameResultView {
    GameResultView {
        id: g.id,
        team1: g.team1,
        team2: g.team2,
        winner: if team1_won { 1 } else { 2 },
        start_time: g.start_time,
        duration: elapsed(now, g.start_time) as u64,
    }
}

/// A player's record after a game, given the new ratings (as bit patterns)
/// and the truncated new visible rating from which the rank is derived.
pub open spec fn after_game(p: PlayerView, game_id: u128, won: bool, new_mmr: u64, new_true_skill: u64, rank_floor: u32) -> PlayerView {
    PlayerView {
        mmr: new_mmr,
        true_skill: new_true_skill,
        debug_rank: rank_name(rank_floor),
        status: PlayerStatus::Idle,
        wins: if won { p.wins.push(game_id) } else { p.wins },
        losses: if won { p.losses } else { p.losses.push(game_id) },
        ..p
    }
}

/// True-skill ratings of the connected players among `ids`, in order.
pub open spec fn team_skills(ps: Seq<PlayerView>, ids: Seq<u128>) -> Seq<u64>
    decreases ids.len(),
{
    if ids.len() == 0 {
        Seq::empty()
    } else {
        let rest = team_skills(ps, ids.drop_last());
        match lookup(ps, ids.last()) {
            Some(p) => rest.push(p.true_skill),
            None => rest,
        }
    }
}

impl StateView {
    /// The state after the games flagged as finished leave the games in
    /// progress.
    pub open spec fn drop_finished(self, flags: Seq<bool>) -> StateView {
        StateView { ongoing: select(self.ongoing, flags, false), ..self }
    }

    /// The state after recording a player's result in a game: the record is
    /// updated, and the player is sent the result (with the rating change
    /// `mmr_change`, a bit pattern) and then the updated record.
    pub open spec fn record_result(
        self,
        pid: u128,
        game_id: u128,
        won: bool,
        new_mmr: u64,
        new_true_skill: u64,
        rank_floor: u32,
        mmr_change: u64,
    ) -> StateView {
        match lookup(self.players, pid) {
            None => self,
            Some(p) => {
                let np = after_game(p, game_id, won, new_mmr, new_true_skill, rank_floor);
                StateView { players: replace_key(self.players, pid, np), ..self }.send(
                    pid,
                    MessageView::GameResult { game_id, won, mmr_change, new_mmr, new_rank: rank_name(rank_floor) },
                ).send(pid, MessageView::PlayerUpdated { player: np })
            },
        }
    }
}

/// How long a simulated game lasts at normal speed: from 600 to 1200
/// seconds, at random.
pub fn game_length_secs() -> (s: u64)
    ensures
        600 <= s <= 1200,
{
    crate::bot::random_below(600, 1201)
}

impl GameResult {
    /// The winning team and the losing team.
    pub fn sides(&self) -> (r: (Vec<u128>, Vec<u128>))
        ensures
            self.winner == 1 ==> r.0@ == self.team1@ && r.1@ == self.team2@,
            self.winner != 1 ==> r.0@ == self.team2@ && r.1@ == self.team1@,
    {
        if self.winner == 1 {
            (copy_ids(&self.team1), copy_ids(&self.team2))
        } else {
            (copy_ids(&self.team2), copy_ids(&self.team1))
        }
    }
}

impl AppState {
    /// Takes the games in progress flagged as finished (one flag per game, in
    /// order) out of the games in progress and returns them, in order.
    pub fn take_finished_games(&mut self, finished: &Vec<bool>) -> (r: Vec<Game>)
        requires
            old(self).wf(),
            finished@.len() == old(self)@.ongoing.len(),
        ensures
            final(self).wf(),
            games_view(r@) == select(old(self)@.ongoing, finished@, true),
            final(self)@ == old(self)@.drop_finished(finished@),
    {
        let ghost s0 = self@;
        let ghost og = s0.ongoing;
        let mut games: Vec<Game> = Vec::new();
        std::mem::swap(&mut games, &mut self.ongoing_games);
        let (done, kept) = split_games(games, finished);
        self.ongoing_games = kept;
        proof {
            lemma_unique_select(og, finished@, false);
        }
        assert(self@ =~= s0.drop_finished(finished@));
        done
    }

    /// A finished game is resolved at time `now`: its lobbies (and their
    /// members) become idle and its outcome is returned.
    pub fn resolve_game(&mut self, game: &Game, team1_won: bool, now: u64) -> (r: GameResult)
        requires
            old(self).wf(),
        ensures
            final(self).wf(),
            final(self)@ == old(self)@.set_lobbys_status(game@.lobbys, PlayerStatus::Idle),
            r@ == result_of(game@, team1_won, now),
    {
        self.update_lobbys_status(&game.lobbys, PlayerStatus::Idle);
        GameResult {
            id: game.id,
            team1: copy_ids(&game.team1),
            team2: copy_ids(&game.team2),
            winner: if team1_won { 1 } else { 2 },
            start_time: game.start_time,
            duration: if now >= game.start_time { now - game.start_time } else { 0 },
        }
    }

    /// True-skill ratings (as bit patterns) of the connected members of a
    /// team, in order.
    pub fn team_true_skills(&self, team: &Vec<u128>) -> (r: Vec<u64>)
        requires
            self.wf(),
        ensures
            r@ == team_skills(self@.players, team@),
    {
        let mut r: Vec<u64> = Vec::new();
        let mut k: usize = 0;
        while k < team.len()
            invariant
                self.wf(),
                0 <= k <= team@.len(),
                r@ == team_skills(self@.players, team@.take(k as int)),
            decreases team@.len() - k,
        {
            proof {
                assert(team@.take(k + 1).drop_last() =~= team@.take(k as int));
                assert(team@.take(k + 1).last() == team@[k as int]);
            }
            match self.find_player(team[k]) {
                Some(j) => {
                    r.push(self.players[j].true_skill);
                },
                None => {},
            }
            k = k + 1;
        }
        assert(team@.take(team@.len() as int) =~= team@);
        r
    }

    /// Records a player's result in a game: the new ratings (as bit
    /// patterns) and the rank of the truncated new visible rating, the
    /// player becomes idle, and the game joins their wins or losses; the
    /// player is sent the result and then the updated record. Returns
    /// whether the player is connected (when not, nothing changes).
    pub fn update_player(
        &mut self,
        player_id: u128,
        game_id: u128,
        won: bool,
        new_mmr: u64,
        new_true_skill: u64,
        rank_floor: u32,
        mmr_change: u64,
    ) -> (r: bool)
        requires
            old(self).wf(),
        ensures
            final(self).wf(),
            final(self)@ == old(self)@.record_result(player_id, game_id, won, new_mmr, new_true_skill, rank_floor, mmr_change),
            r == lookup(old(self)@.players, player_id) is Some,
    {
        let ghost s0 = self@;
        match self.find_player(player_id) {
            None => false,
            Some(j) => {
                let ghost p = s0.players[j as int];
                proof {
                    lemma_key_index(s0.players, j as int);
                }
                self.players[j].mmr = new_mmr;
                self.players[j].true_skill = new_true_skill;
                self.players[j].debug_rank = String::from_str(mmr_to_rank(rank_floor));
                self.players[j].status = PlayerStatus::Idle;
                if won {
                    self.players[j].wins.push(game_id);
                } else {
                    self.players[j].losses.push(game_id);
                }
                proof {
                    let np = after_game(p, game_id, won, new_mmr, new_true_skill, rank_floor);
                    assert(self@.players[j as int] =~= np);
                    assert(self@.players =~= s0.players.update(j as int, np));
                    lemma_unique_update(s0.players, j as int, np);
                }
                let updated = self.players[j].copy();
                self.send_to(
                    player_id,
                    ServerMessage::GameResult {
                        game_id,
                        won,
                        mmr_change,
                        new_mmr,
                        new_rank: String::from_str(mmr_to_rank(rank_floor)),
                    },
                );
                self.send_to(player_id, ServerMessage::PlayerUpdated { player: updated });
                assert(self@ =~= s0.record_result(
                    player_id,
                    game_id,
                    won,
                    new_mmr,
                    new_true_skill,
                    rank_floor,
                    mmr_change,
                ));
                true
            },
        }
    }
}

} // verus!
