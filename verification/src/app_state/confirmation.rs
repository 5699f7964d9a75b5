//! Games waiting for confirmation: timing them out, and starting those that
//! every player confirmed.

use vstd::prelude::*;

use crate::app_state::simulation::{lemma_select_filter, split_games};
use crate::app_state::{find_game_index, games_view, ids_contains, AppState, StateView};
use crate::keyed::{
    insert_key, key_index, lemma_key_index, lookup, lemma_unique_filter, lemma_unique_insert, lemma_unique_remove, remove_key,
    unique_keys,
};
use crate::messages::{MessageView, ServerMessage};
use crate::structs::{copy_ids, Game, GameView, PlayerStatus};

verus! {

/// Number of recent samples kept for the dashboard's averages.
pub const SAMPLE_WINDOW: usize = 25;

/// A window of samples after adding one: the oldest is dropped once there
/// are more than `SAMPLE_WINDOW`.
pub open spec fn bounded_push<T>(s: Seq<T>, x: T) -> Seq<T> {
    let t = s.push(x);
    if t.len() > SAMPLE_WINDOW {
        t.drop_first()
    } else {
        t
    }
}

/// Time elapsed from `start` to `now`, zero if `now` is earlier.
pub open spec fn elapsed(now: u64, start: u64) -> nat {
    if now >= start {
        (now - start) as nat
    } else {
        0
    }
}

/// A game has waited longer than `secs` seconds at time `now`.
pub open spec fn is_expired(g: GameView, now: u64, secs: u64) -> bool {
    elapsed(now, g.start_time) > secs * 1_000_000_000
}

pub open spec fn expired_pred(now: u64, secs: u64) -> spec_fn(GameView) -> bool {
    |g: GameView| is_expired(g, now, secs)
}

pub open spec fn kept_pred(now: u64, secs: u64) -> spec_fn(GameView) -> bool {
    |g: GameView| !is_expired(g, now, secs)
}

/// Every listed member is among those who confirmed.
pub open spec fn all_confirmed(members: Seq<u128>, confirmed: Seq<u128>) -> bool {
    forall|i: int| 0 <= i < members.len() ==> confirmed.contains(#[trigger] members[i])
}

/// A game that at least `required` players confirmed.
pub open spec fn confirmed_pred(required: int) -> spec_fn(GameView) -> bool {
    |g: GameView| g.confirmed.len() >= required
}

impl StateView {
    /// The state after adding a found-game outcome to the window of samples.
    pub open spec fn record_outcome(self, ok: bool) -> StateView {
        StateView { match_outcomes: bounded_push(self.match_outcomes, ok), ..self }
    }

    /// The state after setting the status of each listed lobby in turn.
    pub open spec fn set_lobbys_status(self, lids: Seq<u128>, st: PlayerStatus) -> StateView
        decreases lids.len(),
    {
        if lids.len() == 0 {
            self
        } else {
            self.set_lobbys_status(lids.drop_last(), st).set_lobby_status(lids.last(), st)
        }
    }

    /// After a game timed out at time `now`, lobby `lid` goes back into the
    /// queue when all its members confirmed the game; otherwise it becomes
    /// idle and its members are told their new status.
    pub open spec fn settle_lobby(self, lid: u128, confirmed: Seq<u128>, now: u64) -> StateView {
        match lookup(self.lobbys, lid) {
            None => self,
            Some(l) => if all_confirmed(l.players, confirmed) {
                self.queue_lobby_at(l, now)
            } else {
                self.set_lobby_status(lid, PlayerStatus::Idle).send_all(
                    l.players,
                    MessageView::StatusUpdate { status: PlayerStatus::Idle },
                )
            },
        }
    }

    /// Settles each listed lobby in turn.
    pub open spec fn settle_lobbys(self, lids: Seq<u128>, confirmed: Seq<u128>, now: u64) -> StateView
        decreases lids.len(),
    {
        if lids.len() == 0 {
            self
        } else {
            self.settle_lobbys(lids.drop_last(), confirmed, now).settle_lobby(lids.last(), confirmed, now)
        }
    }

    /// Each timed-out game in turn is announced as cancelled to both teams,
    /// settles its lobbies (re-queueing those whose members all confirmed)
    /// and counts as a failed match.
    pub open spec fn expire_all(self, gs: Seq<GameView>, now: u64) -> StateView
        decreases gs.len(),
    {
        if gs.len() == 0 {
            self
        } else {
            let g = gs.last();
            self.expire_all(gs.drop_last(), now)
                .send_all(g.team1, MessageView::GameCancelled { game_id: g.id })
                .send_all(g.team2, MessageView::GameCancelled { game_id: g.id })
                .settle_lobbys(g.lobbys, g.confirmed, now)
                .record_outcome(false)
        }
    }

    /// Each confirmed game in turn announces its start to both teams and
    /// counts as a successful match.
    pub open spec fn announce_all(self, gs: Seq<GameView>) -> StateView
        decreases gs.len(),
    {
        if gs.len() == 0 {
            self
        } else {
            let g = gs.last();
            self.announce_all(gs.drop_last())
                .send_all(g.team1, MessageView::GameStarting { game_id: g.id })
                .send_all(g.team2, MessageView::GameStarting { game_id: g.id })
                .record_outcome(true)
        }
    }

    /// Each confirmed game in turn moves from the waiting games to the games
    /// in progress.
    pub open spec fn move_all(self, gs: Seq<GameView>) -> StateView
        decreases gs.len(),
    {
        if gs.len() == 0 {
            self
        } else {
            let s = self.move_all(gs.drop_last());
            StateView {
                waiting: remove_key(s.waiting, gs.last().id),
                ongoing: insert_key(s.ongoing, gs.last()),
                ..s
            }
        }
    }

    /// Each game in turn puts its lobbies in the "in game" status.
    pub open spec fn mark_in_game(self, gs: Seq<GameView>) -> StateView
        decreases gs.len(),
    {
        if gs.len() == 0 {
            self
        } else {
            self.mark_in_game(gs.drop_last()).set_lobbys_status(
                gs.last().lobbys,
                PlayerStatus::InGame { game_id: gs.last().id },
            )
        }
    }

    /// Drops the timed-out games, given the confirmation time in seconds, or
    /// `None` when games never time out.
    pub open spec fn drop_expired(self, now: u64, limit: Option<u64>) -> StateView {
        match limit {
            None => self,
            Some(secs) => {
                let s = self.expire_all(self.waiting.filter(expired_pred(now, secs)), now);
                StateView { waiting: self.waiting.filter(kept_pred(now, secs)), ..s }
            },
        }
    }

    /// One round of the confirmation check at time `now`: timed-out games
    /// are dropped, then the games that both teams confirmed are announced,
    /// moved to the games in progress, and every game in progress puts its
    /// lobbies in the "in game" status.
    pub open spec fn check_confirmations(self, now: u64, limit: Option<u64>) -> StateView {
        let s1 = self.drop_expired(now, limit);
        let confirmed = s1.waiting.filter(confirmed_pred(s1.settings.team_size * 2));
        if confirmed.len() == 0 {
            s1
        } else {
            let s2 = s1.announce_all(confirmed).move_all(confirmed);
            s2.mark_in_game(s2.ongoing)
        }
    }
}

/// Setting lobby statuses touches only lobbies and players.
pub proof fn lemma_set_lobbys_status_frame(s: StateView, lids: Seq<u128>, st: PlayerStatus)
    ensures
        ({
            let r = s.set_lobbys_status(lids, st);
            &&& r.total_player == s.total_player
            &&& r.queue == s.queue
            &&& r.waiting == s.waiting
            &&& r.ongoing == s.ongoing
            &&& r.settings == s.settings
            &&& r.queue_times == s.queue_times
            &&& r.match_outcomes == s.match_outcomes
            &&& r.outbox == s.outbox
        }),
    decreases lids.len(),
{
    if lids.len() > 0 {
        lemma_set_lobbys_status_frame(s, lids.drop_last(), st);
    }
}

/// Settling lobbies touches only lobbies, players, the queue and the
/// outbox.
pub proof fn lemma_settle_lobbys_frame(s: StateView, lids: Seq<u128>, confirmed: Seq<u128>, now: u64)
    ensures
        ({
            let r = s.settle_lobbys(lids, confirmed, now);
            &&& r.total_player == s.total_player
            &&& r.waiting == s.waiting
            &&& r.ongoing == s.ongoing
            &&& r.settings == s.settings
            &&& r.queue_times == s.queue_times
            &&& r.match_outcomes == s.match_outcomes
        }),
    decreases lids.len(),
{
    if lids.len() > 0 {
        lemma_settle_lobbys_frame(s, lids.drop_last(), confirmed, now);
    }
}

/// Timing games out touches neither the games, the settings nor the queue
/// times.
pub proof fn lemma_expire_all_frame(s: StateView, gs: Seq<GameView>, now: u64)
    ensures
        ({
            let r = s.expire_all(gs, now);
            &&& r.total_player == s.total_player
            &&& r.waiting == s.waiting
            &&& r.ongoing == s.ongoing
            &&& r.settings == s.settings
            &&& r.queue_times == s.queue_times
        }),
    decreases gs.len(),
{
    if gs.len() > 0 {
        lemma_expire_all_frame(s, gs.drop_last(), now);
        let g = gs.last();
        let t = s.expire_all(gs.drop_last(), now)
            .send_all(g.team1, MessageView::GameCancelled { game_id: g.id })
            .send_all(g.team2, MessageView::GameCancelled { game_id: g.id });
        lemma_settle_lobbys_frame(t, g.lobbys, g.confirmed, now);
    }
}

/// Announcing games touches only the outbox and the outcome samples.
pub proof fn lemma_announce_all_frame(s: StateView, gs: Seq<GameView>)
    ensures
        ({
            let r = s.announce_all(gs);
            &&& r.total_player == s.total_player
            &&& r.players == s.players
            &&& r.lobbys == s.lobbys
            &&& r.queue == s.queue
            &&& r.waiting == s.waiting
            &&& r.ongoing == s.ongoing
            &&& r.settings == s.settings
            &&& r.queue_times == s.queue_times
        }),
    decreases gs.len(),
{
    if gs.len() > 0 {
        lemma_announce_all_frame(s, gs.drop_last());
    }
}

/// Moving games touches only the two lists of games, and keeps their
/// identifiers unique.
pub proof fn lemma_move_all_frame(s: StateView, gs: Seq<GameView>)
    requires
        s.wf(),
    ensures
        ({
            let r = s.move_all(gs);
            &&& r.wf()
            &&& r == (StateView { waiting: r.waiting, ongoing: r.ongoing, ..s })
        }),
    decreases gs.len(),
{
    if gs.len() > 0 {
        lemma_move_all_frame(s, gs.drop_last());
        let t = s.move_all(gs.drop_last());
        crate::keyed::lemma_unique_remove_key(t.waiting, gs.last().id);
        lemma_unique_insert(t.ongoing, gs.last());
    }
}

/// Marking games in progress touches only lobbies and players.
pub proof fn lemma_mark_in_game_frame(s: StateView, gs: Seq<GameView>)
    ensures
        ({
            let r = s.mark_in_game(gs);
            &&& r.total_player == s.total_player
            &&& r.queue == s.queue
            &&& r.waiting == s.waiting
            &&& r.ongoing == s.ongoing
            &&& r.settings == s.settings
            &&& r.queue_times == s.queue_times
            &&& r.match_outcomes == s.match_outcomes
            &&& r.outbox == s.outbox
        }),
    decreases gs.len(),
{
    if gs.len() > 0 {
        lemma_mark_in_game_frame(s, gs.drop_last());
        lemma_set_lobbys_status_frame(
            s.mark_in_game(gs.drop_last()),
            gs.last().lobbys,
            PlayerStatus::InGame { game_id: gs.last().id },
        );
    }
}

impl AppState {
    /// One round of the confirmation check at time `now`, given the
    /// confirmation time in seconds (`None` when games never time out):
    /// timed-out games are dropped and their lobbies made idle; games that
    /// both teams fully confirmed are announced to their players, move to
    /// the games in progress, and every game in progress then puts its
    /// lobbies in the "in game" status.
    pub fn check_confirmations(&mut self, now: u64, limit: Option<u64>)
        requires
            old(self).wf(),
            old(self)@.settings.team_size * 2 <= usize::MAX,
        ensures
            final(self).wf(),
            final(self)@ == old(self)@.check_confirmations(now, limit),
    {
        let required = self.settings.team_size * 2;
        let ghost s0 = self@;
        self.drop_expired_games(now, limit);
        let ghost s1 = self@;
        proof {
            match limit {
                None => {},
                Some(secs) => {
                    lemma_expire_all_frame(s0, s0.waiting.filter(expired_pred(now, secs)), now);
                },
            }
            assert(s1.settings == s0.settings);
        }
        let ghost w = s1.waiting;
        let ghost pred = confirmed_pred(required as int);
        let mut confirmed: Vec<Game> = Vec::new();
        let n = self.waiting_games.len();
        let mut i: usize = 0;
        while i < n
            invariant
                0 <= i <= n,
                n == w.len(),
                self@ == s1,
                games_view(self.waiting_games@) == w,
                games_view(confirmed@) == w.take(i as int).filter(pred),
                pred == confirmed_pred(required as int),
            decreases n - i,
        {
            proof {
                assert(w.take(i + 1) =~= w.take(i as int).push(w[i as int]));
                w.take(i as int).lemma_filter_push(w[i as int], pred);
            }
            if self.waiting_games[i].confirmed.len() >= required {
                let g = self.waiting_games[i].copy();
                confirmed.push(g);
                assert(games_view(confirmed@) =~= w.take(i as int).filter(pred).push(w[i as int]));
            }
            i = i + 1;
        }
        assert(w.take(n as int) =~= w);
        let ghost cs = games_view(confirmed@);
        assert(cs == s1.waiting.filter(confirmed_pred(s1.settings.team_size * 2)));
        if confirmed.len() == 0 {
            return;
        }
        let m = confirmed.len();
        let mut k: usize = 0;
        while k < m
            invariant
                0 <= k <= m,
                m == cs.len(),
                games_view(confirmed@) == cs,
                self.wf(),
                self@ == s1.announce_all(cs.take(k as int)),
            decreases m - k,
        {
            proof {
                assert(cs.take(k + 1).drop_last() =~= cs.take(k as int));
                assert(cs.take(k + 1).last() == cs[k as int]);
            }
            let game_id = confirmed[k].id;
            self.send_to_players(&confirmed[k].team1, ServerMessage::GameStarting { game_id });
            self.send_to_players(&confirmed[k].team2, ServerMessage::GameStarting { game_id });
            self.add_successful_match_sample(true);
            k = k + 1;
        }
        assert(cs.take(m as int) =~= cs);
        let ghost s2a = self@;
        proof {
            lemma_announce_all_frame(s1, cs);
        }
        let mut k: usize = 0;
        while k < m
            invariant
                0 <= k <= m,
                m == cs.len(),
                games_view(confirmed@) == cs,
                self.wf(),
                self@ == s2a.move_all(cs.take(k as int)),
            decreases m - k,
        {
            let g = confirmed[k].copy();
            let ghost gv = g@;
            let ghost t = self@;
            proof {
                assert(gv == cs[k as int]);
                assert(cs.take(k + 1).drop_last() =~= cs.take(k as int));
                assert(cs.take(k + 1).last() == gv);
            }
            match find_game_index(&self.waiting_games, g.id) {
                Some(j) => {
                    proof {
                        lemma_key_index(t.waiting, j as int);
                        lemma_unique_remove(t.waiting, j as int);
                    }
                    let _removed = self.waiting_games.remove(j);
                    assert(self@.waiting =~= t.waiting.remove(j as int));
                },
                None => {},
            }
            let ghost t2 = self@;
            assert(t2.waiting == remove_key(t.waiting, gv.id));
            proof {
                lemma_unique_insert(t2.ongoing, gv);
            }
            match find_game_index(&self.ongoing_games, g.id) {
                Some(j) => {
                    proof {
                        lemma_key_index(t2.ongoing, j as int);
                    }
                    self.ongoing_games.set(j, g);
                    assert(self@.ongoing =~= t2.ongoing.update(j as int, gv));
                },
                None => {
                    self.ongoing_games.push(g);
                    assert(self@.ongoing =~= t2.ongoing.push(gv));
                },
            }
            assert(self@ =~= StateView { waiting: remove_key(t.waiting, gv.id), ongoing: insert_key(t.ongoing, gv), ..t });
            k = k + 1;
        }
        assert(cs.take(m as int) =~= cs);
        let ghost s2 = self@;
        let ghost og = s2.ongoing;
        let n2 = self.ongoing_games.len();
        let mut i: usize = 0;
        while i < n2
            invariant
                0 <= i <= n2,
                n2 == og.len(),
                self.wf(),
                games_view(self.ongoing_games@) == og,
                self@ == s2.mark_in_game(og.take(i as int)),
            decreases n2 - i,
        {
            proof {
                assert(og.take(i + 1).drop_last() =~= og.take(i as int));
                assert(og.take(i + 1).last() == og[i as int]);
            }
            let game_id = self.ongoing_games[i].id;
            let lobby_ids = copy_ids(&self.ongoing_games[i].lobbys);
            let ghost before = self@;
            self.update_lobbys_status(&lobby_ids, PlayerStatus::InGame { game_id });
            proof {
                lemma_set_lobbys_status_frame(before, lobby_ids@, PlayerStatus::InGame { game_id });
            }
            i = i + 1;
        }
        assert(og.take(n2 as int) =~= og);
    }

    /// Adds a found-game outcome to the window of samples.
    pub fn add_successful_match_sample(&mut self, success: bool)
        requires
            old(self).wf(),
        ensures
            final(self).wf(),
            final(self)@ == old(self)@.record_outcome(success),
    {
        self.debug_successful_match_rate.push(success);
        if self.debug_successful_match_rate.len() > SAMPLE_WINDOW {
            self.debug_successful_match_rate.remove(0);
        }
        assert(self@.match_outcomes =~= bounded_push(old(self)@.match_outcomes, success));
        assert(self@ =~= old(self)@.record_outcome(success));
    }

    /// Sets the status of each listed lobby in turn.
    pub fn update_lobbys_status(&mut self, lobby_ids: &Vec<u128>, status: PlayerStatus)
        requires
            old(self).wf(),
        ensures
            final(self).wf(),
            final(self)@ == old(self)@.set_lobbys_status(lobby_ids@, status),
    {
        let ghost s0 = self@;
        let mut i: usize = 0;
        while i < lobby_ids.len()
            invariant
                0 <= i <= lobby_ids.len(),
                self.wf(),
                self@ == s0.set_lobbys_status(lobby_ids@.take(i as int), status),
            decreases lobby_ids.len() - i,
        {
            proof {
                assert(lobby_ids@.take(i + 1).drop_last() =~= lobby_ids@.take(i as int));
            }
            self.update_lobby_status(lobby_ids[i], status);
            i = i + 1;
        }
        assert(lobby_ids@.take(lobby_ids@.len() as int) =~= lobby_ids@);
    }

    /// Whether every member of the lobby at position `i` confirmed.
    fn lobby_all_confirmed(&self, i: usize, confirmed: &Vec<u128>) -> (b: bool)
        requires
            i < self@.lobbys.len(),
        ensures
            b == all_confirmed(self@.lobbys[i as int].players, confirmed@),
    {
        let n = self.lobbys[i].players.len();
        let mut k: usize = 0;
        while k < n
            invariant
                i < self@.lobbys.len(),
                n == self@.lobbys[i as int].players.len(),
                0 <= k <= n,
                forall|j: int| 0 <= j < k ==> confirmed@.contains(#[trigger] self@.lobbys[i as int].players[j]),
            decreases n - k,
        {
            if !ids_contains(confirmed, self.lobbys[i].players[k]) {
                return false;
            }
            k = k + 1;
        }
        true
    }

    /// After a game timed out, puts lobby `lid` back into the queue when all
    /// its members confirmed; otherwise makes it idle and tells its members.
    fn settle_lobby(&mut self, lid: u128, confirmed: &Vec<u128>, now: u64)
        requires
            old(self).wf(),
        ensures
            final(self).wf(),
            final(self)@ == old(self)@.settle_lobby(lid, confirmed@, now),
    {
        match self.find_lobby(lid) {
            None => {},
            Some(i) => {
                if self.lobby_all_confirmed(i, confirmed) {
                    self.queue_lobby_index(i, now);
                } else {
                    let members = copy_ids(&self.lobbys[i].players);
                    self.update_lobby_status(lid, PlayerStatus::Idle);
                    self.send_to_players(&members, ServerMessage::StatusUpdate { status: PlayerStatus::Idle });
                }
            },
        }
    }

    /// Settles each listed lobby in turn.
    fn settle_lobbys(&mut self, lids: &Vec<u128>, confirmed: &Vec<u128>, now: u64)
        requires
            old(self).wf(),
        ensures
            final(self).wf(),
            final(self)@ == old(self)@.settle_lobbys(lids@, confirmed@, now),
    {
        let ghost s0 = self@;
        let mut i: usize = 0;
        while i < lids.len()
            invariant
                0 <= i <= lids.len(),
                self.wf(),
                self@ == s0.settle_lobbys(lids@.take(i as int), confirmed@, now),
            decreases lids.len() - i,
        {
            proof {
                assert(lids@.take(i + 1).drop_last() =~= lids@.take(i as int));
            }
            self.settle_lobby(lids[i], confirmed, now);
            i = i + 1;
        }
        assert(lids@.take(lids@.len() as int) =~= lids@);
    }

    /// Drops the games that waited longer than `limit` seconds: each is
    /// announced as cancelled to its players, its lobbies whose members all
    /// confirmed go back into the queue and the others become idle, and it
    /// counts as a failed match.
    fn drop_expired_games(&mut self, now: u64, limit: Option<u64>)
        requires
            old(self).wf(),
        ensures
            final(self).wf(),
            final(self)@ == old(self)@.drop_expired(now, limit),
    {
        let secs = match limit {
            None => {
                return;
            },
            Some(secs) => secs,
        };
        let ghost s0 = self@;
        let ghost w = s0.waiting;
        let limit_ns: u128 = (secs as u128) * 1_000_000_000u128;
        let n = self.waiting_games.len();
        let mut expired_flags: Vec<bool> = Vec::new();
        let mut i: usize = 0;
        while i < n
            invariant
                0 <= i <= n,
                n == w.len(),
                self.wf(),
                expired_flags@.len() == i,
                forall|j: int| 0 <= j < i ==> expired_flags@[j] == is_expired(#[trigger] w[j], now, secs),
                limit_ns == secs * 1_000_000_000,
                games_view(self.waiting_games@) == w,
                self@ == s0.expire_all(w.take(i as int).filter(expired_pred(now, secs)), now),
            decreases n - i,
        {
            let start = self.waiting_games[i].start_time;
            let waited: u128 = if now >= start { (now - start) as u128 } else { 0 };
            proof {
                assert(w.take(i + 1) =~= w.take(i as int).push(w[i as int]));
                w.take(i as int).lemma_filter_push(w[i as int], expired_pred(now, secs));
            }
            if waited > limit_ns {
                assert(is_expired(w[i as int], now, secs));
                let game_id = self.waiting_games[i].id;
                let lobby_ids = copy_ids(&self.waiting_games[i].lobbys);
                let confirmed = copy_ids(&self.waiting_games[i].confirmed);
                let team1 = copy_ids(&self.waiting_games[i].team1);
                let team2 = copy_ids(&self.waiting_games[i].team2);
                self.send_to_players(&team1, ServerMessage::GameCancelled { game_id });
                self.send_to_players(&team2, ServerMessage::GameCancelled { game_id });
                let ghost before = self@;
                self.settle_lobbys(&lobby_ids, &confirmed, now);
                proof {
                    lemma_settle_lobbys_frame(before, lobby_ids@, confirmed@, now);
                }
                self.add_successful_match_sample(false);
                proof {
                    let t = w.take(i as int).filter(expired_pred(now, secs));
                    let t2 = t.push(w[i as int]);
                    assert(t2.drop_last() =~= t);
                    assert(t2.last() == w[i as int]);
                    assert(games_view(self.waiting_games@) == w);
                }
            } else {
                assert(!is_expired(w[i as int], now, secs));
            }
            expired_flags.push(waited > limit_ns);
            i = i + 1;
        }
        assert(w.take(n as int) =~= w);
        let ghost s1 = self@;
        let mut games: Vec<Game> = Vec::new();
        std::mem::swap(&mut games, &mut self.waiting_games);
        let (_expired, kept) = split_games(games, &expired_flags);
        self.waiting_games = kept;
        proof {
            assert forall|j: int| 0 <= j < w.len() implies (expired_flags@[j] == false) == kept_pred(now, secs)(
                #[trigger] w[j],
            ) by {}
            lemma_select_filter(w, expired_flags@, false, kept_pred(now, secs));
            lemma_unique_filter(w, kept_pred(now, secs));
        }
        assert(self@ =~= s0.drop_expired(now, limit));
    }
}

} // verus!
