//! Pairing queued lobbies into games.
//!
//! Whether two queue entries may play each other depends on their average
//! ratings, the time they have waited and the settings, in floating point;
//! the surrounding program evaluates it for every pair of entries at one
//! instant and hands the results over as a matrix indexed by queue position.

use vstd::prelude::*;

use crate::app_state::confirmation::{bounded_push, elapsed, SAMPLE_WINDOW};
use crate::app_state::{queue_view, AppState, StateView};
use crate::ids::{is_v4_uuid, new_uuid};
use crate::keyed::{has_key, insert_key, lemma_key_index, lemma_unique_insert, lookup, Keyed};
use crate::messages::{MessageView, ServerMessage};
use crate::structs::{copy_ids, Game, GameStatus, GameView, LobbyView, PlayerStatus, QueueEntry, QueueEntryView};

verus! {

/// The compatibility matrix as booleans.
pub open spec fn matrix_view(c: Seq<Vec<bool>>) -> Seq<Seq<bool>> {
    c.map_values(|row: Vec<bool>| row@)
}

/// The matrix is square of size `n`.
pub open spec fn square(c: Seq<Seq<bool>>, n: int) -> bool {
    c.len() == n && forall|a: int| 0 <= a < n ==> #[trigger] c[a].len() == n
}

/// First position `j' >= j` of the remaining entries `r` (their positions in the
/// queue as it stood) that may play the entry at position `i`.
pub open spec fn first_match(r: Seq<int>, c: Seq<Seq<bool>>, i: int, j: int) -> Option<int>
    decreases r.len() - j,
{
    if j < 0 || j >= r.len() {
        None
    } else if c[r[i]][r[j]] {
        Some(j)
    } else {
        first_match(r, c, i, j + 1)
    }
}

/// The pair of remaining positions matched in the round for position `i`.
pub open spec fn greedy_step(r: Seq<int>, c: Seq<Seq<bool>>, i: int) -> Option<(int, int)> {
    if 0 <= i && i + 1 < r.len() {
        match first_match(r, c, i, i + 1) {
            Some(j) => Some((i, j)),
            None => None,
        }
    } else {
        None
    }
}

/// The pairs (as positions in the queue as it stood) matched by the rounds `i`,
/// `i + 1`, ... up to `n`, starting from the remaining entries `r`: each
/// round takes the entry at its position and pairs it with the first later
/// entry that may play it; both leave the queue.
pub open spec fn greedy(r: Seq<int>, c: Seq<Seq<bool>>, i: int, n: int) -> Seq<(int, int)>
    decreases n - i,
{
    if i >= n {
        Seq::empty()
    } else {
        match greedy_step(r, c, i) {
            None => greedy(r, c, i + 1, n),
            Some((a, b)) => seq![(r[a], r[b])] + greedy(r.remove(b).remove(a), c, i + 1, n),
        }
    }
}

/// Positions `0, 1, ..., n - 1`.
pub open spec fn positions(n: int) -> Seq<int> {
    Seq::new(n as nat, |k: int| k)
}

/// The pairs that the matchmaker forms for a queue of `n` entries.
pub open spec fn planned_pairs(c: Seq<Seq<bool>>, n: int) -> Seq<(int, int)> {
    greedy(positions(n), c, 0, n)
}

/// Queue position `k` belongs to one of the pairs.
pub open spec fn is_matched(pairs: Seq<(int, int)>, k: int) -> bool {
    exists|x: int| 0 <= x < pairs.len() && (#[trigger] pairs[x].0 == k || pairs[x].1 == k)
}

/// The predicate "position not matched".
pub open spec fn unmatched(pairs: Seq<(int, int)>) -> spec_fn(int) -> bool {
    |k: int| !is_matched(pairs, k)
}

/// Pairs of positions as integers.
pub open spec fn pairs_view(p: Seq<(usize, usize)>) -> Seq<(int, int)> {
    p.map_values(|x: (usize, usize)| (x.0 as int, x.1 as int))
}

/// Remaining positions as integers.
pub open spec fn positions_view(r: Seq<usize>) -> Seq<int> {
    r.map_values(|x: usize| x as int)
}

/// The queue without the entries at matched positions.
pub open spec fn remaining_queue(q: Seq<QueueEntryView>, pairs: Seq<(int, int)>) -> Seq<QueueEntryView> {
    positions(q.len() as int).filter(unmatched(pairs)).map_values(|k: int| q[k])
}

/// The game formed from two queue entries.
pub open spec fn game_of(s: StateView, ea: QueueEntryView, eb: QueueEntryView, gid: u128, now: u64) -> GameView {
    GameView {
        id: gid,
        team1: lookup(s.lobbys, ea.lobby_id).unwrap().players,
        team2: lookup(s.lobbys, eb.lobby_id).unwrap().players,
        lobbys: seq![ea.lobby_id, eb.lobby_id],
        confirmed: Seq::empty(),
        start_time: now,
        status: GameStatus::WaitingForConfirmation,
    }
}

impl StateView {
    /// The state after adding a time spent in the queue to the window of
    /// samples.
    pub open spec fn record_queue_time(self, t: u64) -> StateView {
        StateView { queue_times: bounded_push(self.queue_times, t), ..self }
    }

    /// Forming game `gid` from two queue entries at time `now`: both teams
    /// hear of it, it waits for confirmation, the first entry's waiting time
    /// is sampled, and both lobbies (and their members) must now confirm.
    pub open spec fn form_game(self, ea: QueueEntryView, eb: QueueEntryView, gid: u128, now: u64) -> StateView {
        let g = game_of(self, ea, eb, gid, now);
        let st = PlayerStatus::NeedConfirmation { game_id: gid };
        let s1 = self.send_all(g.team1, MessageView::GameFound { game_id: gid }).send_all(
            g.team2,
            MessageView::GameFound { game_id: gid },
        );
        let s2 = StateView { waiting: insert_key(s1.waiting, g), ..s1 };
        s2.record_queue_time(elapsed(now, ea.start_time) as u64).set_lobby_status(ea.lobby_id, st).set_lobby_status(
            eb.lobby_id,
            st,
        )
    }

    /// Forming the games for the given pairs of queue positions of `q`, in
    /// order, the `k`-th with identifier `ids[k]`.
    pub open spec fn form_games(self, q: Seq<QueueEntryView>, pairs: Seq<(int, int)>, ids: Seq<u128>, now: u64) -> StateView
        decreases pairs.len(),
    {
        if pairs.len() == 0 {
            self
        } else {
            let k = pairs.len() - 1;
            self.form_games(q, pairs.drop_last(), ids, now).form_game(q[pairs[k].0], q[pairs[k].1], ids[k], now)
        }
    }

    /// One round of matchmaking at time `now`, given the compatibility of
    /// every pair of queue positions and the identifiers of the games formed.
    pub open spec fn form_matches(self, c: Seq<Seq<bool>>, ids: Seq<u128>, now: u64) -> StateView {
        let pairs = planned_pairs(c, self.queue.len() as int);
        StateView { queue: remaining_queue(self.queue, pairs), ..self.form_games(self.queue, pairs, ids, now) }
    }

    /// Every lobby of a planned pair exists.
    pub open spec fn planned_lobbies_exist(self, c: Seq<Seq<bool>>) -> bool {
        let pairs = planned_pairs(c, self.queue.len() as int);
        forall|x: int|
            0 <= x < pairs.len() ==> has_key(self.lobbys, self.queue[(#[trigger] pairs[x]).0].lobby_id)
                && has_key(self.lobbys, self.queue[pairs[x].1].lobby_id)
    }
}

/// First position `j >= i + 1` of `r` whose entry may play the entry at
/// position `i`.
fn first_match_exec(r: &Vec<usize>, compat: &Vec<Vec<bool>>, i: usize) -> (m: Option<usize>)
    requires
        i + 1 < r@.len(),
        square(matrix_view(compat@), compat@.len() as int),
        forall|k: int| 0 <= k < r@.len() ==> #[trigger] r@[k] < compat@.len(),
    ensures
        m matches Some(j) ==> first_match(positions_view(r@), matrix_view(compat@), i as int, i + 1) == Some(j as int),
        m is None ==> first_match(positions_view(r@), matrix_view(compat@), i as int, i + 1) is None,
        m matches Some(j) ==> i < j < r@.len(),
{
    let ghost rv = positions_view(r@);
    let ghost c = matrix_view(compat@);
    let len = r.len();
    let mut j: usize = i + 1;
    while j < r.len()
        invariant
            i < j <= r@.len(),
            i < r@.len(),
            rv == positions_view(r@),
            c == matrix_view(compat@),
            square(c, compat@.len() as int),
            forall|k: int| 0 <= k < r@.len() ==> #[trigger] r@[k] < compat@.len(),
            first_match(rv, c, i as int, i + 1) == first_match(rv, c, i as int, j as int),
        decreases r@.len() - j,
    {
        let a = r[i];
        let b = r[j];
        assert(c[a as int] == compat@[a as int]@);
        if compat[a][b] {
            assert(c[rv[i as int]][rv[j as int]]);
            return Some(j);
        }
        j = j + 1;
    }
    None
}

impl AppState {
    /// The pairs of queue positions that one round of matchmaking forms,
    /// given whether the entries at any two positions may play each other.
    pub fn plan_matches(&self, compat: &Vec<Vec<bool>>) -> (pairs: Vec<(usize, usize)>)
        requires
            square(matrix_view(compat@), self@.queue.len() as int),
        ensures
            pairs_view(pairs@) == planned_pairs(matrix_view(compat@), self@.queue.len() as int),
            forall|x: int| 0 <= x < pairs@.len() ==> (#[trigger] pairs@[x]).0 < self@.queue.len() && pairs@[x].1 < self@.queue.len(),
    {
        let ghost c = matrix_view(compat@);
        let n = self.queueing_lobbys.len();
        assert(self@.queue.len() == n);
        let mut r: Vec<usize> = Vec::new();
        let mut k: usize = 0;
        while k < n
            invariant
                0 <= k <= n,
                r@.len() == k,
                forall|x: int| 0 <= x < k ==> #[trigger] r@[x] == x,
            decreases n - k,
        {
            r.push(k);
            k = k + 1;
        }
        assert(positions_view(r@) =~= positions(n as int));
        let mut pairs: Vec<(usize, usize)> = Vec::new();
        assert(pairs_view(pairs@) + greedy(positions_view(r@), c, 0, n as int) =~= planned_pairs(c, n as int));
        let mut i: usize = 0;
        while i < n
            invariant
                0 <= i <= n,
                n == compat@.len(),
                c == matrix_view(compat@),
                square(c, n as int),
                forall|x: int| 0 <= x < r@.len() ==> #[trigger] r@[x] < n,
                forall|x: int| 0 <= x < pairs@.len() ==> (#[trigger] pairs@[x]).0 < n && pairs@[x].1 < n,
                pairs_view(pairs@) + greedy(positions_view(r@), c, i as int, n as int) == planned_pairs(c, n as int),
            decreases n - i,
        {
            let ghost rv = positions_view(r@);
            let ghost before = pairs_view(pairs@);
            if i + 1 < r.len() {
                match first_match_exec(&r, compat, i) {
                    Some(j) => {
                        let a = r[i];
                        let b = r[j];
                        pairs.push((a, b));
                        r.remove(j);
                        r.remove(i);
                        proof {
                            assert(greedy_step(rv, c, i as int) == Some((i as int, j as int)));
                            assert(positions_view(r@) =~= rv.remove(j as int).remove(i as int));
                            assert(pairs_view(pairs@) =~= before.push((rv[i as int], rv[j as int])));
                            let g2 = greedy(rv.remove(j as int).remove(i as int), c, i + 1, n as int);
                            assert(greedy(rv, c, i as int, n as int) == seq![(rv[i as int], rv[j as int])] + g2);
                            assert(before + (seq![(rv[i as int], rv[j as int])] + g2) =~= before.push((rv[i as int], rv[j as int])) + g2);
                        }
                    },
                    None => {
                        assert(greedy_step(rv, c, i as int) is None);
                    },
                }
            } else {
                assert(greedy_step(rv, c, i as int) is None);
            }
            i = i + 1;
        }
        assert(greedy(positions_view(r@), c, n as int, n as int) =~= Seq::<(int, int)>::empty());
        assert(pairs_view(pairs@) =~= pairs_view(pairs@) + Seq::<(int, int)>::empty());
        pairs
    }
}

/// Setting a lobby's status keeps the lobbies' identifiers in place.
pub proof fn lemma_set_lobby_status_ids(s: StateView, lid: u128, st: PlayerStatus)
    requires
        s.wf(),
    ensures
        ({
            let r = s.set_lobby_status(lid, st);
            &&& r.lobbys.len() == s.lobbys.len()
            &&& forall|i: int| 0 <= i < s.lobbys.len() ==> #[trigger] r.lobbys[i].id == s.lobbys[i].id
            &&& r.queue == s.queue
        }),
{
    match lookup(s.lobbys, lid) {
        None => {},
        Some(l) => {
            let i = crate::keyed::key_index(s.lobbys, lid);
            assert(0 <= i < s.lobbys.len() && s.lobbys[i].key() == lid);
        },
    }
}

/// Forming a game keeps the lobbies' identifiers in place and leaves the
/// queue alone.
pub proof fn lemma_form_game_ids(s: StateView, ea: QueueEntryView, eb: QueueEntryView, gid: u128, now: u64)
    requires
        s.wf(),
    ensures
        ({
            let r = s.form_game(ea, eb, gid, now);
            &&& r.lobbys.len() == s.lobbys.len()
            &&& forall|i: int| 0 <= i < s.lobbys.len() ==> #[trigger] r.lobbys[i].id == s.lobbys[i].id
            &&& r.queue == s.queue
        }),
{
    let g = game_of(s, ea, eb, gid, now);
    let st = PlayerStatus::NeedConfirmation { game_id: gid };
    let s1 = s.send_all(g.team1, MessageView::GameFound { game_id: gid }).send_all(
        g.team2,
        MessageView::GameFound { game_id: gid },
    );
    let s2 = StateView { waiting: insert_key(s1.waiting, g), ..s1 };
    let s3 = s2.record_queue_time(elapsed(now, ea.start_time) as u64);
    lemma_unique_insert(s1.waiting, g);
    lemma_set_lobby_status_ids(s3, ea.lobby_id, st);
    let s4 = s3.set_lobby_status(ea.lobby_id, st);
    crate::keyed::lemma_unique_same_keys(s3.lobbys, s4.lobbys);
    assert(s4.wf()) by {
        match lookup(s3.lobbys, ea.lobby_id) {
            None => {},
            Some(l) => {
                let ps = s3.players;
                let qs = s4.players;
                assert forall|i: int| 0 <= i < ps.len() implies #[trigger] qs[i].key() == ps[i].key() by {}
                crate::keyed::lemma_unique_same_keys(ps, qs);
            },
        }
    }
    lemma_set_lobby_status_ids(s4, eb.lobby_id, st);
}

/// Records with the same identifiers in place have the same identifiers.
pub proof fn lemma_same_ids_has_key(a: Seq<LobbyView>, b: Seq<LobbyView>, k: u128)
    requires
        a.len() == b.len(),
        forall|i: int| 0 <= i < a.len() ==> #[trigger] b[i].id == a[i].id,
    ensures
        has_key(b, k) == has_key(a, k),
{
    if has_key(a, k) {
        let i = choose|i: int| 0 <= i < a.len() && #[trigger] a[i].key() == k;
        assert(b[i].key() == k);
    }
    if has_key(b, k) {
        let i = choose|i: int| 0 <= i < b.len() && #[trigger] b[i].key() == k;
        assert(a[i].key() == k);
    }
}

/// Whether queue position `k` belongs to one of the pairs.
fn is_matched_exec(pairs: &Vec<(usize, usize)>, k: usize) -> (b: bool)
    ensures
        b == is_matched(pairs_view(pairs@), k as int),
{
    let ghost pv = pairs_view(pairs@);
    let mut x: usize = 0;
    while x < pairs.len()
        invariant
            0 <= x <= pairs@.len(),
            pv == pairs_view(pairs@),
            forall|y: int| 0 <= y < x ==> !(#[trigger] pv[y].0 == k || pv[y].1 == k),
        decreases pairs@.len() - x,
    {
        let (a, b) = pairs[x];
        if a == k || b == k {
            assert(pv[x as int].0 == k || pv[x as int].1 == k);
            return true;
        }
        x = x + 1;
    }
    proof {
        assert forall|y: int| !(0 <= y < pv.len() && (#[trigger] pv[y].0 == k || pv[y].1 == k)) by {
            if 0 <= y < pv.len() {
                assert(!(pv[y].0 == k || pv[y].1 == k));
            }
        }
    }
    false
}

impl AppState {
    /// Adds a time spent in the queue (nanoseconds) to the window of samples.
    pub fn add_queue_time_sample(&mut self, queue_time: u64)
        requires
            old(self).wf(),
        ensures
            final(self).wf(),
            final(self)@ == old(self)@.record_queue_time(queue_time),
    {
        self.debug_avg_queue_time.push(queue_time);
        if self.debug_avg_queue_time.len() > SAMPLE_WINDOW {
            self.debug_avg_queue_time.remove(0);
        }
        assert(self@.queue_times =~= bounded_push(old(self)@.queue_times, queue_time));
        assert(self@ =~= old(self)@.record_queue_time(queue_time));
    }

    /// Adds a game to those waiting for confirmation, replacing any with the
    /// same identifier.
    fn insert_waiting(&mut self, game: Game)
        requires
            old(self).wf(),
        ensures
            final(self).wf(),
            final(self)@ == (StateView { waiting: insert_key(old(self)@.waiting, game@), ..old(self)@ }),
    {
        let ghost s0 = self@;
        let ghost gv = game@;
        proof {
            lemma_unique_insert(s0.waiting, gv);
        }
        match crate::app_state::find_game_index(&self.waiting_games, game.id) {
            Some(j) => {
                proof {
                    lemma_key_index(s0.waiting, j as int);
                }
                self.waiting_games.set(j, game);
                assert(self@.waiting =~= s0.waiting.update(j as int, gv));
            },
            None => {
                self.waiting_games.push(game);
                assert(self@.waiting =~= s0.waiting.push(gv));
            },
        }
        assert(self@ =~= StateView { waiting: insert_key(s0.waiting, gv), ..s0 });
    }

    /// Forms the game `gid` from the queue entries at positions `a` and `b`.
    fn form_game(&mut self, a: usize, b: usize, gid: u128, now: u64)
        requires
            old(self).wf(),
            a < old(self)@.queue.len(),
            b < old(self)@.queue.len(),
            has_key(old(self)@.lobbys, old(self)@.queue[a as int].lobby_id),
            has_key(old(self)@.lobbys, old(self)@.queue[b as int].lobby_id),
        ensures
            final(self).wf(),
            final(self)@ == old(self)@.form_game(old(self)@.queue[a as int], old(self)@.queue[b as int], gid, now),
    {
        let ghost s0 = self@;
        let la = self.queueing_lobbys[a].lobby_id;
        let lb = self.queueing_lobbys[b].lobby_id;
        let start = self.queueing_lobbys[a].start_time;
        let i1 = match self.find_lobby(la) {
            Some(i) => i,
            None => {
                return;
            },
        };
        let i2 = match self.find_lobby(lb) {
            Some(i) => i,
            None => {
                return;
            },
        };
        let team1 = copy_ids(&self.lobbys[i1].players);
        let team2 = copy_ids(&self.lobbys[i2].players);
        let game = Game::new(gid, team1, team2, vec![la, lb], now);
        assert(game@ == game_of(s0, s0.queue[a as int], s0.queue[b as int], gid, now));
        self.send_to_players(&game.team1, ServerMessage::GameFound { game_id: gid });
        self.send_to_players(&game.team2, ServerMessage::GameFound { game_id: gid });
        self.insert_waiting(game);
        let waited: u64 = if now >= start { now - start } else { 0 };
        self.add_queue_time_sample(waited);
        let status = PlayerStatus::NeedConfirmation { game_id: gid };
        self.update_lobby_status(la, status);
        self.update_lobby_status(lb, status);
    }

    /// Forms the games for the given pairs of queue positions, in order, the
    /// `k`-th with identifier `ids[k]`.
    fn form_games(&mut self, pairs: &Vec<(usize, usize)>, ids: &Vec<u128>, now: u64)
        requires
            old(self).wf(),
            ids@.len() >= pairs@.len(),
            forall|x: int|
                0 <= x < pairs@.len() ==> (#[trigger] pairs@[x]).0 < old(self)@.queue.len() && pairs@[x].1 < old(self)@.queue.len(),
            forall|x: int|
                0 <= x < pairs@.len() ==> has_key(old(self)@.lobbys, old(self)@.queue[(#[trigger] pairs@[x]).0 as int].lobby_id)
                    && has_key(old(self)@.lobbys, old(self)@.queue[pairs@[x].1 as int].lobby_id),
        ensures
            final(self).wf(),
            final(self)@ == old(self)@.form_games(old(self)@.queue, pairs_view(pairs@), ids@, now),
            final(self)@.queue == old(self)@.queue,
    {
        let ghost s0 = self@;
        let ghost q = s0.queue;
        let ghost pv = pairs_view(pairs@);
        let mut k: usize = 0;
        while k < pairs.len()
            invariant
                0 <= k <= pairs@.len(),
                ids@.len() >= pairs@.len(),
                pv == pairs_view(pairs@),
                self.wf(),
                self@.queue == q,
                self@ == s0.form_games(q, pv.take(k as int), ids@, now),
                self@.lobbys.len() == s0.lobbys.len(),
                forall|i: int| 0 <= i < s0.lobbys.len() ==> #[trigger] self@.lobbys[i].id == s0.lobbys[i].id,
                forall|x: int| 0 <= x < pairs@.len() ==> (#[trigger] pairs@[x]).0 < q.len() && pairs@[x].1 < q.len(),
                forall|x: int|
                    0 <= x < pairs@.len() ==> has_key(s0.lobbys, q[(#[trigger] pairs@[x]).0 as int].lobby_id)
                        && has_key(s0.lobbys, q[pairs@[x].1 as int].lobby_id),
            decreases pairs@.len() - k,
        {
            let (a, b) = pairs[k];
            let ghost before = self@;
            proof {
                assert(pv.take(k + 1).drop_last() =~= pv.take(k as int));
                assert(pv.take(k + 1)[k as int] == pv[k as int]);
                assert(pairs@[k as int] == (a, b));
                lemma_same_ids_has_key(s0.lobbys, before.lobbys, q[a as int].lobby_id);
                lemma_same_ids_has_key(s0.lobbys, before.lobbys, q[b as int].lobby_id);
                lemma_form_game_ids(before, q[a as int], q[b as int], ids@[k as int], now);
            }
            self.form_game(a, b, ids[k], now);
            k = k + 1;
        }
        assert(pv.take(pairs@.len() as int) =~= pv);
    }

    /// Removes the queue entries at positions that belong to the pairs.
    fn remove_matched(&mut self, pairs: &Vec<(usize, usize)>)
        requires
            old(self).wf(),
        ensures
            final(self).wf(),
            final(self)@ == (StateView {
                queue: remaining_queue(old(self)@.queue, pairs_view(pairs@)),
                ..old(self)@
            }),
    {
        let ghost s0 = self@;
        let ghost q = s0.queue;
        let ghost pv = pairs_view(pairs@);
        let n = self.queueing_lobbys.len();
        let mut kept: Vec<QueueEntry> = Vec::new();
        let mut k: usize = 0;
        while k < n
            invariant
                0 <= k <= n,
                n == q.len(),
                pv == pairs_view(pairs@),
                self@ == s0,
                q == queue_view(self.queueing_lobbys@),
                queue_view(kept@) == positions(k as int).filter(unmatched(pv)).map_values(|x: int| q[x]),
            decreases n - k,
        {
            proof {
                assert(positions(k + 1) =~= positions(k as int).push(k as int));
                positions(k as int).lemma_filter_push(k as int, unmatched(pv));
            }
            let matched = is_matched_exec(pairs, k);
            if !matched {
                assert(queue_view(self.queueing_lobbys@).len() == self.queueing_lobbys@.len());
                let e = self.queueing_lobbys[k].copy();
                assert(e@ == q[k as int]);
                let ghost prev = queue_view(kept@);
                kept.push(e);
                proof {
                    let f = positions(k as int).filter(unmatched(pv));
                    assert(f.push(k as int).map_values(|x: int| q[x]) =~= f.map_values(|x: int| q[x]).push(q[k as int]));
                    assert(queue_view(kept@) =~= prev.push(q[k as int]));
                }
            }
            k = k + 1;
        }
        self.queueing_lobbys = kept;
        assert(k == n);
        assert(positions(n as int) =~= positions(q.len() as int));
        assert(self@ =~= StateView { queue: remaining_queue(q, pv), ..s0 });
    }

    /// One round of matchmaking at time `now`, given whether the entries at
    /// any two queue positions may play each other and the identifiers of
    /// the games to form: each position in turn is paired with the first
    /// later compatible entry, each pair forms a game, and the paired entries
    /// leave the queue.
    pub fn form_matches_with_ids(&mut self, compat: &Vec<Vec<bool>>, ids: &Vec<u128>, now: u64)
        requires
            old(self).wf(),
            square(matrix_view(compat@), old(self)@.queue.len() as int),
            old(self)@.planned_lobbies_exist(matrix_view(compat@)),
            ids@.len() >= planned_pairs(matrix_view(compat@), old(self)@.queue.len() as int).len(),
        ensures
            final(self).wf(),
            final(self)@ == old(self)@.form_matches(matrix_view(compat@), ids@, now),
    {
        let ghost s0 = self@;
        let pairs = self.plan_matches(compat);
        let ghost pv = pairs_view(pairs@);
        proof {
            assert forall|x: int|
                0 <= x < pairs@.len() implies has_key(s0.lobbys, s0.queue[(#[trigger] pairs@[x]).0 as int].lobby_id)
                    && has_key(s0.lobbys, s0.queue[pairs@[x].1 as int].lobby_id) by {
                assert(pv[x] == (pairs@[x].0 as int, pairs@[x].1 as int));
            }
        }
        self.form_games(&pairs, ids, now);
        self.remove_matched(&pairs);
    }

    /// One round of matchmaking at time `now`, given whether the entries at
    /// any two queue positions may play each other; each game formed gets a
    /// fresh random UUID. When a pair to be formed refers to a lobby that no
    /// longer exists, nothing changes and that lobby's identifier is
    /// returned.
    pub fn try_form_matches(&mut self, compat: &Vec<Vec<bool>>, now: u64) -> (r: Result<(), u128>)
        requires
            old(self).wf(),
            square(matrix_view(compat@), old(self)@.queue.len() as int),
        ensures
            final(self).wf(),
            r is Ok <==> old(self)@.planned_lobbies_exist(matrix_view(compat@)),
            r is Ok ==> exists|ids: Seq<u128>|
                ids.len() == planned_pairs(matrix_view(compat@), old(self)@.queue.len() as int).len()
                && (forall|k: int| 0 <= k < ids.len() ==> is_v4_uuid(#[trigger] ids[k]))
                && final(self)@ == old(self)@.form_matches(matrix_view(compat@), ids, now),
            r matches Err(l) ==> final(self)@ == old(self)@
                && !has_key(old(self)@.lobbys, l)
                && exists|x: int|
                    0 <= x < planned_pairs(matrix_view(compat@), old(self)@.queue.len() as int).len() && (
                        old(self)@.queue[(#[trigger] planned_pairs(matrix_view(compat@), old(self)@.queue.len() as int)[x]).0].lobby_id == l
                        || old(self)@.queue[planned_pairs(matrix_view(compat@), old(self)@.queue.len() as int)[x].1].lobby_id == l),
    {
        let ghost s0 = self@;
        let ghost c = matrix_view(compat@);
        let pairs = self.plan_matches(compat);
        let ghost pv = pairs_view(pairs@);
        let mut x: usize = 0;
        while x < pairs.len()
            invariant
                self@ == s0,
                s0 == old(self)@,
                c == matrix_view(compat@),
                self.wf(),
                0 <= x <= pairs@.len(),
                pv == pairs_view(pairs@),
                pv == planned_pairs(c, s0.queue.len() as int),
                forall|y: int| 0 <= y < pairs@.len() ==> (#[trigger] pairs@[y]).0 < s0.queue.len() && pairs@[y].1 < s0.queue.len(),
                forall|y: int|
                    0 <= y < x ==> has_key(s0.lobbys, s0.queue[(#[trigger] pv[y]).0].lobby_id)
                        && has_key(s0.lobbys, s0.queue[pv[y].1].lobby_id),
            decreases pairs@.len() - x,
        {
            let (a, b) = pairs[x];
            assert(pv[x as int] == (a as int, b as int));
            let la = self.queueing_lobbys[a].lobby_id;
            let lb = self.queueing_lobbys[b].lobby_id;
            assert(s0.queue[a as int].lobby_id == la);
            assert(s0.queue[b as int].lobby_id == lb);
            if self.find_lobby(la).is_none() {
                assert(!has_key(s0.lobbys, la));
                assert(!s0.planned_lobbies_exist(c)) by {
                    assert(pv[x as int].0 == a as int);
                }
                return Err(la);
            }
            if self.find_lobby(lb).is_none() {
                assert(!has_key(s0.lobbys, lb));
                assert(!s0.planned_lobbies_exist(c)) by {
                    assert(pv[x as int].1 == b as int);
                }
                return Err(lb);
            }
            x = x + 1;
        }
        let mut ids: Vec<u128> = Vec::new();
        let mut y: usize = 0;
        while y < pairs.len()
            invariant
                0 <= y <= pairs@.len(),
                ids@.len() == y,
                forall|k: int| 0 <= k < y ==> is_v4_uuid(#[trigger] ids@[k]),
            decreases pairs@.len() - y,
        {
            ids.push(new_uuid());
            y = y + 1;
        }
        self.form_matches_with_ids(compat, &ids, now);
        Ok(())
    }
}

} // verus!
