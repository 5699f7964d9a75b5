//! Laws on what the periodic rounds and a departure decide, each stated
//! directly over the inputs and the results.

use vstd::prelude::*;

use crate::app_state::matchmaking::{first_match, greedy, is_matched, planned_pairs, positions};
use crate::app_state::simulation::team_skills;
use crate::app_state::StateView;
use crate::keyed::{has_key, key_index, lemma_key_index, lookup, Keyed};
use crate::structs::{GameView, LobbyView, PlayerStatus, PlayerView, QueueEntryView};
use crate::app_state::lobby::{lists_lobby, omits_lobby, other_than};
use crate::laws::{lemma_cancel_games_shape, lemma_requeue_others_shape, lemma_set_lobby_status_in_place, member_ok, consistent};
use crate::app_state::confirmation::{
    confirmed_pred, expired_pred, kept_pred, lemma_announce_all_frame, lemma_expire_all_frame, lemma_mark_in_game_frame,
};

verus! {

/// The ratings a team is scored by are its members' hidden skill ratings:
/// for a team whose members are all connected, one rating per member, in
/// team order, each the member's `true_skill`.
pub proof fn law_team_ratings_are_hidden_skills(ps: Seq<PlayerView>, team: Seq<u128>)
    requires
        forall|k: int| 0 <= k < team.len() ==> lookup(ps, #[trigger] team[k]) is Some,
    ensures
        team_skills(ps, team).len() == team.len(),
        forall|k: int|
            0 <= k < team.len() ==> #[trigger] team_skills(ps, team)[k] == lookup(ps, team[k]).unwrap().true_skill,
    decreases team.len(),
{
    if team.len() > 0 {
        let d = team.drop_last();
        assert forall|k: int| 0 <= k < d.len() implies lookup(ps, #[trigger] d[k]) is Some by {
            assert(d[k] == team[k]);
        }
        law_team_ratings_are_hidden_skills(ps, d);
        assert(lookup(ps, team[team.len() - 1]) is Some);
        assert forall|k: int| 0 <= k < team.len() implies #[trigger] team_skills(ps, team)[k] == lookup(
            ps,
            team[k],
        ).unwrap().true_skill by {
            if k < d.len() {
                assert(d[k] == team[k]);
            }
        }
    }
}

/// When no later entry from `j` on may play the entry at `i`, none does.
proof fn lemma_first_match_none(r: Seq<int>, c: Seq<Seq<bool>>, i: int, j: int)
    requires
        0 <= i < r.len(),
        0 <= j,
        first_match(r, c, i, j) is None,
    ensures
        forall|m: int| j <= m < r.len() ==> !c[r[i]][#[trigger] r[m]],
    decreases r.len() - j,
{
    if j < r.len() {
        lemma_first_match_none(r, c, i, j + 1);
    }
}

/// In the rounds from `i` on, an entry whose round finds no partner keeps
/// none: while the entries at `i` up to `k` all stay unmatched, the one at
/// `k` may play no later entry that stays unmatched.
proof fn lemma_greedy_examined(r: Seq<int>, c: Seq<Seq<bool>>, i: int, n: int)
    requires
        0 <= i,
    ensures
        forall|k: int, m: int|
            #![trigger r[k], r[m]]
            i <= k < n && k < m < r.len() && (forall|t: int| i <= t <= k ==> !is_matched(greedy(r, c, i, n), #[trigger] r[t]))
                && !is_matched(greedy(r, c, i, n), r[m]) ==> !c[r[k]][r[m]],
    decreases n - i,
{
    if i < n {
        let p = greedy(r, c, i, n);
        if 0 <= i && i + 1 < r.len() {
            match first_match(r, c, i, i + 1) {
                None => {
                    lemma_first_match_none(r, c, i, i + 1);
                    lemma_greedy_examined(r, c, i + 1, n);
                    assert(p == greedy(r, c, i + 1, n));
                    assert forall|k: int, m: int|
                        #![trigger r[k], r[m]]
                        i <= k < n && k < m < r.len() && (forall|t: int| i <= t <= k ==> !is_matched(p, #[trigger] r[t]))
                            && !is_matched(p, r[m]) implies !c[r[k]][r[m]] by {
                        if k > i {
                            assert forall|t: int| i + 1 <= t <= k implies !is_matched(p, #[trigger] r[t]) by {}
                        }
                    }
                },
                Some(b) => {
                    assert(p[0] == (r[i], r[b]));
                    assert(is_matched(p, r[i])) by {
                        assert(p[0].0 == r[i]);
                    }
                },
            }
        } else {
            lemma_greedy_examined(r, c, i + 1, n);
            assert(p == greedy(r, c, i + 1, n));
        }
    }
}

/// Matchmaking gives every queue position its round: as long as the
/// positions up to `a` all stay unmatched, the entry at `a` may play no
/// later entry that stays unmatched. So an entry without a partner never
/// stops a compatible pair behind it from being matched.
pub proof fn law_unmatched_entries_have_no_partner(c: Seq<Seq<bool>>, n: int, a: int, b: int)
    requires
        0 <= a < b < n,
        forall|t: int| 0 <= t <= a ==> !is_matched(#[trigger] planned_pairs(c, n), t),
        !is_matched(planned_pairs(c, n), b),
    ensures
        !c[a][b],
{
    let r = positions(n);
    lemma_greedy_examined(r, c, 0, n);
    assert(r[a] == a && r[b] == b);
    assert forall|t: int| 0 <= t <= a implies !is_matched(greedy(r, c, 0, n), #[trigger] r[t]) by {
        assert(r[t] == t);
    }
}

/// When matchmaking forms no game, no two queued entries may play each
/// other.
pub proof fn law_no_match_means_no_compatible_pair(c: Seq<Seq<bool>>, n: int)
    requires
        planned_pairs(c, n).len() == 0,
    ensures
        forall|a: int, b: int| 0 <= a < b < n ==> !(#[trigger] c[a][b]),
{
    assert forall|a: int, b: int| 0 <= a < b < n implies !(#[trigger] c[a][b]) by {
        assert forall|t: int| 0 <= t <= a implies !is_matched(#[trigger] planned_pairs(c, n), t) by {}
        law_unmatched_entries_have_no_partner(c, n, a, b);
    }
}

/// When a game times out, each of its lobbies is settled by whether all its
/// members confirmed: a lobby with a member missing from the confirmed list
/// stays out of the queue and it and its members become idle; a lobby all
/// of whose members confirmed goes back into the queue (one new entry at
/// the end, started now) and it and its members wait in the queue.
pub proof fn law_timeout_requeues_only_fully_confirmed(s: StateView, lid: u128, confirmed: Seq<u128>, now: u64)
    requires
        s.wf(),
        has_key(s.lobbys, lid),
    ensures
        ({
            let l = lookup(s.lobbys, lid).unwrap();
            let r = s.settle_lobby(lid, confirmed, now);
            &&& (exists|i: int| 0 <= i < l.players.len() && !confirmed.contains(#[trigger] l.players[i])) ==> {
                &&& r.queue == s.queue
                &&& lookup(r.lobbys, lid) == Some(LobbyView { status: PlayerStatus::Idle, ..l })
                &&& forall|x: int|
                    0 <= x < r.players.len() && l.players.contains(#[trigger] r.players[x].id) ==> r.players[x].status
                        == PlayerStatus::Idle
            }
            &&& (forall|i: int| 0 <= i < l.players.len() ==> confirmed.contains(#[trigger] l.players[i])) ==> {
                &&& r.queue.len() == s.queue.len() + 1
                &&& r.queue.drop_last() == s.queue
                &&& r.queue.last().lobby_id == lid
                &&& r.queue.last().start_time == now
                &&& lookup(r.lobbys, lid) == Some(LobbyView { status: PlayerStatus::InQueue { queue_time: now }, ..l })
                &&& forall|x: int|
                    0 <= x < r.players.len() && l.players.contains(#[trigger] r.players[x].id) ==> r.players[x].status
                        == (PlayerStatus::InQueue { queue_time: now })
            }
        }),
{
    let l = lookup(s.lobbys, lid).unwrap();
    let li = key_index(s.lobbys, lid);
    assert(s.lobbys[li].key() == lid);
    lemma_key_index(s.lobbys, li);
    assert(l.id == lid);
    let r = s.settle_lobby(lid, confirmed, now);
    if exists|i: int| 0 <= i < l.players.len() && !confirmed.contains(#[trigger] l.players[i]) {
        let i = choose|i: int| 0 <= i < l.players.len() && !confirmed.contains(#[trigger] l.players[i]);
        assert(!crate::app_state::confirmation::all_confirmed(l.players, confirmed)) by {
            assert(!confirmed.contains(l.players[i]));
        }
        crate::laws::lemma_lookup_replace(s.lobbys, lid, LobbyView { status: PlayerStatus::Idle, ..l });
    }
    if forall|i: int| 0 <= i < l.players.len() ==> confirmed.contains(#[trigger] l.players[i]) {
        assert(crate::app_state::confirmation::all_confirmed(l.players, confirmed));
        crate::laws::lemma_lookup_replace(s.lobbys, lid, LobbyView { status: PlayerStatus::InQueue { queue_time: now }, ..l });
        assert(r.queue.drop_last() =~= s.queue);
    }
}

/// Moving games into the games in progress adds only those games.
proof fn lemma_move_all_ongoing(t: StateView, gs: Seq<GameView>)
    ensures
        forall|x: int|
            0 <= x < t.move_all(gs).ongoing.len() ==> t.ongoing.contains(#[trigger] t.move_all(gs).ongoing[x])
                || gs.contains(t.move_all(gs).ongoing[x]),
    decreases gs.len(),
{
    if gs.len() > 0 {
        let d = gs.drop_last();
        lemma_move_all_ongoing(t, d);
        let o = t.move_all(d).ongoing;
        let v = gs.last();
        let f = t.move_all(gs).ongoing;
        assert(gs.contains(v)) by {
            assert(gs[gs.len() - 1] == v);
        }
        assert forall|x: int| 0 <= x < f.len() implies t.ongoing.contains(#[trigger] f[x]) || gs.contains(f[x]) by {
            if f[x] != v {
                let y: int = if has_key(o, v.key()) { x } else { x };
                assert(f[x] == o[y]);
                if !t.ongoing.contains(o[y]) {
                    let z = choose|z: int| 0 <= z < d.len() && d[z] == o[y];
                    assert(gs[z] == d[z]);
                }
            }
        }
    }
}

/// Moving games out of the waiting games keeps every waiting game whose
/// identifier none of them has.
proof fn lemma_move_all_keeps(t: StateView, gs: Seq<GameView>, g: GameView)
    requires
        t.waiting.contains(g),
        forall|y: int| 0 <= y < gs.len() ==> (#[trigger] gs[y]).id != g.id,
    ensures
        t.move_all(gs).waiting.contains(g),
    decreases gs.len(),
{
    if gs.len() > 0 {
        let d = gs.drop_last();
        assert forall|y: int| 0 <= y < d.len() implies (#[trigger] d[y]).id != g.id by {
            assert(d[y] == gs[y]);
        }
        lemma_move_all_keeps(t, d, g);
        let w = t.move_all(d).waiting;
        let k = gs.last().id;
        assert(k != g.id) by {
            assert(gs[gs.len() - 1].id != g.id);
        }
        let j = choose|j: int| 0 <= j < w.len() && w[j] == g;
        if has_key(w, k) {
            let idx = key_index(w, k);
            assert(w[idx].key() == k);
            assert(idx != j);
            let f = w.remove(idx);
            let jj = if j < idx { j } else { j - 1 };
            assert(f[jj] == g);
        }
    }
}

/// A confirmation round starts only fully confirmed games: afterwards every
/// game in progress was in progress before, or was waiting with at least
/// `team_size * 2` confirmations; and every waiting game with fewer
/// confirmations that has not run past the time limit is still waiting,
/// unchanged.
pub proof fn law_only_fully_confirmed_games_start(s: StateView, now: u64, limit: Option<u64>)
    requires
        s.wf(),
    ensures
        forall|x: int|
            0 <= x < s.check_confirmations(now, limit).ongoing.len() ==> s.ongoing.contains(
                #[trigger] s.check_confirmations(now, limit).ongoing[x],
            ) || (s.waiting.contains(s.check_confirmations(now, limit).ongoing[x])
                && s.check_confirmations(now, limit).ongoing[x].confirmed.len() >= s.settings.team_size * 2),
        forall|g: GameView|
            #[trigger] s.waiting.contains(g) && g.confirmed.len() < s.settings.team_size * 2 && (match limit {
                Some(secs) => now < g.start_time || now - g.start_time <= secs * 1_000_000_000,
                None => true,
            }) ==> s.check_confirmations(now, limit).waiting.contains(g),
{
    let s1 = s.drop_expired(now, limit);
    match limit {
        None => {},
        Some(secs) => {
            lemma_expire_all_frame(s, s.waiting.filter(expired_pred(now, secs)), now);
            crate::keyed::lemma_unique_filter(s.waiting, kept_pred(now, secs));
        },
    }
    assert(s1.settings == s.settings && s1.ongoing == s.ongoing);
    assert(crate::keyed::unique_keys(s1.waiting));
    let req = s.settings.team_size * 2;
    let pred = confirmed_pred(req);
    let cs = s1.waiting.filter(pred);
    let r = s.check_confirmations(now, limit);
    // Every game s1 still has waiting was waiting before.
    assert forall|g: GameView| s1.waiting.contains(g) implies s.waiting.contains(g) by {
        match limit {
            None => {},
            Some(secs) => {
                s.waiting.lemma_filter_contains_rev(kept_pred(now, secs), g);
            },
        }
    }
    // Every game in `cs` was waiting and is fully confirmed.
    assert forall|g: GameView| cs.contains(g) implies s1.waiting.contains(g) && g.confirmed.len() >= req by {
        s1.waiting.lemma_filter_contains_rev(pred, g);
        let i = choose|i: int| 0 <= i < cs.len() && cs[i] == g;
        s1.waiting.lemma_filter_pred(pred, i);
    }
    if cs.len() > 0 {
        let a = s1.announce_all(cs);
        lemma_announce_all_frame(s1, cs);
        let m = a.move_all(cs);
        lemma_mark_in_game_frame(m, m.ongoing);
        assert(r.ongoing == m.ongoing && r.waiting == m.waiting);
        lemma_move_all_ongoing(a, cs);
        assert forall|g: GameView|
            #[trigger] s.waiting.contains(g) && g.confirmed.len() < req && (match limit {
                Some(secs) => now < g.start_time || now - g.start_time <= secs * 1_000_000_000,
                None => true,
            }) implies r.waiting.contains(g) by {
            let j = choose|j: int| 0 <= j < s.waiting.len() && s.waiting[j] == g;
            match limit {
                None => {},
                Some(secs) => {
                    s.waiting.lemma_filter_contains(kept_pred(now, secs), j);
                },
            }
            assert(s1.waiting.contains(g));
            assert forall|y: int| 0 <= y < cs.len() implies (#[trigger] cs[y]).id != g.id by {
                assert(cs.contains(cs[y]));
                let p = choose|p: int| 0 <= p < s1.waiting.len() && s1.waiting[p] == cs[y];
                let q = choose|q: int| 0 <= q < s1.waiting.len() && s1.waiting[q] == g;
                if cs[y].id == g.id {
                    assert(s1.waiting[p].key() == s1.waiting[q].key());
                    assert(p == q);
                }
            }
            lemma_move_all_keeps(a, cs, g);
        }
    } else {
        assert(r == s1);
        assert forall|g: GameView|
            #[trigger] s.waiting.contains(g) && g.confirmed.len() < req && (match limit {
                Some(secs) => now < g.start_time || now - g.start_time <= secs * 1_000_000_000,
                None => true,
            }) implies r.waiting.contains(g) by {
            let j = choose|j: int| 0 <= j < s.waiting.len() && s.waiting[j] == g;
            match limit {
                None => {},
                Some(secs) => {
                    s.waiting.lemma_filter_contains(kept_pred(now, secs), j);
                },
            }
        }
    }
}

/// Lobby `lid` is out of the queue and idle with members `m`, no other
/// lobby lists any of `m`, and the records of `m` are idle.
spec fn settled_out(t: StateView, lid: u128, m: Seq<u128>) -> bool {
    &&& forall|x: int| 0 <= x < t.queue.len() ==> (#[trigger] t.queue[x]).lobby_id != lid
    &&& forall|i: int|
        0 <= i < t.lobbys.len() && (#[trigger] t.lobbys[i]).id == lid ==> t.lobbys[i].status == PlayerStatus::Idle
            && t.lobbys[i].players == m
    &&& forall|i: int, k: int|
        0 <= i < t.lobbys.len() && t.lobbys[i].id != lid && 0 <= k < m.len() ==> !(#[trigger] t.lobbys[i]).players.contains(
            #[trigger] m[k],
        )
    &&& forall|x: int| 0 <= x < t.players.len() && m.contains((#[trigger] t.players[x]).id) ==> t.players[x].status == PlayerStatus::Idle
}

/// A found record carries the identifier it was found under.
proof fn lemma_lookup_key(ls: Seq<LobbyView>, k: u128)
    requires
        lookup(ls, k) is Some,
    ensures
        lookup(ls, k).unwrap().id == k,
        ls[key_index(ls, k)] == lookup(ls, k).unwrap(),
        0 <= key_index(ls, k) < ls.len(),
{
    let j = key_index(ls, k);
    assert(ls[j].key() == k);
}

/// Queueing another lobby keeps lobby `lid` settled out.
proof fn lemma_queue_other_keeps(t: StateView, lid: u128, m: Seq<u128>, l: LobbyView, now: u64)
    requires
        settled_out(t, lid, m),
        lookup(t.lobbys, l.id) == Some(l),
        l.id != lid,
    ensures
        settled_out(t.queue_lobby_at(l, now), lid, m),
{
    lemma_lookup_key(t.lobbys, l.id);
    let li = key_index(t.lobbys, l.id);
    let r = t.queue_lobby_at(l, now);
    let st = PlayerStatus::InQueue { queue_time: now };
    assert(r.lobbys == t.lobbys.update(li, LobbyView { status: st, ..l }));
    assert forall|i: int|
        0 <= i < r.lobbys.len() && (#[trigger] r.lobbys[i]).id == lid implies r.lobbys[i].status == PlayerStatus::Idle
            && r.lobbys[i].players == m by {
        assert(i != li);
        assert(r.lobbys[i] == t.lobbys[i]);
    }
    assert forall|i: int, k: int|
        0 <= i < r.lobbys.len() && r.lobbys[i].id != lid && 0 <= k < m.len() implies !(#[trigger] r.lobbys[i]).players.contains(
        #[trigger] m[k]) by {
        assert(r.lobbys[i].players == t.lobbys[i].players);
        assert(!t.lobbys[i].players.contains(m[k]));
    }
    assert forall|x: int| 0 <= x < r.players.len() && m.contains((#[trigger] r.players[x]).id) implies r.players[x].status
        == PlayerStatus::Idle by {
        let k = choose|k: int| 0 <= k < m.len() && m[k] == r.players[x].id;
        assert(!t.lobbys[li].players.contains(m[k]));
        assert(r.players[x].id == t.players[x].id);
    }
    assert forall|x: int| 0 <= x < r.queue.len() implies (#[trigger] r.queue[x]).lobby_id != lid by {
        if x < t.queue.len() {
            assert(r.queue[x] == t.queue[x]);
        }
    }
}

/// Re-queueing the lobbies but `lid` keeps lobby `lid` settled out.
proof fn lemma_requeue_others_keeps(t: StateView, lids: Seq<u128>, lid: u128, m: Seq<u128>, now: u64)
    requires
        t.wf(),
        settled_out(t, lid, m),
    ensures
        settled_out(t.requeue_others(lids, lid, now), lid, m),
    decreases lids.len(),
{
    if lids.len() > 0 {
        lemma_requeue_others_keeps(t, lids.drop_last(), lid, m, now);
        lemma_requeue_others_shape(t, lids.drop_last(), lid, now);
        let u = t.requeue_others(lids.drop_last(), lid, now);
        if lids.last() != lid {
            match lookup(u.lobbys, lids.last()) {
                None => {},
                Some(l) => {
                    lemma_lookup_key(u.lobbys, lids.last());
                    lemma_queue_other_keeps(u, lid, m, l, now);
                },
            }
        }
    }
}

/// Cancelling the games of lobby `lid` keeps it settled out.
proof fn lemma_cancel_games_keeps(t: StateView, gs: Seq<GameView>, lid: u128, m: Seq<u128>, now: u64)
    requires
        t.wf(),
        settled_out(t, lid, m),
    ensures
        settled_out(t.cancel_games(gs, lid, now), lid, m),
    decreases gs.len(),
{
    if gs.len() > 0 {
        lemma_cancel_games_keeps(t, gs.drop_last(), lid, m, now);
        lemma_cancel_games_shape(t, gs.drop_last(), lid, now);
        let g = gs.last();
        let u = t.cancel_games(gs.drop_last(), lid, now)
            .send_all(g.team1, crate::messages::MessageView::GameCancelled { game_id: g.id })
            .send_all(g.team2, crate::messages::MessageView::GameCancelled { game_id: g.id });
        lemma_requeue_others_keeps(u, g.lobbys, lid, m, now);
    }
}

/// The queue holds at most one entry for lobby `lid`.
pub open spec fn queued_at_most_once(q: Seq<QueueEntryView>, lid: u128) -> bool {
    forall|x: int, y: int| 0 <= x < y < q.len() && (#[trigger] q[x]).lobby_id == lid ==> (#[trigger] q[y]).lobby_id != lid
}

/// Withdrawing a lobby's single entry leaves none for it.
proof fn lemma_dequeue_single(q: Seq<QueueEntryView>, lid: u128)
    requires
        queued_at_most_once(q, lid),
    ensures
        forall|x: int|
            0 <= x < crate::app_state::without_first_entry(q, lid).len() ==> (#[trigger] crate::app_state::without_first_entry(
                q,
                lid,
            )[x]).lobby_id != lid,
{
    if crate::app_state::queued(q, lid) {
        let i0 = choose|i: int| 0 <= i < q.len() && #[trigger] q[i].lobby_id == lid;
        assert forall|j: int| 0 <= j < i0 implies #[trigger] q[j].lobby_id != lid by {
            if q[j].lobby_id == lid {
                assert(q[i0].lobby_id != lid);
            }
        }
        assert(crate::app_state::first_entry(q, lid, i0));
        let c = choose|i: int| crate::app_state::first_entry(q, lid, i);
        assert(c == i0) by {
            if c < i0 {
                assert(q[i0].lobby_id != lid);
            } else if c > i0 {
                assert(q[c].lobby_id != lid);
            }
        }
        let r = q.remove(i0);
        assert forall|x: int| 0 <= x < r.len() implies (#[trigger] r[x]).lobby_id != lid by {
            if x < i0 {
                assert(r[x] == q[x]);
            } else {
                assert(r[x] == q[x + 1]);
                assert(q[x + 1].lobby_id != lid);
            }
        }
    }
}

/// The members of a departing player's lobby who stay.
pub open spec fn staying_members(s: StateView, p: PlayerView) -> Seq<u128> {
    match lookup(s.lobbys, p.lobby.unwrap()) {
        Some(l) => l.players.filter(other_than(p.id)),
        None => Seq::empty(),
    }
}

/// Every member listed in a lobby, but possibly `pid`, is a connected
/// player whose record names that lobby.
pub open spec fn consistent_but(s: StateView, pid: u128) -> bool {
    forall|i: int, k: int|
        0 <= i < s.lobbys.len() && 0 <= k < s.lobbys[i].players.len() && s.lobbys[i].players[k] != pid ==> #[trigger] member_ok(
            s.players,
            s.lobbys[i].players[k],
            s.lobbys[i].id,
        )
}

/// Withdrawing a departing player leaves their lobby idle and out of the
/// queue, its staying members idle and listed by no other lobby.
proof fn lemma_withdraw_settles(s: StateView, p: PlayerView)
    requires
        s.wf(),
        p.lobby is Some,
        consistent_but(s, p.id),
        queued_at_most_once(s.queue, p.lobby.unwrap()),
    ensures
        s.withdraw_member(p).wf(),
        settled_out(s.withdraw_member(p), p.lobby.unwrap(), staying_members(s, p)),
{
    let lid = p.lobby.unwrap();
    let pid = p.id;
    let m = staying_members(s, p);
    lemma_set_lobby_status_in_place(s, lid, PlayerStatus::Idle);
    let s0 = s.set_lobby_status(lid, PlayerStatus::Idle);
    let s1 = s0.dequeue(lid);
    lemma_dequeue_single(s.queue, lid);
    assert(s0.queue == s.queue);
    let w = s.withdraw_member(p);
    match lookup(s.lobbys, lid) {
        None => {
            assert(s0 == s);
            assert(w == s1);
            assert forall|i: int| 0 <= i < w.lobbys.len() implies (#[trigger] w.lobbys[i]).id != lid by {
                if w.lobbys[i].id == lid {
                    assert(w.lobbys[i].key() == lid);
                }
            }
        },
        Some(l) => {
            lemma_lookup_key(s.lobbys, lid);
            let li = key_index(s.lobbys, lid);
            lemma_key_index(s.lobbys, li);
            let l1 = LobbyView { status: PlayerStatus::Idle, ..l };
            assert(s0.lobbys == s.lobbys.update(li, l1));
            assert(s0.players == crate::app_state::set_status(s.players, l.players, PlayerStatus::Idle));
            crate::keyed::lemma_unique_update(s.lobbys, li, l1);
            lemma_key_index(s0.lobbys, li);
            assert(lookup(s0.lobbys, lid) == Some(l1));
            let rest = l1.players.filter(other_than(pid));
            assert(rest == m);
            // Staying members belong to this lobby only.
            assert forall|k: int| 0 <= k < m.len() implies l.players.contains(#[trigger] m[k]) && m[k] != pid
                && member_ok(s.players, m[k], lid) by {
                assert(m.contains(m[k]));
                l.players.lemma_filter_contains_rev(other_than(pid), m[k]);
                l.players.lemma_filter_pred(other_than(pid), k);
                let k1 = choose|k1: int| 0 <= k1 < l.players.len() && l.players[k1] == m[k];
                assert(s.lobbys[li].players[k1] == m[k]);
                assert(member_ok(s.players, s.lobbys[li].players[k1], s.lobbys[li].id));
            }
            assert forall|j: int, k: int|
                0 <= j < s.lobbys.len() && j != li && 0 <= k < m.len() implies !(#[trigger] s.lobbys[j]).players.contains(
                #[trigger] m[k]) by {
                if s.lobbys[j].players.contains(m[k]) {
                    let k2 = choose|k2: int| 0 <= k2 < s.lobbys[j].players.len() && s.lobbys[j].players[k2] == m[k];
                    assert(member_ok(s.players, s.lobbys[j].players[k2], s.lobbys[j].id));
                    assert(s.lobbys[j].key() != s.lobbys[li].key());
                }
            }
            if rest.len() == 0 {
                crate::keyed::lemma_unique_remove_key(s0.lobbys, lid);
                assert(w.lobbys == s0.lobbys.remove(li));
                assert forall|i: int| 0 <= i < w.lobbys.len() implies (#[trigger] w.lobbys[i]).id != lid by {
                    let y = if i < li { i } else { i + 1 };
                    assert(w.lobbys[i] == s0.lobbys[y]);
                    assert(s0.lobbys[y].key() != s0.lobbys[li].key());
                }
            } else {
                let owner = if l1.owner == pid && rest.len() > 0 { rest[0] } else { l1.owner };
                let nl = LobbyView { players: rest, owner, ..l1 };
                crate::keyed::lemma_unique_update(s0.lobbys, li, nl);
                assert(w.lobbys == s0.lobbys.update(li, nl));
                assert forall|i: int|
                    0 <= i < w.lobbys.len() && (#[trigger] w.lobbys[i]).id == lid implies w.lobbys[i].status
                        == PlayerStatus::Idle && w.lobbys[i].players == m by {
                    if i != li {
                        assert(s0.lobbys[i].key() != s0.lobbys[li].key());
                    }
                }
                assert forall|i: int, k: int|
                    0 <= i < w.lobbys.len() && w.lobbys[i].id != lid && 0 <= k < m.len() implies !(#[trigger] w.lobbys[i]).players.contains(
                    #[trigger] m[k]) by {
                    assert(i != li);
                    assert(w.lobbys[i] == s.lobbys[i]);
                }
            }
            assert forall|i: int, k: int|
                0 <= i < w.lobbys.len() && w.lobbys[i].id != lid && 0 <= k < m.len() implies !(#[trigger] w.lobbys[i]).players.contains(
                #[trigger] m[k]) by {
                if rest.len() == 0 {
                    let y = if i < li { i } else { i + 1 };
                    assert(w.lobbys[i] == s.lobbys[y]);
                } else {
                    assert(i != li);
                    assert(w.lobbys[i] == s.lobbys[i]);
                }
            }
            assert forall|x: int| 0 <= x < w.players.len() && m.contains((#[trigger] w.players[x]).id) implies w.players[x].status
                == PlayerStatus::Idle by {
                let k = choose|k: int| 0 <= k < m.len() && m[k] == w.players[x].id;
                assert(l.players.contains(m[k]));
            }
        },
    }
}

/// A player leaving their lobby (as at disconnection) takes the lobby out
/// of matchmaking: afterwards no queue entry is for that lobby, and the
/// lobby, if it still exists, is idle, as are all its remaining members;
/// only the other lobbies of the cancelled games go back into the queue.
/// (The queue holds the lobby at most once, and every listed member is a
/// connected player whose record names the lobby.)
pub proof fn law_departed_lobby_stays_out(s: StateView, p: PlayerView, now: u64)
    requires
        s.wf(),
        consistent(s),
        p.lobby is Some,
        queued_at_most_once(s.queue, p.lobby.unwrap()),
    ensures
        forall|x: int|
            0 <= x < s.remove_from_lobby(p, now).queue.len() ==> (#[trigger] s.remove_from_lobby(p, now).queue[x]).lobby_id
                != p.lobby.unwrap(),
        forall|i: int, y: int|
            0 <= i < s.remove_from_lobby(p, now).lobbys.len() && (#[trigger] s.remove_from_lobby(p, now).lobbys[i]).id
                == p.lobby.unwrap() ==> s.remove_from_lobby(p, now).lobbys[i].status == PlayerStatus::Idle && (0 <= y
                < s.remove_from_lobby(p, now).players.len() && s.remove_from_lobby(p, now).lobbys[i].players.contains(
                (#[trigger] s.remove_from_lobby(p, now).players[y]).id,
            ) ==> s.remove_from_lobby(p, now).players[y].status == PlayerStatus::Idle),
{
    let lid = p.lobby.unwrap();
    let m = staying_members(s, p);
    lemma_withdraw_settles(s, p);
    let w = s.withdraw_member(p);
    let gs = w.waiting.filter(lists_lobby(lid));
    lemma_cancel_games_keeps(w, gs, lid, m, now);
    let c = w.cancel_games(gs, lid, now);
    let r = s.remove_from_lobby(p, now);
    assert(r == StateView { waiting: w.waiting.filter(omits_lobby(lid)), ..c });
    assert(settled_out(r, lid, m));
}

} // verus!
