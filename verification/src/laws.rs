//! Properties of the server's rules that span several operations.

use vstd::prelude::*;

use crate::app_state::confirmation::{bounded_push, SAMPLE_WINDOW};
use crate::app_state::lobby::{other_than, reset_player};
use crate::app_state::{first_entry, queued, StateView};
use crate::keyed::{has_key, key_index, lemma_key_index, lookup, replace_key, unique_keys, Keyed};
use crate::messages::MessageView;
use crate::structs::{LobbyView, PlayerStatus, PlayerView, QueueEntryView};

verus! {

/// A sequence in which every element satisfies the predicate is its own
/// filter.
pub proof fn lemma_filter_all<A>(s: Seq<A>, p: spec_fn(A) -> bool)
    requires
        forall|i: int| 0 <= i < s.len() ==> p(#[trigger] s[i]),
    ensures
        s.filter(p) == s,
    decreases s.len(),
{
    reveal(Seq::filter);
    if s.len() > 0 {
        let d = s.drop_last();
        assert forall|i: int| 0 <= i < d.len() implies p(#[trigger] d[i]) by {
            assert(d[i] == s[i]);
        }
        lemma_filter_all(d, p);
        assert(p(s[s.len() - 1]));
        assert(d.push(s.last()) =~= s);
    }
}

/// Withdrawing a lobby from the queue right after queueing it restores the
/// queue, when the lobby was not queued before.
pub proof fn law_dequeue_undoes_queue(s: StateView, e: QueueEntryView)
    requires
        !queued(s.queue, e.lobby_id),
    ensures
        s.enqueue(e).dequeue(e.lobby_id) == s,
{
    let q = s.queue.push(e);
    let n = s.queue.len() as int;
    assert(q[n].lobby_id == e.lobby_id);
    assert forall|j: int| 0 <= j < n implies #[trigger] q[j].lobby_id != e.lobby_id by {
        assert(q[j] == s.queue[j]);
    }
    assert(first_entry(q, e.lobby_id, n));
    assert(queued(q, e.lobby_id));
    let k = choose|k: int| first_entry(q, e.lobby_id, k);
    if k < n {
        assert(q[k].lobby_id != e.lobby_id);
    }
    assert(k == n);
    assert(q.remove(n) =~= s.queue);
    assert(s.enqueue(e).dequeue(e.lobby_id) =~= s);
}

/// A window of samples never grows beyond `SAMPLE_WINDOW` entries, and its
/// newest entry is the one just added.
pub proof fn law_sample_window<T>(s: Seq<T>, x: T)
    requires
        s.len() <= SAMPLE_WINDOW,
    ensures
        bounded_push(s, x).len() <= SAMPLE_WINDOW,
        bounded_push(s, x).last() == x,
{
}

/// In a sequence without repeated identifiers, replacing a record makes it
/// the one found under its identifier.
pub proof fn lemma_lookup_replace<T: Keyed>(s: Seq<T>, k: u128, v: T)
    requires
        unique_keys(s),
        has_key(s, k),
        v.key() == k,
    ensures
        lookup(replace_key(s, k, v), k) == Some(v),
        unique_keys(replace_key(s, k, v)),
{
    let i = key_index(s, k);
    crate::keyed::lemma_unique_update(s, i, v);
    let r = s.update(i, v);
    assert(r[i].key() == k);
    lemma_key_index(r, i);
}

/// A player who joins an existing lobby they are not in (and do not own),
/// and then leaves it, leaves players and lobbies as they were; only the two
/// notices to the player remain.
pub proof fn law_leave_undoes_join(s: StateView, p: PlayerView, lid: u128)
    requires
        s.wf(),
        lookup(s.players, p.id) == Some(p),
        p.status is Idle,
        p.lobby is None,
        has_key(s.lobbys, lid),
        !lookup(s.lobbys, lid).unwrap().players.contains(p.id),
        lookup(s.lobbys, lid).unwrap().players.len() > 0,
        lookup(s.lobbys, lid).unwrap().owner != p.id,
    ensures
        lookup(s.join_lobby(p, lid).players, p.id) == Some(PlayerView { lobby: Some(lid), ..p }),
        s.join_lobby(p, lid).leave_lobby(PlayerView { lobby: Some(lid), ..p }) == (StateView {
            outbox: s.outbox.push((p.id, MessageView::LobbyJoined { lobby_id: lid })).push(
                (p.id, MessageView::LobbyLeft { lobby_id: lid }),
            ),
            ..s
        }),
{
    let l = lookup(s.lobbys, lid).unwrap();
    let i = key_index(s.lobbys, lid);
    let l1 = LobbyView { players: l.players.push(p.id), ..l };
    let s1 = s.join_lobby(p, lid);
    let p1 = PlayerView { lobby: Some(lid), ..p };
    let j = key_index(s.players, p.id);
    assert(has_key(s.players, p.id));
    assert(s.players[j] == p);
    lemma_lookup_replace(s.lobbys, lid, l1);
    assert(s1.lobbys == replace_key(s.lobbys, lid, l1));
    // The joined record.
    let ps1 = s1.players;
    assert(ps1[j] == p1);
    crate::keyed::lemma_unique_same_keys(s.players, ps1);
    lemma_key_index(ps1, j);
    // Leaving restores the records.
    assert(reset_player(ps1, p.id) =~= s.players) by {
        assert forall|k: int| 0 <= k < s.players.len() implies #[trigger] reset_player(ps1, p.id)[k] == s.players[k] by {
            if k != j {
                assert(s.players[k].key() != s.players[j].key());
            }
        }
    }
    // Leaving restores the lobby.
    assert forall|x: int| 0 <= x < l.players.len() implies (other_than(p.id))(#[trigger] l.players[x]) by {
        assert(l.players.contains(l.players[x]));
    }
    lemma_filter_all(l.players, other_than(p.id));
    l.players.lemma_filter_push(p.id, other_than(p.id));
    assert(l1.players.filter(other_than(p.id)) == l.players);
    let r = replace_key(s.lobbys, lid, l1);
    lemma_key_index(s.lobbys, i);
    assert(has_key(r, lid));
    assert(key_index(r, lid) == i) by {
        lemma_key_index(r, i);
    }
    assert(r.update(i, LobbyView { players: l.players, owner: l.owner, ..l1 }) =~= s.lobbys);
    assert(s1.leave_lobby(p1) =~= StateView {
        outbox: s.outbox.push((p.id, MessageView::LobbyJoined { lobby_id: lid })).push(
            (p.id, MessageView::LobbyLeft { lobby_id: lid }),
        ),
        ..s
    });
}

/// A lobby member is a connected player whose record names the lobby.
pub open spec fn member_ok(ps: Seq<PlayerView>, m: u128, lid: u128) -> bool {
    match lookup(ps, m) {
        Some(q) => q.lobby == Some(lid),
        None => false,
    }
}

/// Every member listed in a lobby is a connected player whose record names
/// that lobby.
pub open spec fn consistent(s: StateView) -> bool {
    forall|i: int, k: int|
        0 <= i < s.lobbys.len() && 0 <= k < s.lobbys[i].players.len() ==> #[trigger] member_ok(
            s.players,
            s.lobbys[i].players[k],
            s.lobbys[i].id,
        )
}

/// Whether a player is listed among the members of some lobby.
pub open spec fn listed(s: StateView, pid: u128) -> bool {
    exists|i: int| 0 <= i < s.lobbys.len() && #[trigger] s.lobbys[i].players.contains(pid)
}

/// Records with the same identifiers and lobbies in place agree on
/// membership.
pub proof fn lemma_member_ok_same(a: Seq<PlayerView>, b: Seq<PlayerView>, m: u128, lid: u128)
    requires
        unique_keys(a),
        a.len() == b.len(),
        forall|i: int| 0 <= i < a.len() ==> (#[trigger] b[i]).id == a[i].id && b[i].lobby == a[i].lobby,
    ensures
        member_ok(b, m, lid) == member_ok(a, m, lid),
{
    assert forall|i: int| 0 <= i < a.len() implies #[trigger] b[i].key() == a[i].key() by {
        assert(b[i].id == a[i].id);
    }
    crate::keyed::lemma_unique_same_keys(a, b);
    if has_key(a, m) {
        let i = key_index(a, m);
        lemma_key_index(a, i);
        assert(b[i].id == a[i].id);
        lemma_key_index(b, i);
    } else if has_key(b, m) {
        let i = key_index(b, m);
        lemma_key_index(b, i);
        assert(a[i].key() == m);
    }
}

/// Dropping one player's record leaves the others' membership as it was.
pub proof fn lemma_member_ok_remove(a: Seq<PlayerView>, pid: u128, m: u128, lid: u128)
    requires
        unique_keys(a),
        m != pid,
    ensures
        member_ok(crate::keyed::remove_key(a, pid), m, lid) == member_ok(a, m, lid),
{
    if has_key(a, pid) {
        let j = key_index(a, pid);
        lemma_key_index(a, j);
        let r = a.remove(j);
        crate::keyed::lemma_unique_remove(a, j);
        if has_key(a, m) {
            let i = key_index(a, m);
            lemma_key_index(a, i);
            assert(i != j);
            let i2 = if i < j { i } else { i - 1 };
            assert(r[i2] == a[i]);
            lemma_key_index(r, i2);
        } else if has_key(r, m) {
            let i2 = key_index(r, m);
            lemma_key_index(r, i2);
            let i = if i2 < j { i2 } else { i2 + 1 };
            assert(a[i] == r[i2]);
            assert(a[i].key() == m);
        }
    }
}

/// Setting statuses keeps identifiers and lobbies of records in place.
pub proof fn lemma_set_status_in_place(ps: Seq<PlayerView>, ids: Seq<u128>, st: PlayerStatus)
    ensures
        crate::app_state::set_status(ps, ids, st).len() == ps.len(),
        forall|i: int|
            0 <= i < ps.len() ==> (#[trigger] crate::app_state::set_status(ps, ids, st)[i]).id == ps[i].id
                && crate::app_state::set_status(ps, ids, st)[i].lobby == ps[i].lobby,
{
}

/// Setting a lobby's status keeps players' identifiers and lobbies, and
/// lobbies' identifiers and members, in place.
pub proof fn lemma_set_lobby_status_in_place(s: StateView, lid: u128, st: PlayerStatus)
    requires
        s.wf(),
    ensures
        ({
            let r = s.set_lobby_status(lid, st);
            &&& r.wf()
            &&& r.players.len() == s.players.len()
            &&& forall|i: int| 0 <= i < s.players.len() ==> (#[trigger] r.players[i]).id == s.players[i].id
                && r.players[i].lobby == s.players[i].lobby
            &&& r.lobbys.len() == s.lobbys.len()
            &&& forall|i: int| 0 <= i < s.lobbys.len() ==> (#[trigger] r.lobbys[i]).id == s.lobbys[i].id
                && r.lobbys[i].players == s.lobbys[i].players
        }),
{
    match lookup(s.lobbys, lid) {
        None => {},
        Some(l) => {
            let i = key_index(s.lobbys, lid);
            assert(0 <= i < s.lobbys.len() && s.lobbys[i].key() == lid);
            let nl = LobbyView { status: st, ..l };
            crate::keyed::lemma_unique_update(s.lobbys, i, nl);
            lemma_set_status_in_place(s.players, l.players, st);
            let r = s.set_lobby_status(lid, st);
            assert forall|x: int| 0 <= x < s.players.len() implies #[trigger] r.players[x].key() == s.players[x].key() by {
                assert(r.players[x].id == s.players[x].id);
            }
            crate::keyed::lemma_unique_same_keys(s.players, r.players);
        },
    }
}

/// Dropping a departing player's record and taking them out of their lobby
/// leaves them unconnected and listed nowhere, and keeps membership
/// consistent.
pub proof fn lemma_detach_departed(s: StateView, pid: u128)
    requires
        s.wf(),
        consistent(s),
    ensures
        s.detach_departed(pid).wf(),
        consistent(s.detach_departed(pid)),
        !has_key(s.detach_departed(pid).players, pid),
        !listed(s.detach_departed(pid), pid),
{
    let r = s.detach_departed(pid);
    // A member listed anywhere names the lobby listing them.
    assert forall|i: int| 0 <= i < s.lobbys.len() && #[trigger] s.lobbys[i].players.contains(pid) implies lookup(
        s.players,
        pid,
    ) == Some(PlayerView { lobby: Some(s.lobbys[i].id), ..lookup(s.players, pid).unwrap() }) by {
        let k = choose|k: int| 0 <= k < s.lobbys[i].players.len() && s.lobbys[i].players[k] == pid;
        assert(member_ok(s.players, s.lobbys[i].players[k], s.lobbys[i].id));
    }
    match lookup(s.players, pid) {
        None => {
            assert forall|i: int| 0 <= i < s.lobbys.len() implies !(#[trigger] s.lobbys[i].players.contains(pid)) by {
                if s.lobbys[i].players.contains(pid) {
                    let k = choose|k: int| 0 <= k < s.lobbys[i].players.len() && s.lobbys[i].players[k] == pid;
                    assert(member_ok(s.players, s.lobbys[i].players[k], s.lobbys[i].id));
                }
            }
        },
        Some(p) => {
            let s1 = StateView { players: crate::keyed::remove_key(s.players, pid), ..s };
            crate::keyed::lemma_unique_remove_key(s.players, pid);
            let j = key_index(s.players, pid);
            lemma_key_index(s.players, j);
            assert(!has_key(s1.players, pid)) by {
                if has_key(s1.players, pid) {
                    let x = key_index(s1.players, pid);
                    lemma_key_index(s1.players, x);
                    let y = if x < j { x } else { x + 1 };
                    assert(s.players[y] == s1.players[x]);
                    assert(s.players[y].key() == s.players[j].key());
                }
            }
            // The other members keep their membership.
            assert forall|i: int, k: int|
                0 <= i < s1.lobbys.len() && 0 <= k < s1.lobbys[i].players.len() && s1.lobbys[i].players[k]
                    != pid implies #[trigger] member_ok(s1.players, s1.lobbys[i].players[k], s1.lobbys[i].id) by {
                assert(member_ok(s.players, s.lobbys[i].players[k], s.lobbys[i].id));
                lemma_member_ok_remove(s.players, pid, s.lobbys[i].players[k], s.lobbys[i].id);
            }
            match p.lobby {
                None => {
                    assert forall|i: int| 0 <= i < s.lobbys.len() implies !(#[trigger] s.lobbys[i].players.contains(pid)) by {
                        if s.lobbys[i].players.contains(pid) {
                            let k = choose|k: int| 0 <= k < s.lobbys[i].players.len() && s.lobbys[i].players[k] == pid;
                            assert(member_ok(s.players, s.lobbys[i].players[k], s.lobbys[i].id));
                        }
                    }
                    assert(r == s1);
                    assert(consistent(r)) by {
                        assert forall|i: int, k: int|
                            0 <= i < r.lobbys.len() && 0 <= k < r.lobbys[i].players.len() implies #[trigger] member_ok(
                                r.players,
                                r.lobbys[i].players[k],
                                r.lobbys[i].id,
                            ) by {
                            if r.lobbys[i].players[k] == pid {
                                assert(r.lobbys[i].players.contains(pid));
                            }
                        }
                    }
                },
                Some(lid) => {
                    // Only the lobby the player names can list them.
                    assert forall|i: int| 0 <= i < s.lobbys.len() && #[trigger] s.lobbys[i].players.contains(pid) implies s.lobbys[i].id == lid by {
                        let k = choose|k: int| 0 <= k < s.lobbys[i].players.len() && s.lobbys[i].players[k] == pid;
                        assert(member_ok(s.players, s.lobbys[i].players[k], s.lobbys[i].id));
                    }
                    let s2a = s1.set_lobby_status(lid, PlayerStatus::Idle);
                    lemma_set_lobby_status_in_place(s1, lid, PlayerStatus::Idle);
                    let s2 = s2a.dequeue(lid);
                    assert forall|i: int, k: int|
                        0 <= i < s2.lobbys.len() && 0 <= k < s2.lobbys[i].players.len() && s2.lobbys[i].players[k]
                            != pid implies #[trigger] member_ok(s2.players, s2.lobbys[i].players[k], s2.lobbys[i].id) by {
                        assert(member_ok(s1.players, s1.lobbys[i].players[k], s1.lobbys[i].id));
                        lemma_member_ok_same(s1.players, s2.players, s1.lobbys[i].players[k], s1.lobbys[i].id);
                    }
                    assert forall|i: int| 0 <= i < s2.lobbys.len() && #[trigger] s2.lobbys[i].players.contains(pid) implies s2.lobbys[i].id == lid by {
                        assert(s.lobbys[i].players.contains(pid));
                    }
                    match lookup(s2.lobbys, lid) {
                        None => {
                            assert forall|i: int| 0 <= i < s2.lobbys.len() implies !(#[trigger] s2.lobbys[i].players.contains(pid)) by {
                                if s2.lobbys[i].players.contains(pid) {
                                    assert(s2.lobbys[i].key() == lid);
                                }
                            }
                            assert(r == s2);
                            assert(consistent(r)) by {
                                assert forall|i: int, k: int|
                                    0 <= i < r.lobbys.len() && 0 <= k < r.lobbys[i].players.len() implies #[trigger] member_ok(
                                        r.players,
                                        r.lobbys[i].players[k],
                                        r.lobbys[i].id,
                                    ) by {
                                    if r.lobbys[i].players[k] == pid {
                                        assert(r.lobbys[i].players.contains(pid));
                                    }
                                }
                            }
                        },
                        Some(l) => {
                            let li = key_index(s2.lobbys, lid);
                            lemma_key_index(s2.lobbys, li);
                            let rest = l.players.filter(other_than(pid));
                            assert forall|x: int| 0 <= x < rest.len() implies #[trigger] rest[x] != pid by {
                                l.players.lemma_filter_pred(other_than(pid), x);
                            }
                            assert(!rest.contains(pid));
                            // Members of the reduced lobby were members before.
                            assert forall|x: int| 0 <= x < rest.len() implies member_ok(s2.players, #[trigger] rest[x], lid) by {
                                assert(rest.contains(rest[x]));
                                l.players.lemma_filter_contains_rev(other_than(pid), rest[x]);
                                let k = choose|k: int| 0 <= k < l.players.len() && l.players[k] == rest[x];
                                assert(s2.lobbys[li].players[k] == rest[x]);
                                assert(member_ok(s2.players, s2.lobbys[li].players[k], s2.lobbys[li].id));
                            }
                            let owner = if l.owner == pid && rest.len() > 0 { rest[0] } else { l.owner };
                            if rest.len() == 0 {
                                crate::keyed::lemma_unique_remove(s2.lobbys, li);
                                let lr = s2.lobbys.remove(li);
                                assert forall|i: int, k: int|
                                    0 <= i < lr.len() && 0 <= k < lr[i].players.len() implies #[trigger] member_ok(
                                        s2.players,
                                        lr[i].players[k],
                                        lr[i].id,
                                    ) by {
                                    let i2 = if i < li { i } else { i + 1 };
                                    assert(lr[i] == s2.lobbys[i2]);
                                    if lr[i].players[k] == pid {
                                        assert(s2.lobbys[i2].players.contains(pid));
                                        assert(s2.lobbys[i2].key() == s2.lobbys[li].key());
                                    }
                                }
                                assert forall|i: int| 0 <= i < lr.len() implies !(#[trigger] lr[i].players.contains(pid)) by {
                                    let i2 = if i < li { i } else { i + 1 };
                                    assert(lr[i] == s2.lobbys[i2]);
                                    if lr[i].players.contains(pid) {
                                        assert(s2.lobbys[i2].players.contains(pid));
                                        assert(s2.lobbys[i2].key() == s2.lobbys[li].key());
                                    }
                                }
                                assert(r == StateView { lobbys: lr, ..s2 });
                                assert(consistent(r)) by {
                                    assert forall|i: int, k: int|
                                        0 <= i < r.lobbys.len() && 0 <= k < r.lobbys[i].players.len() implies #[trigger] member_ok(
                                            r.players,
                                            r.lobbys[i].players[k],
                                            r.lobbys[i].id,
                                        ) by {
                                        assert(member_ok(s2.players, lr[i].players[k], lr[i].id));
                                    }
                                }
                            } else {
                                let nl = LobbyView { players: rest, owner, ..l };
                                let lr = s2.lobbys.update(li, nl);
                                assert forall|i: int, k: int|
                                    0 <= i < lr.len() && 0 <= k < lr[i].players.len() implies #[trigger] member_ok(
                                        s2.players,
                                        lr[i].players[k],
                                        lr[i].id,
                                    ) by {
                                    if i == li {
                                        assert(lr[i].players[k] == rest[k]);
                                    } else {
                                        assert(lr[i] == s2.lobbys[i]);
                                        if lr[i].players[k] == pid {
                                            assert(s2.lobbys[i].players.contains(pid));
                                            assert(s2.lobbys[i].key() == s2.lobbys[li].key());
                                        }
                                    }
                                }
                                assert forall|i: int| 0 <= i < lr.len() implies !(#[trigger] lr[i].players.contains(pid)) by {
                                    if i != li {
                                        assert(lr[i] == s2.lobbys[i]);
                                        if lr[i].players.contains(pid) {
                                            assert(s2.lobbys[i].players.contains(pid));
                                            assert(s2.lobbys[i].key() == s2.lobbys[li].key());
                                        }
                                    }
                                }
                                assert(r == StateView { lobbys: lr, ..s2 });
                                assert(consistent(r)) by {
                                    assert forall|i: int, k: int|
                                        0 <= i < r.lobbys.len() && 0 <= k < r.lobbys[i].players.len() implies #[trigger] member_ok(
                                            r.players,
                                            r.lobbys[i].players[k],
                                            r.lobbys[i].id,
                                        ) by {
                                        assert(member_ok(s2.players, lr[i].players[k], lr[i].id));
                                    }
                                }
                            }
                        },
                    }
                    assert(!has_key(r.players, pid)) by {
                        assert forall|x: int| 0 <= x < s1.players.len() implies #[trigger] s2.players[x].key() == s1.players[x].key() by {
                            assert(s2.players[x].id == s1.players[x].id);
                        }
                        crate::keyed::lemma_same_keys_has_key(s1.players, s2.players, pid);
                    }
                },
            }
        },
    }
}

/// Records with the same identifiers in place, and the same lobbies except
/// possibly for player `pid`, agree on the membership of the others.
pub proof fn lemma_member_ok_except(a: Seq<PlayerView>, b: Seq<PlayerView>, pid: u128, m: u128, lid: u128)
    requires
        unique_keys(a),
        a.len() == b.len(),
        forall|i: int| 0 <= i < a.len() ==> (#[trigger] b[i]).id == a[i].id && (a[i].id != pid ==> b[i].lobby == a[i].lobby),
        m != pid,
    ensures
        member_ok(b, m, lid) == member_ok(a, m, lid),
{
    assert forall|i: int| 0 <= i < a.len() implies #[trigger] b[i].key() == a[i].key() by {
        assert(b[i].id == a[i].id);
    }
    crate::keyed::lemma_unique_same_keys(a, b);
    if has_key(a, m) {
        let i = key_index(a, m);
        lemma_key_index(a, i);
        assert(b[i].id == a[i].id);
        lemma_key_index(b, i);
    } else if has_key(b, m) {
        let i = key_index(b, m);
        lemma_key_index(b, i);
        assert(a[i].key() == m);
    }
}

/// Every member listed in the lobbies is one whose record names the lobby,
/// and `pid` is listed nowhere.
pub open spec fn members_ok_without(ps: Seq<PlayerView>, r: Seq<LobbyView>, pid: u128) -> bool {
    forall|i: int, k: int|
        0 <= i < r.len() && 0 <= k < r[i].players.len() ==> #[trigger] member_ok(ps, r[i].players[k], r[i].id)
            && r[i].players[k] != pid
}

/// When only lobby `li` lists `pid` and every listed member is one whose
/// record (in `ps`) names the lobby, the lobbies after `pid` leaves lobby
/// `li` list only such members, and not `pid`; identifiers stay unique.
pub proof fn lemma_without_member(ls: Seq<LobbyView>, ps: Seq<PlayerView>, li: int, pid: u128)
    requires
        unique_keys(ls),
        0 <= li < ls.len(),
        forall|i: int, k: int|
            0 <= i < ls.len() && 0 <= k < ls[i].players.len() ==> #[trigger] member_ok(ps, ls[i].players[k], ls[i].id),
        forall|i: int| 0 <= i < ls.len() && i != li ==> !(#[trigger] ls[i].players.contains(pid)),
    ensures
        unique_keys(crate::app_state::lobby::lobbys_without_member(ls, ls[li], pid)),
        members_ok_without(ps, crate::app_state::lobby::lobbys_without_member(ls, ls[li], pid), pid),
{
    let l = ls[li];
    lemma_key_index(ls, li);
    let rest = l.players.filter(other_than(pid));
    let owner = if l.owner == pid && rest.len() > 0 { rest[0] } else { l.owner };
    let r = crate::app_state::lobby::lobbys_without_member(ls, l, pid);
    assert(has_key(ls, l.id));
    assert(key_index(ls, l.id) == li);
    if rest.len() == 0 {
        crate::keyed::lemma_unique_remove(ls, li);
        assert(r == ls.remove(li));
        assert forall|i: int, k: int| 0 <= i < r.len() && 0 <= k < r[i].players.len() implies #[trigger] member_ok(
            ps,
            r[i].players[k],
            r[i].id,
        ) && r[i].players[k] != pid by {
            let i2 = if i < li { i } else { i + 1 };
            assert(r[i] == ls[i2]);
            assert(member_ok(ps, ls[i2].players[k], ls[i2].id));
            if r[i].players[k] == pid {
                assert(ls[i2].players.contains(pid));
            }
        }
        assert(members_ok_without(ps, r, pid));
    } else {
        let nl = LobbyView { players: rest, owner, ..l };
        crate::keyed::lemma_unique_update(ls, li, nl);
        assert(r == ls.update(li, nl));
        assert forall|i: int, k: int| 0 <= i < r.len() && 0 <= k < r[i].players.len() implies #[trigger] member_ok(
            ps,
            r[i].players[k],
            r[i].id,
        ) && r[i].players[k] != pid by {
            if i == li {
                l.players.lemma_filter_pred(other_than(pid), k);
                assert(rest.contains(rest[k]));
                l.players.lemma_filter_contains_rev(other_than(pid), rest[k]);
                let k2 = choose|k2: int| 0 <= k2 < l.players.len() && l.players[k2] == rest[k];
                assert(member_ok(ps, ls[li].players[k2], ls[li].id));
                assert(r[i].players[k] == rest[k]);
            } else {
                assert(r[i] == ls[i]);
                assert(member_ok(ps, ls[i].players[k], ls[i].id));
                if r[i].players[k] == pid {
                    assert(ls[i].players.contains(pid));
                }
            }
        }
        assert(members_ok_without(ps, r, pid));
    }
}

/// Leaving a lobby keeps membership consistent; afterwards an idle player
/// who named a lobby is listed nowhere and still connected.
#[verifier::spinoff_prover]
#[verifier::rlimit(30)]
pub proof fn law_leave_keeps_consistent(s: StateView, p: PlayerView)
    requires
        s.wf(),
        consistent(s),
        lookup(s.players, p.id) == Some(p),
    ensures
        s.leave_lobby(p).wf(),
        consistent(s.leave_lobby(p)),
        has_key(s.leave_lobby(p).players, p.id),
        p.status is Idle && p.lobby is Some ==> !listed(s.leave_lobby(p), p.id),
{
    let pid = p.id;
    let j = key_index(s.players, pid);
    assert(has_key(s.players, pid));
    lemma_key_index(s.players, j);
    if p.status is Idle && p.lobby is Some {
        let lid = p.lobby.unwrap();
        assert forall|i: int| 0 <= i < s.lobbys.len() && #[trigger] s.lobbys[i].players.contains(pid) implies s.lobbys[i].id == lid by {
            let k = choose|k: int| 0 <= k < s.lobbys[i].players.len() && s.lobbys[i].players[k] == pid;
            assert(member_ok(s.players, s.lobbys[i].players[k], s.lobbys[i].id));
        }
        match lookup(s.lobbys, lid) {
            None => {
                assert forall|i: int| 0 <= i < s.lobbys.len() implies !(#[trigger] s.lobbys[i].players.contains(pid)) by {
                    if s.lobbys[i].players.contains(pid) {
                        assert(s.lobbys[i].key() == lid);
                    }
                }
            },
            Some(l) => {
                let li = key_index(s.lobbys, lid);
                lemma_key_index(s.lobbys, li);
                let d = s.detach(pid, lid);
                let ps = reset_player(s.players, pid);
                assert(d.players == ps);
                assert forall|i: int| 0 <= i < s.players.len() implies (#[trigger] ps[i]).id == s.players[i].id && (
                s.players[i].id != pid ==> ps[i].lobby == s.players[i].lobby) by {}
                assert forall|i: int| 0 <= i < s.players.len() implies #[trigger] ps[i].key() == s.players[i].key() by {}
                crate::keyed::lemma_unique_same_keys(s.players, ps);
                crate::keyed::lemma_same_keys_has_key(s.players, ps, pid);
                assert forall|i: int| 0 <= i < s.lobbys.len() && i != li implies !(#[trigger] s.lobbys[i].players.contains(pid)) by {
                    if s.lobbys[i].players.contains(pid) {
                        assert(s.lobbys[i].key() == s.lobbys[li].key());
                    }
                }
                lemma_without_member(s.lobbys, s.players, li, pid);
                let r = d.lobbys;
                assert(members_ok_without(s.players, r, pid));
                assert forall|i: int, k: int|
                    0 <= i < r.len() && 0 <= k < r[i].players.len() implies #[trigger] member_ok(ps, r[i].players[k], r[i].id) && r[i].players[k] != pid by {
                    assert(member_ok(s.players, r[i].players[k], r[i].id) && r[i].players[k] != pid);
                    lemma_member_ok_except(s.players, ps, pid, r[i].players[k], r[i].id);
                }
                let f = s.leave_lobby(p);
                assert(f.players == ps && f.lobbys == r);
                assert(consistent(f));
                assert forall|i: int| 0 <= i < f.lobbys.len() implies !(#[trigger] f.lobbys[i].players.contains(pid)) by {
                    if f.lobbys[i].players.contains(pid) {
                        let k = choose|k: int| 0 <= k < f.lobbys[i].players.len() && f.lobbys[i].players[k] == pid;
                        assert(member_ok(ps, r[i].players[k], r[i].id) && r[i].players[k] != pid);
                    }
                }
            },
        }
    }
}

/// Joining a lobby keeps membership consistent.
pub proof fn law_join_keeps_consistent(s: StateView, p: PlayerView, lid: u128)
    requires
        s.wf(),
        consistent(s),
        lookup(s.players, p.id) == Some(p),
    ensures
        s.join_lobby(p, lid).wf(),
        consistent(s.join_lobby(p, lid)),
{
    let pid = p.id;
    let s1 = if p.lobby is Some { s.leave_lobby(p) } else { s };
    law_leave_keeps_consistent(s, p);
    if p.lobby is None {
        assert forall|i: int| 0 <= i < s.lobbys.len() implies !(#[trigger] s.lobbys[i].players.contains(pid)) by {
            if s.lobbys[i].players.contains(pid) {
                let k = choose|k: int| 0 <= k < s.lobbys[i].players.len() && s.lobbys[i].players[k] == pid;
                assert(member_ok(s.players, s.lobbys[i].players[k], s.lobbys[i].id));
                let j = key_index(s.players, pid);
                lemma_key_index(s.players, j);
            }
        }
        assert(has_key(s.players, pid)) by {
            let j = key_index(s.players, pid);
            lemma_key_index(s.players, j);
        }
    }
    if p.status is Idle {
        match lookup(s1.lobbys, lid) {
            None => {},
            Some(l) => {
                let li = key_index(s1.lobbys, lid);
                lemma_key_index(s1.lobbys, li);
                let nl = LobbyView { players: l.players.push(pid), ..l };
                let ps = crate::app_state::lobby::assign_lobby(s1.players, pid, lid);
                let ls = s1.lobbys.update(li, nl);
                crate::keyed::lemma_unique_update(s1.lobbys, li, nl);
                assert forall|i: int| 0 <= i < s1.players.len() implies (#[trigger] ps[i]).id == s1.players[i].id && (
                s1.players[i].id != pid ==> ps[i].lobby == s1.players[i].lobby) by {}
                assert forall|i: int| 0 <= i < s1.players.len() implies #[trigger] ps[i].key() == s1.players[i].key() by {}
                crate::keyed::lemma_unique_same_keys(s1.players, ps);
                let j = key_index(s1.players, pid);
                lemma_key_index(s1.players, j);
                lemma_key_index(ps, j);
                let f = s.join_lobby(p, lid);
                assert(f.players == ps && f.lobbys == ls);
                assert forall|i: int, k: int| 0 <= i < ls.len() && 0 <= k < ls[i].players.len() implies #[trigger] member_ok(
                    ps,
                    ls[i].players[k],
                    ls[i].id,
                ) by {
                    if i == li && k == l.players.len() {
                        assert(ls[i].players[k] == pid);
                    } else {
                        assert(ls[i].players[k] == s1.lobbys[i].players[k]);
                        assert(member_ok(s1.players, s1.lobbys[i].players[k], s1.lobbys[i].id));
                        if s1.lobbys[i].players[k] == pid {
                            assert(s1.lobbys[i].players.contains(pid));
                        }
                        lemma_member_ok_except(s1.players, ps, pid, ls[i].players[k], ls[i].id);
                    }
                }
                assert(consistent(f));
            },
        }
    }
}

/// Creating a lobby under an identifier no lobby has keeps membership
/// consistent.
pub proof fn law_create_keeps_consistent(s: StateView, p: PlayerView, lid: u128)
    requires
        s.wf(),
        consistent(s),
        lookup(s.players, p.id) == Some(p),
        !has_key(s.lobbys, lid),
    ensures
        s.create_lobby(p, lid).wf(),
        consistent(s.create_lobby(p, lid)),
{
    let s1 = if !(p.status is Idle) {
        s.send(p.id, crate::app_state::lobby::error_msg("Cannot join lobby while in queue or in game"@))
    } else {
        s
    };
    let nl = LobbyView { id: lid, players: Seq::empty(), owner: p.id, status: PlayerStatus::Idle };
    crate::keyed::lemma_unique_push(s1.lobbys, nl);
    let s2 = StateView { lobbys: s1.lobbys.push(nl), ..s1 };
    assert(s2 == StateView { lobbys: crate::keyed::insert_key(s1.lobbys, nl), ..s1 });
    assert forall|i: int, k: int| 0 <= i < s2.lobbys.len() && 0 <= k < s2.lobbys[i].players.len() implies #[trigger] member_ok(
        s2.players,
        s2.lobbys[i].players[k],
        s2.lobbys[i].id,
    ) by {
        assert(s2.lobbys[i] == s.lobbys[i]);
    }
    law_join_keeps_consistent(s2, p, lid);
}

/// Two states agree on who is connected, what lobby each record names, and
/// which lobbies list whom.
pub open spec fn same_shape(a: StateView, b: StateView) -> bool {
    &&& b.players.len() == a.players.len()
    &&& forall|i: int| 0 <= i < a.players.len() ==> (#[trigger] b.players[i]).id == a.players[i].id
        && b.players[i].lobby == a.players[i].lobby
    &&& b.lobbys.len() == a.lobbys.len()
    &&& forall|i: int| 0 <= i < a.lobbys.len() ==> (#[trigger] b.lobbys[i]).id == a.lobbys[i].id
        && b.lobbys[i].players == a.lobbys[i].players
}

/// Changes that keep the shape keep membership consistent.
pub proof fn lemma_same_shape_consistent(a: StateView, b: StateView)
    requires
        a.wf(),
        consistent(a),
        same_shape(a, b),
    ensures
        consistent(b),
{
    assert forall|i: int, k: int| 0 <= i < b.lobbys.len() && 0 <= k < b.lobbys[i].players.len() implies #[trigger] member_ok(
        b.players,
        b.lobbys[i].players[k],
        b.lobbys[i].id,
    ) by {
        assert(b.lobbys[i].players == a.lobbys[i].players);
        assert(member_ok(a.players, a.lobbys[i].players[k], a.lobbys[i].id));
        lemma_member_ok_same(a.players, b.players, a.lobbys[i].players[k], a.lobbys[i].id);
    }
}

/// Setting the status of lobbies in turn keeps the shape and identifiers
/// unique.
pub proof fn lemma_set_lobbys_status_shape(s: StateView, lids: Seq<u128>, st: PlayerStatus)
    requires
        s.wf(),
    ensures
        s.set_lobbys_status(lids, st).wf(),
        same_shape(s, s.set_lobbys_status(lids, st)),
    decreases lids.len(),
{
    if lids.len() > 0 {
        lemma_set_lobbys_status_shape(s, lids.drop_last(), st);
        let t = s.set_lobbys_status(lids.drop_last(), st);
        lemma_set_lobby_status_in_place(t, lids.last(), st);
    }
}

/// Searching, cancelling and confirming keep the shape and identifiers
/// unique.
pub proof fn lemma_search_requests_shape(s: StateView, p: PlayerView, now: u64, id: u128)
    requires
        s.wf(),
    ensures
        s.find_game(p, now).wf(),
        same_shape(s, s.find_game(p, now)),
        s.cancel_search(p).wf(),
        same_shape(s, s.cancel_search(p)),
        s.confirm(p, id).wf(),
        same_shape(s, s.confirm(p, id)),
{
    match p.lobby {
        None => {},
        Some(lid) => {
            match lookup(s.lobbys, lid) {
                None => {},
                Some(l) => {
                    let li = key_index(s.lobbys, lid);
                    lemma_key_index(s.lobbys, li);
                    let st = PlayerStatus::InQueue { queue_time: now };
                    let nl = LobbyView { status: st, ..l };
                    crate::keyed::lemma_unique_update(s.lobbys, li, nl);
                    let t = StateView { lobbys: s.lobbys.update(li, nl), ..s };
                    lemma_set_status_in_place(t.players, l.players, st);
                    let ps = crate::app_state::set_status(t.players, l.players, st);
                    assert forall|i: int| 0 <= i < t.players.len() implies #[trigger] ps[i].key() == t.players[i].key() by {}
                    crate::keyed::lemma_unique_same_keys(t.players, ps);
                },
            }
            lemma_set_lobby_status_in_place(s, lid, PlayerStatus::Idle);
        },
    }
    if p.lobby is Some {
        match p.status {
            PlayerStatus::NeedConfirmation { game_id } => {
                if game_id == id {
                    match lookup(s.waiting, game_id) {
                        None => {},
                        Some(g) => {
                            let gi = key_index(s.waiting, game_id);
                            lemma_key_index(s.waiting, gi);
                            crate::keyed::lemma_unique_update(
                                s.waiting,
                                gi,
                                crate::structs::GameView { confirmed: g.confirmed.push(p.id), ..g },
                            );
                        },
                    }
                }
            },
            _ => {},
        }
    }
}

/// Every request a connected player makes keeps membership consistent and
/// identifiers unique, provided a lobby it creates gets an identifier no
/// lobby has.
pub proof fn law_request_keeps_consistent(s: StateView, pid: u128, msg: crate::messages::ClientMessage, now: u64, lid: u128)
    requires
        s.wf(),
        consistent(s),
        !has_key(s.lobbys, lid),
    ensures
        s.handle_message(pid, msg, now, lid).wf(),
        consistent(s.handle_message(pid, msg, now, lid)),
{
    match lookup(s.players, pid) {
        None => {},
        Some(p) => {
            let j = key_index(s.players, pid);
            lemma_key_index(s.players, j);
            assert(p.id == pid);
            match msg {
                crate::messages::ClientMessage::JoinLobby { id } => match id {
                    Some(l) => law_join_keeps_consistent(s, p, l),
                    None => law_create_keeps_consistent(s, p, lid),
                },
                crate::messages::ClientMessage::LeaveLobby => law_leave_keeps_consistent(s, p),
                crate::messages::ClientMessage::SearchGame => {
                    lemma_search_requests_shape(s, p, now, 0);
                    lemma_same_shape_consistent(s, s.find_game(p, now));
                },
                crate::messages::ClientMessage::CancelSearch => {
                    lemma_search_requests_shape(s, p, now, 0);
                    lemma_same_shape_consistent(s, s.cancel_search(p));
                },
                crate::messages::ClientMessage::ConfirmGame { id } => {
                    lemma_search_requests_shape(s, p, now, id);
                    lemma_same_shape_consistent(s, s.confirm(p, id));
                },
                _ => {
                    lemma_same_shape_consistent(s, s.handle_message(pid, msg, now, lid));
                },
            }
        },
    }
}

/// Re-queueing lobbies keeps the shape and identifiers unique.
pub proof fn lemma_requeue_others_shape(s: StateView, lids: Seq<u128>, except: u128, now: u64)
    requires
        s.wf(),
    ensures
        s.requeue_others(lids, except, now).wf(),
        same_shape(s, s.requeue_others(lids, except, now)),
    decreases lids.len(),
{
    if lids.len() > 0 {
        lemma_requeue_others_shape(s, lids.drop_last(), except, now);
        let t = s.requeue_others(lids.drop_last(), except, now);
        match lookup(t.lobbys, lids.last()) {
            None => {},
            Some(l) => {
                let li = key_index(t.lobbys, lids.last());
                lemma_key_index(t.lobbys, li);
                lemma_queue_lobby_at_shape(t, l, now);
            },
        }
    }
}

/// Cancelling games keeps the shape, the waiting games and identifiers
/// unique.
pub proof fn lemma_cancel_games_shape(s: StateView, gs: Seq<crate::structs::GameView>, lid: u128, now: u64)
    requires
        s.wf(),
    ensures
        s.cancel_games(gs, lid, now).wf(),
        same_shape(s, s.cancel_games(gs, lid, now)),
        s.cancel_games(gs, lid, now).waiting == s.waiting,
    decreases gs.len(),
{
    if gs.len() > 0 {
        lemma_cancel_games_shape(s, gs.drop_last(), lid, now);
        let g = gs.last();
        let t = s.cancel_games(gs.drop_last(), lid, now)
            .send_all(g.team1, MessageView::GameCancelled { game_id: g.id })
            .send_all(g.team2, MessageView::GameCancelled { game_id: g.id });
        lemma_requeue_others_shape(t, g.lobbys, lid, now);
        crate::app_state::lobby::lemma_requeue_others_frame(t, g.lobbys, lid, now);
    }
}

/// Disconnection cascades through the state: once a player's connection
/// closes, the player is no longer connected and no lobby lists them, every
/// listed member is still a connected player whose record names the lobby,
/// and no game waiting for confirmation involves the lobby they were in.
pub proof fn law_disconnect_cascades(s: StateView, pid: u128, now: u64)
    requires
        s.wf(),
        consistent(s),
    ensures
        s.disconnect(pid, now).wf(),
        consistent(s.disconnect(pid, now)),
        !has_key(s.disconnect(pid, now).players, pid),
        !listed(s.disconnect(pid, now), pid),
        match lookup(s.players, pid) {
            Some(p) => match p.lobby {
                Some(lid) => forall|x: int|
                    0 <= x < s.disconnect(pid, now).waiting.len() ==> !(#[trigger] s.disconnect(
                        pid,
                        now,
                    ).waiting[x]).lobbys.contains(lid),
                None => true,
            },
            None => true,
        },
{
    lemma_detach_departed(s, pid);
    let d = s.detach_departed(pid);
    let r = s.disconnect(pid, now);
    match lookup(s.players, pid) {
        Some(p) => match p.lobby {
            Some(lid) => {
                let gs = d.waiting.filter(crate::app_state::lobby::lists_lobby(lid));
                lemma_cancel_games_shape(d, gs, lid, now);
                crate::keyed::lemma_unique_filter(d.waiting, crate::app_state::lobby::omits_lobby(lid));
                let c = d.cancel_games(gs, lid, now);
                assert(r == StateView { waiting: d.waiting.filter(crate::app_state::lobby::omits_lobby(lid)), ..c });
                assert(same_shape(d, r));
                lemma_same_shape_consistent(d, r);
                assert(!has_key(r.players, pid)) by {
                    if has_key(r.players, pid) {
                        let x = choose|x: int| 0 <= x < r.players.len() && #[trigger] r.players[x].key() == pid;
                        assert(r.players[x].id == d.players[x].id);
                        assert(d.players[x].key() == pid);
                    }
                }
                assert(!listed(r, pid)) by {
                    if listed(r, pid) {
                        let i = choose|i: int| 0 <= i < r.lobbys.len() && #[trigger] r.lobbys[i].players.contains(pid);
                        assert(r.lobbys[i].players == d.lobbys[i].players);
                    }
                }
                assert forall|x: int| 0 <= x < r.waiting.len() implies !(#[trigger] r.waiting[x]).lobbys.contains(lid) by {
                    d.waiting.lemma_filter_pred(crate::app_state::lobby::omits_lobby(lid), x);
                }
            },
            None => {},
        },
        None => {},
    }
}

/// Putting a lobby into the queue keeps the shape and identifiers unique.
pub proof fn lemma_queue_lobby_at_shape(s: StateView, l: LobbyView, now: u64)
    requires
        s.wf(),
        lookup(s.lobbys, l.id) == Some(l),
    ensures
        s.queue_lobby_at(l, now).wf(),
        same_shape(s, s.queue_lobby_at(l, now)),
{
    let li = key_index(s.lobbys, l.id);
    lemma_key_index(s.lobbys, li);
    let st = PlayerStatus::InQueue { queue_time: now };
    let nl = LobbyView { status: st, ..l };
    crate::keyed::lemma_unique_update(s.lobbys, li, nl);
    let t = StateView { lobbys: s.lobbys.update(li, nl), ..s };
    lemma_set_status_in_place(t.players, l.players, st);
    let ps = crate::app_state::set_status(t.players, l.players, st);
    assert forall|i: int| 0 <= i < t.players.len() implies #[trigger] ps[i].key() == t.players[i].key() by {}
    crate::keyed::lemma_unique_same_keys(t.players, ps);
}

/// Settling lobbies after a time-out keeps the shape and identifiers
/// unique.
pub proof fn lemma_settle_lobbys_shape(s: StateView, lids: Seq<u128>, confirmed: Seq<u128>, now: u64)
    requires
        s.wf(),
    ensures
        s.settle_lobbys(lids, confirmed, now).wf(),
        same_shape(s, s.settle_lobbys(lids, confirmed, now)),
    decreases lids.len(),
{
    if lids.len() > 0 {
        lemma_settle_lobbys_shape(s, lids.drop_last(), confirmed, now);
        let t = s.settle_lobbys(lids.drop_last(), confirmed, now);
        let lid = lids.last();
        match lookup(t.lobbys, lid) {
            None => {},
            Some(l) => {
                let li = key_index(t.lobbys, lid);
                lemma_key_index(t.lobbys, li);
                lemma_queue_lobby_at_shape(t, l, now);
                lemma_set_lobby_status_in_place(t, lid, PlayerStatus::Idle);
            },
        }
    }
}

/// Timing games out keeps the shape and identifiers unique.
pub proof fn lemma_expire_all_shape(s: StateView, gs: Seq<crate::structs::GameView>, now: u64)
    requires
        s.wf(),
    ensures
        s.expire_all(gs, now).wf(),
        same_shape(s, s.expire_all(gs, now)),
    decreases gs.len(),
{
    if gs.len() > 0 {
        lemma_expire_all_shape(s, gs.drop_last(), now);
        let g = gs.last();
        let t = s.expire_all(gs.drop_last(), now)
            .send_all(g.team1, MessageView::GameCancelled { game_id: g.id })
            .send_all(g.team2, MessageView::GameCancelled { game_id: g.id });
        lemma_settle_lobbys_shape(t, g.lobbys, g.confirmed, now);
    }
}

/// Marking games in progress keeps the shape and identifiers unique.
pub proof fn lemma_mark_in_game_shape(s: StateView, gs: Seq<crate::structs::GameView>)
    requires
        s.wf(),
    ensures
        s.mark_in_game(gs).wf(),
        same_shape(s, s.mark_in_game(gs)),
    decreases gs.len(),
{
    if gs.len() > 0 {
        lemma_mark_in_game_shape(s, gs.drop_last());
        lemma_set_lobbys_status_shape(
            s.mark_in_game(gs.drop_last()),
            gs.last().lobbys,
            PlayerStatus::InGame { game_id: gs.last().id },
        );
    }
}

/// Forming games keeps the shape and identifiers unique.
pub proof fn lemma_form_games_shape(
    s: StateView,
    q: Seq<QueueEntryView>,
    pairs: Seq<(int, int)>,
    ids: Seq<u128>,
    now: u64,
)
    requires
        s.wf(),
    ensures
        s.form_games(q, pairs, ids, now).wf(),
        same_shape(s, s.form_games(q, pairs, ids, now)),
    decreases pairs.len(),
{
    if pairs.len() > 0 {
        lemma_form_games_shape(s, q, pairs.drop_last(), ids, now);
        let t = s.form_games(q, pairs.drop_last(), ids, now);
        let k = pairs.len() - 1;
        let ea = q[pairs[k].0];
        let eb = q[pairs[k].1];
        let gid = ids[k];
        let g = crate::app_state::matchmaking::game_of(t, ea, eb, gid, now);
        let st = PlayerStatus::NeedConfirmation { game_id: gid };
        let s1 = t.send_all(g.team1, MessageView::GameFound { game_id: gid }).send_all(
            g.team2,
            MessageView::GameFound { game_id: gid },
        );
        crate::keyed::lemma_unique_insert(s1.waiting, g);
        let s2 = StateView { waiting: crate::keyed::insert_key(s1.waiting, g), ..s1 };
        let s3 = s2.record_queue_time(crate::app_state::confirmation::elapsed(now, ea.start_time) as u64);
        lemma_set_lobby_status_in_place(s3, ea.lobby_id, st);
        lemma_set_lobby_status_in_place(s3.set_lobby_status(ea.lobby_id, st), eb.lobby_id, st);
    }
}

/// The periodic rounds (confirmation, matchmaking, the end of games and the
/// recording of results) keep membership consistent and identifiers unique.
pub proof fn law_rounds_keep_consistent(
    s: StateView,
    now: u64,
    limit: Option<u64>,
    c: Seq<Seq<bool>>,
    ids: Seq<u128>,
    flags: Seq<bool>,
    lids: Seq<u128>,
    pid: u128,
    game_id: u128,
    won: bool,
    new_mmr: u64,
    new_true_skill: u64,
    rank_floor: u32,
    mmr_change: u64,
)
    requires
        s.wf(),
        consistent(s),
    ensures
        s.check_confirmations(now, limit).wf(),
        consistent(s.check_confirmations(now, limit)),
        s.form_matches(c, ids, now).wf(),
        consistent(s.form_matches(c, ids, now)),
        s.drop_finished(flags).wf(),
        consistent(s.drop_finished(flags)),
        s.set_lobbys_status(lids, PlayerStatus::Idle).wf(),
        consistent(s.set_lobbys_status(lids, PlayerStatus::Idle)),
        s.record_result(pid, game_id, won, new_mmr, new_true_skill, rank_floor, mmr_change).wf(),
        consistent(s.record_result(pid, game_id, won, new_mmr, new_true_skill, rank_floor, mmr_change)),
{
    // Confirmation round.
    let s1 = s.drop_expired(now, limit);
    match limit {
        None => {},
        Some(secs) => {
            let e = s.expire_all(s.waiting.filter(crate::app_state::confirmation::expired_pred(now, secs)), now);
            lemma_expire_all_shape(s, s.waiting.filter(crate::app_state::confirmation::expired_pred(now, secs)), now);
            crate::app_state::confirmation::lemma_expire_all_frame(
                s,
                s.waiting.filter(crate::app_state::confirmation::expired_pred(now, secs)),
                now,
            );
            crate::keyed::lemma_unique_filter(s.waiting, crate::app_state::confirmation::kept_pred(now, secs));
        },
    }
    assert(s1.wf() && same_shape(s, s1));
    let cs = s1.waiting.filter(crate::app_state::confirmation::confirmed_pred(s1.settings.team_size * 2));
    if cs.len() > 0 {
        let a = s1.announce_all(cs);
        crate::app_state::confirmation::lemma_announce_all_frame(s1, cs);
        let m = a.move_all(cs);
        crate::app_state::confirmation::lemma_move_all_frame(a, cs);
        lemma_mark_in_game_shape(m, m.ongoing);
    }
    lemma_same_shape_consistent(s, s.check_confirmations(now, limit));
    // Matchmaking round.
    let pairs = crate::app_state::matchmaking::planned_pairs(c, s.queue.len() as int);
    lemma_form_games_shape(s, s.queue, pairs, ids, now);
    lemma_same_shape_consistent(s, s.form_matches(c, ids, now));
    // Games ending.
    crate::app_state::simulation::lemma_unique_select(s.ongoing, flags, false);
    lemma_same_shape_consistent(s, s.drop_finished(flags));
    lemma_set_lobbys_status_shape(s, lids, PlayerStatus::Idle);
    lemma_same_shape_consistent(s, s.set_lobbys_status(lids, PlayerStatus::Idle));
    // Results.
    match lookup(s.players, pid) {
        None => {},
        Some(p) => {
            let j = key_index(s.players, pid);
            lemma_key_index(s.players, j);
            let np = crate::app_state::simulation::after_game(p, game_id, won, new_mmr, new_true_skill, rank_floor);
            crate::keyed::lemma_unique_update(s.players, j, np);
        },
    }
    lemma_same_shape_consistent(s, s.record_result(pid, game_id, won, new_mmr, new_true_skill, rank_floor, mmr_change));
}

/// A player connecting who was not connected, and whose record names no
/// lobby, keeps membership consistent and identifiers unique.
pub proof fn law_connect_keeps_consistent(s: StateView, p: PlayerView, is_new: bool)
    requires
        s.wf(),
        consistent(s),
        !has_key(s.players, p.id),
        p.lobby is None,
    ensures
        s.connect(p, is_new).wf(),
        consistent(s.connect(p, is_new)),
{
    crate::keyed::lemma_unique_push(s.players, p);
    let r = s.connect(p, is_new);
    assert(r.players == s.players.push(p));
    assert forall|i: int, k: int| 0 <= i < r.lobbys.len() && 0 <= k < r.lobbys[i].players.len() implies #[trigger] member_ok(
        r.players,
        r.lobbys[i].players[k],
        r.lobbys[i].id,
    ) by {
        let m = r.lobbys[i].players[k];
        assert(member_ok(s.players, m, r.lobbys[i].id));
        let j = key_index(s.players, m);
        lemma_key_index(s.players, j);
        assert(r.players[j] == s.players[j]);
        lemma_key_index(r.players, j);
    }
}

/// The position `first_match` finds is a later remaining entry that may
/// play the one at `i`.
pub proof fn lemma_first_match(r: Seq<int>, c: Seq<Seq<bool>>, i: int, j: int)
    requires
        0 <= i < r.len(),
    ensures
        crate::app_state::matchmaking::first_match(r, c, i, j) matches Some(b) ==> j <= b < r.len() && c[r[i]][r[b]],
    decreases r.len() - j,
{
    if 0 <= j < r.len() && !c[r[i]][r[j]] {
        lemma_first_match(r, c, i, j + 1);
    }
}

/// Strictly increasing positions below `n`.
pub open spec fn increasing_below(r: Seq<int>, n: int) -> bool {
    &&& forall|a: int, b: int| 0 <= a < b < r.len() ==> #[trigger] r[a] < #[trigger] r[b]
    &&& forall|a: int| 0 <= a < r.len() ==> 0 <= #[trigger] r[a] < n
}

/// Pairs of distinct positions, each compatible and in increasing order,
/// no position used twice, all drawn from `r`.
pub open spec fn sound_pairs(g: Seq<(int, int)>, r: Seq<int>, c: Seq<Seq<bool>>) -> bool {
    &&& forall|x: int| 0 <= x < g.len() ==> r.contains((#[trigger] g[x]).0) && r.contains(g[x].1) && g[x].0 < g[x].1
        && c[g[x].0][g[x].1]
    &&& forall|x: int, y: int|
        0 <= x < y < g.len() ==> (#[trigger] g[x]).0 != (#[trigger] g[y]).0 && g[x].0 != g[y].1 && g[x].1 != g[y].0
            && g[x].1 != g[y].1
}

/// Each greedy round pairs two remaining, compatible entries, earlier
/// first, and no entry is paired twice.
pub proof fn lemma_greedy_sound(r: Seq<int>, c: Seq<Seq<bool>>, i: int, n: int)
    requires
        increasing_below(r, c.len() as int),
    ensures
        sound_pairs(crate::app_state::matchmaking::greedy(r, c, i, n), r, c),
    decreases n - i,
{
    let g = crate::app_state::matchmaking::greedy(r, c, i, n);
    if i < n {
        match crate::app_state::matchmaking::greedy_step(r, c, i) {
            None => {
                lemma_greedy_sound(r, c, i + 1, n);
            },
            Some((a, b)) => {
                lemma_first_match(r, c, a, a + 1);
                let r2 = r.remove(b).remove(a);
                assert(increasing_below(r2, c.len() as int)) by {
                    assert forall|x: int, y: int| 0 <= x < y < r2.len() implies #[trigger] r2[x] < #[trigger] r2[y] by {
                        let x2 = if x < a { x } else if x + 1 < b { x + 1 } else { x + 2 };
                        let y2 = if y < a { y } else if y + 1 < b { y + 1 } else { y + 2 };
                        assert(r2[x] == r[x2] && r2[y] == r[y2]);
                    }
                    assert forall|x: int| 0 <= x < r2.len() implies 0 <= #[trigger] r2[x] < c.len() by {
                        let x2 = if x < a { x } else if x + 1 < b { x + 1 } else { x + 2 };
                        assert(r2[x] == r[x2]);
                    }
                }
                lemma_greedy_sound(r2, c, i + 1, n);
                let t = crate::app_state::matchmaking::greedy(r2, c, i + 1, n);
                let h = (r[a], r[b]);
                assert(g == seq![h] + t);
                // Elements of the rest were elements of r other than r[a], r[b].
                assert forall|v: int| r2.contains(v) implies r.contains(v) && v != r[a] && v != r[b] by {
                    let x = choose|x: int| 0 <= x < r2.len() && r2[x] == v;
                    let x2 = if x < a { x } else if x + 1 < b { x + 1 } else { x + 2 };
                    assert(r2[x] == r[x2]);
                    assert(x2 != a && x2 != b);
                    if x2 < a {
                        assert(r[x2] < r[a]);
                    } else {
                        assert(r[a] < r[x2]);
                    }
                    if x2 < b {
                        assert(r[x2] < r[b]);
                    } else {
                        assert(r[b] < r[x2]);
                    }
                }
                assert forall|x: int| 0 <= x < g.len() implies r.contains((#[trigger] g[x]).0) && r.contains(g[x].1)
                    && g[x].0 < g[x].1 && c[g[x].0][g[x].1] by {
                    if x == 0 {
                        assert(g[0] == h);
                        assert(r.contains(r[a]) && r.contains(r[b]));
                    } else {
                        assert(g[x] == t[x - 1]);
                        assert(r2.contains(t[x - 1].0) && r2.contains(t[x - 1].1));
                    }
                }
                assert forall|x: int, y: int| 0 <= x < y < g.len() implies (#[trigger] g[x]).0 != (#[trigger] g[y]).0
                    && g[x].0 != g[y].1 && g[x].1 != g[y].0 && g[x].1 != g[y].1 by {
                    assert(g[y] == t[y - 1]);
                    assert(r2.contains(t[y - 1].0) && r2.contains(t[y - 1].1));
                    if x > 0 {
                        assert(g[x] == t[x - 1]);
                    } else {
                        assert(g[x] == h);
                    }
                }
            },
        }
    }
}

/// Matchmaking pairs only entries that may play each other, the earlier
/// queue position first, and never uses a queue entry twice.
pub proof fn law_matches_are_compatible_and_disjoint(c: Seq<Seq<bool>>, n: int)
    requires
        crate::app_state::matchmaking::square(c, n),
        n >= 0,
    ensures
        ({
            let g = crate::app_state::matchmaking::planned_pairs(c, n);
            &&& forall|x: int| 0 <= x < g.len() ==> 0 <= (#[trigger] g[x]).0 < g[x].1 < n && c[g[x].0][g[x].1]
            &&& forall|x: int, y: int|
                0 <= x < y < g.len() ==> (#[trigger] g[x]).0 != (#[trigger] g[y]).0 && g[x].0 != g[y].1 && g[x].1
                    != g[y].0 && g[x].1 != g[y].1
        }),
{
    let r = crate::app_state::matchmaking::positions(n);
    assert(increasing_below(r, c.len() as int));
    lemma_greedy_sound(r, c, 0, n);
    let g = crate::app_state::matchmaking::planned_pairs(c, n);
    assert forall|x: int| 0 <= x < g.len() implies 0 <= (#[trigger] g[x]).0 < g[x].1 < n && c[g[x].0][g[x].1] by {
        assert(r.contains(g[x].0) && r.contains(g[x].1));
        let a = choose|a: int| 0 <= a < r.len() && r[a] == g[x].0;
        let b = choose|b: int| 0 <= b < r.len() && r[b] == g[x].1;
    }
}

/// Taking the finished games out splits the games in progress: every game
/// is either taken or stays.
pub proof fn law_finished_split(gs: Seq<crate::structs::GameView>, flags: Seq<bool>)
    requires
        flags.len() == gs.len(),
    ensures
        crate::app_state::simulation::select(gs, flags, true).len() + crate::app_state::simulation::select(
            gs,
            flags,
            false,
        ).len() == gs.len(),
    decreases gs.len(),
{
    if gs.len() > 0 {
        law_finished_split(gs.drop_last(), flags.drop_last());
    }
}

/// Confirming a game twice has the effect of confirming it once, but for
/// the messages sent.
pub proof fn law_confirm_idempotent(s: StateView, p: PlayerView, id: u128)
    requires
        s.wf(),
    ensures
        (StateView { outbox: s.outbox, ..s.confirm(p, id).confirm(p, id) }) == (StateView {
            outbox: s.outbox,
            ..s.confirm(p, id)
        }),
{
    if p.lobby is Some {
        match p.status {
            PlayerStatus::NeedConfirmation { game_id } => {
                if game_id == id {
                    match lookup(s.waiting, game_id) {
                        None => {},
                        Some(g) => {
                            if !g.confirmed.contains(p.id) {
                                let ng = crate::structs::GameView { confirmed: g.confirmed.push(p.id), ..g };
                                lemma_lookup_replace(s.waiting, game_id, ng);
                                assert(ng.confirmed.contains(p.id)) by {
                                    assert(ng.confirmed[g.confirmed.len() as int] == p.id);
                                }
                            }
                        },
                    }
                }
            },
            _ => {},
        }
    }
}

/// The games still waiting after moving some games out are waiting games
/// that were not moved.
pub proof fn lemma_move_all_waiting(t: StateView, gs: Seq<crate::structs::GameView>, x: int)
    requires
        t.wf(),
        0 <= x < t.move_all(gs).waiting.len(),
    ensures
        t.waiting.contains(t.move_all(gs).waiting[x]),
        forall|y: int| 0 <= y < gs.len() ==> (#[trigger] gs[y]).id != t.move_all(gs).waiting[x].id,
    decreases gs.len(),
{
    if gs.len() > 0 {
        let d = gs.drop_last();
        let m = t.move_all(d);
        crate::app_state::confirmation::lemma_move_all_frame(t, d);
        let w = m.waiting;
        let k = gs.last().id;
        let f = t.move_all(gs).waiting;
        assert(f == crate::keyed::remove_key(w, k));
        let x2 = if has_key(w, k) {
            let j = key_index(w, k);
            lemma_key_index(w, j);
            if x < j { x } else { x + 1 }
        } else {
            x
        };
        assert(f[x] == w[x2]);
        lemma_move_all_waiting(t, d, x2);
        assert forall|y: int| 0 <= y < gs.len() implies (#[trigger] gs[y]).id != f[x].id by {
            if y < d.len() {
                assert(gs[y] == d[y]);
                assert(d[y].id != m.waiting[x2].id);
            } else {
                assert(gs[y] == gs.last());
                if has_key(w, k) {
                    let j = key_index(w, k);
                    assert(w[x2].key() != w[j].key());
                } else {
                    if w[x2].key() == k {
                        assert(has_key(w, k));
                    }
                }
            }
        }
    }
}

/// After a confirmation round, no game still waits that both teams fully
/// confirmed, and, when games time out, none still waits that timed out.
pub proof fn law_confirmation_round(s: StateView, now: u64, limit: Option<u64>)
    requires
        s.wf(),
    ensures
        ({
            let r = s.check_confirmations(now, limit);
            &&& forall|x: int| 0 <= x < r.waiting.len() ==> (#[trigger] r.waiting[x]).confirmed.len() < s.settings.team_size * 2
            &&& forall|x: int|
                0 <= x < r.waiting.len() ==> match limit {
                    Some(secs) => !crate::app_state::confirmation::is_expired(#[trigger] r.waiting[x], now, secs),
                    None => true,
                }
        }),
{
    let s1 = s.drop_expired(now, limit);
    match limit {
        None => {},
        Some(secs) => {
            crate::app_state::confirmation::lemma_expire_all_frame(
                s,
                s.waiting.filter(crate::app_state::confirmation::expired_pred(now, secs)),
                now,
            );
            lemma_expire_all_shape(s, s.waiting.filter(crate::app_state::confirmation::expired_pred(now, secs)), now);
            crate::keyed::lemma_unique_filter(s.waiting, crate::app_state::confirmation::kept_pred(now, secs));
            assert forall|x: int| 0 <= x < s1.waiting.len() implies !crate::app_state::confirmation::is_expired(
                #[trigger] s1.waiting[x],
                now,
                secs,
            ) by {
                s.waiting.lemma_filter_pred(crate::app_state::confirmation::kept_pred(now, secs), x);
            }
        },
    }
    assert(s1.wf());
    assert(s1.settings == s.settings);
    let req = s1.settings.team_size * 2;
    let pred = crate::app_state::confirmation::confirmed_pred(req);
    let cs = s1.waiting.filter(pred);
    let r = s.check_confirmations(now, limit);
    if cs.len() == 0 {
        assert forall|x: int| 0 <= x < r.waiting.len() implies (#[trigger] r.waiting[x]).confirmed.len() < req by {
            if r.waiting[x].confirmed.len() >= req {
                s1.waiting.lemma_filter_contains(pred, x);
            }
        }
    } else {
        let a = s1.announce_all(cs);
        crate::app_state::confirmation::lemma_announce_all_frame(s1, cs);
        let m = a.move_all(cs);
        crate::app_state::confirmation::lemma_move_all_frame(a, cs);
        crate::app_state::confirmation::lemma_mark_in_game_frame(m, m.ongoing);
        assert(r.waiting == m.waiting);
        assert forall|x: int| 0 <= x < r.waiting.len() implies (#[trigger] r.waiting[x]).confirmed.len() < req && match limit {
            Some(secs) => !crate::app_state::confirmation::is_expired(r.waiting[x], now, secs),
            None => true,
        } by {
            lemma_move_all_waiting(a, cs, x);
            let g = r.waiting[x];
            let i = choose|i: int| 0 <= i < s1.waiting.len() && s1.waiting[i] == g;
            if g.confirmed.len() >= req {
                s1.waiting.lemma_filter_contains(pred, i);
                let y = choose|y: int| 0 <= y < cs.len() && cs[y] == g;
                assert(cs[y].id != g.id);
            }
            match limit {
                Some(secs) => {
                    assert(!crate::app_state::confirmation::is_expired(s1.waiting[i], now, secs));
                },
                None => {},
            }
        }
    }
}

/// A search from a player who is not idle, or whose lobby is not idle
/// (already queued or in a game), is refused: players, lobbies and the
/// queue stay as they were, so a lobby is never queued twice by searching;
/// only a message to the player is added.
pub proof fn law_busy_search_refused(s: StateView, p: PlayerView, now: u64)
    requires
        !(p.status is Idle) || (p.lobby is Some && lookup(s.lobbys, p.lobby.unwrap()) is Some && !(lookup(
            s.lobbys,
            p.lobby.unwrap(),
        ).unwrap().status is Idle)),
    ensures
        s.find_game(p, now) == (StateView { outbox: s.find_game(p, now).outbox, ..s }),
        s.find_game(p, now).outbox.len() == s.outbox.len() + 1,
{
}

/// A departing player leaves their lobby for good: afterwards no lobby
/// with that identifier lists the player, and no game waiting for
/// confirmation involves the lobby (such games were cancelled and their
/// other lobbies re-queued); identifiers stay unique.
pub proof fn law_leaving_member_cascades(s: StateView, p: PlayerView, now: u64)
    requires
        s.wf(),
        p.lobby is Some,
    ensures
        s.remove_from_lobby(p, now).wf(),
        forall|x: int|
            0 <= x < s.remove_from_lobby(p, now).waiting.len() ==> !(#[trigger] s.remove_from_lobby(
                p,
                now,
            ).waiting[x]).lobbys.contains(p.lobby.unwrap()),
        forall|i: int|
            0 <= i < s.remove_from_lobby(p, now).lobbys.len() && (#[trigger] s.remove_from_lobby(p, now).lobbys[i]).id
                == p.lobby.unwrap() ==> !s.remove_from_lobby(p, now).lobbys[i].players.contains(p.id),
{
    let lid = p.lobby.unwrap();
    let pid = p.id;
    lemma_set_lobby_status_in_place(s, lid, PlayerStatus::Idle);
    let s1 = s.set_lobby_status(lid, PlayerStatus::Idle).dequeue(lid);
    assert(s1.wf());
    let w = s.withdraw_member(p);
    // After withdrawal no lobby with the identifier lists the player.
    match lookup(s1.lobbys, lid) {
        None => {
            assert(w == s1);
            assert forall|i: int| 0 <= i < w.lobbys.len() implies (#[trigger] w.lobbys[i]).id != lid by {
                if w.lobbys[i].id == lid {
                    assert(w.lobbys[i].key() == lid);
                    assert(has_key(s1.lobbys, lid));
                }
            }
        },
        Some(l) => {
            let li = key_index(s1.lobbys, lid);
            assert(has_key(s1.lobbys, lid));
            lemma_key_index(s1.lobbys, li);
            assert(l == s1.lobbys[li] && l.id == lid);
            let rest = l.players.filter(other_than(pid));
            assert(!rest.contains(pid)) by {
                if rest.contains(pid) {
                    let k = choose|k: int| 0 <= k < rest.len() && rest[k] == pid;
                    l.players.lemma_filter_pred(other_than(pid), k);
                }
            }
            if rest.len() == 0 {
                crate::keyed::lemma_unique_remove_key(s1.lobbys, lid);
                assert(w.lobbys == s1.lobbys.remove(li));
                assert forall|i: int| 0 <= i < w.lobbys.len() implies (#[trigger] w.lobbys[i]).id != lid by {
                    let y = if i < li { i } else { i + 1 };
                    assert(w.lobbys[i] == s1.lobbys[y]);
                    assert(s1.lobbys[y].key() != s1.lobbys[li].key());
                }
            } else {
                let owner = if l.owner == pid && rest.len() > 0 { rest[0] } else { l.owner };
                let nl = LobbyView { players: rest, owner, ..l };
                crate::keyed::lemma_unique_update(s1.lobbys, li, nl);
                assert(w.lobbys == s1.lobbys.update(li, nl));
                assert forall|i: int| 0 <= i < w.lobbys.len() && (#[trigger] w.lobbys[i]).id == lid implies !w.lobbys[
                    i
                ].players.contains(pid) by {
                    if i != li {
                        assert(s1.lobbys[i].key() != s1.lobbys[li].key());
                    }
                }
            }
        },
    }
    assert(w.wf());
    assert forall|i: int| 0 <= i < w.lobbys.len() && (#[trigger] w.lobbys[i]).id == lid implies !w.lobbys[
        i
    ].players.contains(pid) by {}
    // Cancelling the lobby's games keeps the lobbies in place.
    let gs = w.waiting.filter(crate::app_state::lobby::lists_lobby(lid));
    lemma_cancel_games_shape(w, gs, lid, now);
    crate::keyed::lemma_unique_filter(w.waiting, crate::app_state::lobby::omits_lobby(lid));
    let c = w.cancel_games(gs, lid, now);
    let r = s.remove_from_lobby(p, now);
    assert(r == StateView { waiting: w.waiting.filter(crate::app_state::lobby::omits_lobby(lid)), ..c });
    assert forall|x: int| 0 <= x < r.waiting.len() implies !(#[trigger] r.waiting[x]).lobbys.contains(lid) by {
        w.waiting.lemma_filter_pred(crate::app_state::lobby::omits_lobby(lid), x);
    }
    assert forall|i: int| 0 <= i < r.lobbys.len() && (#[trigger] r.lobbys[i]).id == lid implies !r.lobbys[
        i
    ].players.contains(pid) by {
        assert(r.lobbys[i].id == w.lobbys[i].id && r.lobbys[i].players == w.lobbys[i].players);
    }
}

} // verus!
