//! Creating, joining, showing and leaving lobbies.

use vstd::prelude::*;

use crate::app_state::simulation::{lemma_select_filter, split_games};
use crate::app_state::{games_view, ids_contains, AppState, StateView};
use crate::ids::{is_v4_uuid, new_uuid};
use crate::keyed::{
    has_key, insert_key, key_index, lemma_key_index, lemma_unique_filter, lemma_unique_insert, lemma_unique_remove,
    lemma_unique_same_keys, lemma_unique_update, lookup, remove_key, replace_key, Keyed,
};
use crate::messages::{texts, MessageView, ServerMessage};
use crate::structs::{copy_ids, status_label, Game, GameView, Lobby, LobbyView, Player, PlayerStatus, PlayerView};

verus! {

/// The predicate "differs from `x`".
pub open spec fn other_than(x: u128) -> spec_fn(u128) -> bool {
    |y: u128| y != x
}

/// An error message with the given text.
pub open spec fn error_msg(text: Seq<char>) -> MessageView {
    MessageView::Error { message: text }
}

/// The players, with the given one made idle and lobby-less.
pub open spec fn reset_player(ps: Seq<PlayerView>, pid: u128) -> Seq<PlayerView> {
    ps.map_values(
        |q: PlayerView|
            if q.id == pid {
                PlayerView { status: PlayerStatus::Idle, lobby: None, ..q }
            } else {
                q
            },
    )
}

/// The players, with the given one recorded as member of a lobby.
pub open spec fn assign_lobby(ps: Seq<PlayerView>, pid: u128, lid: u128) -> Seq<PlayerView> {
    ps.map_values(|q: PlayerView| if q.id == pid { PlayerView { lobby: Some(lid), ..q } } else { q })
}

/// The lobbies after a player leaves lobby `l`: the player is taken off its
/// list, ownership passes to the first remaining member if the player owned
/// it, and a lobby left empty is deleted.
pub open spec fn lobbys_without_member(ls: Seq<LobbyView>, l: LobbyView, pid: u128) -> Seq<LobbyView> {
    let rest = l.players.filter(other_than(pid));
    let owner = if l.owner == pid && rest.len() > 0 { rest[0] } else { l.owner };
    if rest.len() == 0 {
        remove_key(ls, l.id)
    } else {
        replace_key(ls, l.id, LobbyView { players: rest, owner, ..l })
    }
}

/// Names of the connected players among `ids`, in order.
pub open spec fn lobby_names(ps: Seq<PlayerView>, ids: Seq<u128>) -> Seq<Seq<char>>
    decreases ids.len(),
{
    if ids.len() == 0 {
        Seq::empty()
    } else {
        let rest = lobby_names(ps, ids.drop_last());
        match lookup(ps, ids.last()) {
            Some(p) => rest.push(p.name),
            None => rest,
        }
    }
}

/// The description of a lobby sent to a player.
pub open spec fn lobby_msg(ps: Seq<PlayerView>, l: LobbyView) -> MessageView {
    MessageView::Lobby { lobby_id: l.id, players: lobby_names(ps, l.players), status: status_label(l.status) }
}

/// The games that involve lobby `lid`.
pub open spec fn lists_lobby(lid: u128) -> spec_fn(GameView) -> bool {
    |g: GameView| g.lobbys.contains(lid)
}

/// The games that do not involve lobby `lid`.
pub open spec fn omits_lobby(lid: u128) -> spec_fn(GameView) -> bool {
    |g: GameView| !g.lobbys.contains(lid)
}

/// `i` is the first lobby whose members include the player.
pub open spec fn first_lobby_of(ls: Seq<LobbyView>, pid: u128, i: int) -> bool {
    &&& 0 <= i < ls.len()
    &&& ls[i].players.contains(pid)
    &&& forall|j: int| 0 <= j < i ==> !(#[trigger] ls[j].players.contains(pid))
}

impl StateView {
    /// Removes a player from a lobby's members, as leaving does, and makes the
    /// player idle and lobby-less; nothing happens without such a lobby.
    pub open spec fn detach(self, pid: u128, lid: u128) -> StateView {
        match lookup(self.lobbys, lid) {
            None => self,
            Some(l) => StateView {
                players: reset_player(self.players, pid),
                lobbys: lobbys_without_member(self.lobbys, l, pid),
                ..self
            },
        }
    }

    /// The effect of a player asking to leave their lobby; `p` is the
    /// player's record when the request arrived.
    pub open spec fn leave_lobby(self, p: PlayerView) -> StateView {
        if !(p.status is Idle) {
            self.send(p.id, error_msg("Cannot leave lobby while in queue or in game"@))
        } else {
            match p.lobby {
                None => self.send(p.id, error_msg("You are not in a lobby"@)),
                Some(lid) => self.detach(p.id, lid).send(p.id, MessageView::LobbyLeft { lobby_id: lid }),
            }
        }
    }

    /// The effect of a player asking to join lobby `lid`.
    pub open spec fn join_lobby(self, p: PlayerView, lid: u128) -> StateView {
        let s1 = if p.lobby is Some { self.leave_lobby(p) } else { self };
        if !(p.status is Idle) {
            s1.send(p.id, error_msg("Cannot join lobby while in queue or in game"@))
        } else {
            match lookup(s1.lobbys, lid) {
                None => s1.send(p.id, error_msg("Lobby not found"@)),
                Some(l) => StateView {
                    players: assign_lobby(s1.players, p.id, lid),
                    lobbys: replace_key(s1.lobbys, lid, LobbyView { players: l.players.push(p.id), ..l }),
                    ..s1
                }.send(p.id, MessageView::LobbyJoined { lobby_id: lid }),
            }
        }
    }

    /// The effect of a player asking for a new lobby, whose identifier is
    /// `lid`: a player who is not idle is refused and no lobby is created;
    /// otherwise the player owns the new (empty) lobby and joins it.
    pub open spec fn create_lobby(self, p: PlayerView, lid: u128) -> StateView {
        if !(p.status is Idle) {
            self.send(p.id, error_msg("Cannot join lobby while in queue or in game"@))
        } else {
            StateView {
                lobbys: insert_key(
                    self.lobbys,
                    LobbyView { id: lid, players: Seq::empty(), owner: p.id, status: PlayerStatus::Idle },
                ),
                ..self
            }.join_lobby(p, lid)
        }
    }

    /// The effect of a player asking to see their lobby.
    pub open spec fn display_lobby(self, p: PlayerView) -> StateView {
        if exists|i: int| first_lobby_of(self.lobbys, p.id, i) {
            let i = choose|i: int| first_lobby_of(self.lobbys, p.id, i);
            self.send(p.id, lobby_msg(self.players, self.lobbys[i]))
        } else {
            self.send(p.id, error_msg("You are not in a lobby"@))
        }
    }

    /// Withdraws a departing player from their lobby: the lobby (and its
    /// members) become idle, its queue entry is withdrawn, the player is
    /// removed from its members, ownership passes on and an empty lobby is
    /// deleted.
    pub open spec fn withdraw_member(self, p: PlayerView) -> StateView {
        match p.lobby {
            None => self,
            Some(lid) => {
                let s1 = self.set_lobby_status(lid, PlayerStatus::Idle).dequeue(lid);
                match lookup(s1.lobbys, lid) {
                    None => s1,
                    Some(l) => StateView { lobbys: lobbys_without_member(s1.lobbys, l, p.id), ..s1 },
                }
            }
        }
    }

    /// The record of a departing player is dropped and the player is taken
    /// out of their lobby.
    pub open spec fn detach_departed(self, pid: u128) -> StateView {
        match lookup(self.players, pid) {
            None => self,
            Some(p) => StateView { players: remove_key(self.players, pid), ..self }.withdraw_member(p),
        }
    }

    /// Takes a departing player out of their lobby at time `now`: the player
    /// is withdrawn from the lobby, and the games waiting for confirmation
    /// that involve the lobby are cancelled (their players are told, their
    /// other lobbies go back into the queue).
    pub open spec fn remove_from_lobby(self, p: PlayerView, now: u64) -> StateView {
        match p.lobby {
            None => self,
            Some(lid) => self.withdraw_member(p).cancel_games_of(lid, now),
        }
    }

    /// Each listed lobby but `except` goes back into the queue at time `now`.
    pub open spec fn requeue_others(self, lids: Seq<u128>, except: u128, now: u64) -> StateView
        decreases lids.len(),
    {
        if lids.len() == 0 {
            self
        } else {
            let s = self.requeue_others(lids.drop_last(), except, now);
            if lids.last() == except {
                s
            } else {
                match lookup(s.lobbys, lids.last()) {
                    None => s,
                    Some(l) => s.queue_lobby_at(l, now),
                }
            }
        }
    }

    /// Each listed game in turn is announced as cancelled to both teams, and
    /// its lobbies other than `lid` go back into the queue.
    pub open spec fn cancel_games(self, gs: Seq<GameView>, lid: u128, now: u64) -> StateView
        decreases gs.len(),
    {
        if gs.len() == 0 {
            self
        } else {
            let g = gs.last();
            self.cancel_games(gs.drop_last(), lid, now)
                .send_all(g.team1, MessageView::GameCancelled { game_id: g.id })
                .send_all(g.team2, MessageView::GameCancelled { game_id: g.id })
                .requeue_others(g.lobbys, lid, now)
        }
    }

    /// The games waiting for confirmation that involve lobby `lid` are
    /// cancelled: their players are told, the other lobbies go back into the
    /// queue, and the games are dropped.
    pub open spec fn cancel_games_of(self, lid: u128, now: u64) -> StateView {
        let s = self.cancel_games(self.waiting.filter(lists_lobby(lid)), lid, now);
        StateView { waiting: self.waiting.filter(omits_lobby(lid)), ..s }
    }

    /// The effect of a player's connection closing at time `now`: the record
    /// is dropped and the player is taken out of their lobby, which cancels
    /// the games waiting for confirmation that involve that lobby.
    pub open spec fn disconnect(self, pid: u128, now: u64) -> StateView {
        match lookup(self.players, pid) {
            None => self,
            Some(p) => StateView { players: remove_key(self.players, pid), ..self }.remove_from_lobby(p, now),
        }
    }
}

/// The identifiers other than `x`, in order.
pub fn without_id(v: &Vec<u128>, x: u128) -> (r: Vec<u128>)
    ensures
        r@ == v@.filter(other_than(x)),
{
    let mut r: Vec<u128> = Vec::new();
    let mut i: usize = 0;
    while i < v.len()
        invariant
            0 <= i <= v.len(),
            r@ == v@.take(i as int).filter(other_than(x)),
        decreases v.len() - i,
    {
        proof {
            assert(v@.take(i + 1) =~= v@.take(i as int).push(v@[i as int]));
            v@.take(i as int).lemma_filter_push(v@[i as int], other_than(x));
        }
        if v[i] != x {
            r.push(v[i]);
        }
        i = i + 1;
    }
    assert(v@.take(v@.len() as int) =~= v@);
    r
}

impl AppState {
    /// Makes a connected player idle and lobby-less.
    fn reset_player(&mut self, pid: u128)
        requires
            old(self).wf(),
        ensures
            final(self).wf(),
            final(self)@ == (StateView { players: reset_player(old(self)@.players, pid), ..old(self)@ }),
    {
        let ghost s0 = self@;
        match self.find_player(pid) {
            Some(j) => {
                self.players[j].status = PlayerStatus::Idle;
                self.players[j].lobby = None;
                proof {
                    assert(self@.players =~= reset_player(s0.players, pid)) by {
                        assert forall|k: int| 0 <= k < s0.players.len() && k != j implies s0.players[k].id != pid by {
                            assert(s0.players[k].key() != s0.players[j as int].key());
                        }
                    }
                    lemma_unique_same_keys(s0.players, self@.players);
                }
            },
            None => {
                proof {
                    assert(self@.players =~= reset_player(s0.players, pid)) by {
                        assert forall|k: int| 0 <= k < s0.players.len() implies s0.players[k].id != pid by {
                            if s0.players[k].id == pid {
                                assert(s0.players[k].key() == pid);
                            }
                        }
                    }
                }
            },
        }
        assert(self@ =~= StateView { players: reset_player(s0.players, pid), ..s0 });
    }

    /// Records a connected player as member of a lobby.
    fn assign_lobby(&mut self, pid: u128, lid: u128)
        requires
            old(self).wf(),
        ensures
            final(self).wf(),
            final(self)@ == (StateView { players: assign_lobby(old(self)@.players, pid, lid), ..old(self)@ }),
    {
        let ghost s0 = self@;
        match self.find_player(pid) {
            Some(j) => {
                self.players[j].lobby = Some(lid);
                proof {
                    assert(self@.players =~= assign_lobby(s0.players, pid, lid)) by {
                        assert forall|k: int| 0 <= k < s0.players.len() && k != j implies s0.players[k].id != pid by {
                            assert(s0.players[k].key() != s0.players[j as int].key());
                        }
                    }
                    lemma_unique_same_keys(s0.players, self@.players);
                }
            },
            None => {
                proof {
                    assert(self@.players =~= assign_lobby(s0.players, pid, lid)) by {
                        assert forall|k: int| 0 <= k < s0.players.len() implies s0.players[k].id != pid by {
                            if s0.players[k].id == pid {
                                assert(s0.players[k].key() == pid);
                            }
                        }
                    }
                }
            },
        }
        assert(self@ =~= StateView { players: assign_lobby(s0.players, pid, lid), ..s0 });
    }

    /// Takes a player off the members of the lobby at position `i`, passing
    /// ownership on and deleting the lobby if it is left empty.
    fn drop_member(&mut self, i: usize, pid: u128)
        requires
            old(self).wf(),
            i < old(self)@.lobbys.len(),
        ensures
            final(self).wf(),
            final(self)@ == (StateView {
                lobbys: lobbys_without_member(old(self)@.lobbys, old(self)@.lobbys[i as int], pid),
                ..old(self)@
            }),
    {
        let ghost s0 = self@;
        let ghost l = s0.lobbys[i as int];
        proof {
            lemma_key_index(s0.lobbys, i as int);
        }
        let rest = without_id(&self.lobbys[i].players, pid);
        let owner = if self.lobbys[i].owner == pid && rest.len() > 0 {
            rest[0]
        } else {
            self.lobbys[i].owner
        };
        let empty = rest.len() == 0;
        if empty {
            self.lobbys.remove(i);
            proof {
                lemma_unique_remove(s0.lobbys, i as int);
                assert(self@.lobbys =~= s0.lobbys.remove(i as int));
            }
        } else {
            self.lobbys[i].players = rest;
            self.lobbys[i].owner = owner;
            proof {
                let nl = LobbyView { players: l.players.filter(other_than(pid)), owner, ..l };
                assert(self@.lobbys =~= s0.lobbys.update(i as int, nl));
                lemma_unique_update(s0.lobbys, i as int, nl);
            }
        }
        assert(self@ =~= StateView { lobbys: lobbys_without_member(s0.lobbys, l, pid), ..s0 });
    }

    /// Removes a player from a lobby's members and makes the player idle and
    /// lobby-less.
    fn detach(&mut self, pid: u128, lid: u128)
        requires
            old(self).wf(),
        ensures
            final(self).wf(),
            final(self)@ == old(self)@.detach(pid, lid),
    {
        let ghost s0 = self@;
        match self.find_lobby(lid) {
            None => {},
            Some(i) => {
                self.reset_player(pid);
                self.drop_member(i, pid);
            },
        }
    }

    /// A player asks to leave their lobby; `player` is the record when the
    /// request arrived.
    pub fn leave_lobby(&mut self, player: &Player)
        requires
            old(self).wf(),
        ensures
            final(self).wf(),
            final(self)@ == old(self)@.leave_lobby(player@),
    {
        if !player.status.is_idle() {
            self.send_error(player.id, String::from_str("Cannot leave lobby while in queue or in game"));
            return;
        }
        let lobby_id = match player.lobby {
            Some(id) => id,
            None => {
                self.send_error(player.id, String::from_str("You are not in a lobby"));
                return;
            },
        };
        self.detach(player.id, lobby_id);
        self.send_to(player.id, ServerMessage::LobbyLeft { lobby_id });
    }

    /// A player asks to join lobby `lobby_id`; `player` is the record when
    /// the request arrived.
    pub fn join_existing_lobby(&mut self, player: &Player, lobby_id: u128)
        requires
            old(self).wf(),
        ensures
            final(self).wf(),
            final(self)@ == old(self)@.join_lobby(player@, lobby_id),
    {
        if player.lobby.is_some() {
            self.leave_lobby(player);
        }
        if !player.status.is_idle() {
            self.send_error(player.id, String::from_str("Cannot join lobby while in queue or in game"));
            return;
        }
        match self.find_lobby(lobby_id) {
            Some(i) => {
                let ghost s1 = self@;
                let ghost l = s1.lobbys[i as int];
                self.assign_lobby(player.id, lobby_id);
                self.lobbys[i].players.push(player.id);
                proof {
                    let nl = LobbyView { players: l.players.push(player.id), ..l };
                    assert(self@.lobbys =~= s1.lobbys.update(i as int, nl));
                    lemma_unique_update(s1.lobbys, i as int, nl);
                }
                self.send_to(player.id, ServerMessage::LobbyJoined { lobby_id });
            },
            None => {
                self.send_error(player.id, String::from_str("Lobby not found"));
            },
        }
    }

    /// A player asks for a new lobby, given the identifier it gets.
    pub fn create_lobby_with_id(&mut self, player: &Player, lobby_id: u128)
        requires
            old(self).wf(),
        ensures
            final(self).wf(),
            final(self)@ == old(self)@.create_lobby(player@, lobby_id),
    {
        if !player.status.is_idle() {
            self.send_error(player.id, String::from_str("Cannot join lobby while in queue or in game"));
            return;
        }
        let ghost s1 = self@;
        let lobby = Lobby::new(lobby_id, player.id);
        let ghost lv = lobby@;
        proof {
            lemma_unique_insert(s1.lobbys, lv);
        }
        match self.find_lobby(lobby_id) {
            Some(i) => {
                self.lobbys.set(i, lobby);
                assert(self@.lobbys =~= s1.lobbys.update(i as int, lv));
            },
            None => {
                self.lobbys.push(lobby);
                assert(self@.lobbys =~= s1.lobbys.push(lv));
            },
        }
        assert(self@ =~= StateView { lobbys: insert_key(s1.lobbys, lv), ..s1 });
        self.join_existing_lobby(player, lobby_id);
    }

    /// A player asks for a new lobby; its identifier is a fresh random UUID.
    pub fn create_new_lobby(&mut self, player: &Player)
        requires
            old(self).wf(),
        ensures
            final(self).wf(),
            exists|lid: u128| is_v4_uuid(lid) && final(self)@ == old(self)@.create_lobby(player@, lid),
    {
        let lobby_id = new_uuid();
        self.create_lobby_with_id(player, lobby_id);
    }

    /// Sends a player the description of the lobby at position `i`.
    pub fn send_lobby(&mut self, player_id: u128, i: usize)
        requires
            old(self).wf(),
            i < old(self)@.lobbys.len(),
        ensures
            final(self).wf(),
            final(self)@ == old(self)@.send(player_id, lobby_msg(old(self)@.players, old(self)@.lobbys[i as int])),
    {
        let ghost s0 = self@;
        let ghost l = s0.lobbys[i as int];
        let mut names: Vec<String> = Vec::new();
        let n = self.lobbys[i].players.len();
        let mut k: usize = 0;
        while k < n
            invariant
                self@ == s0,
                self.wf(),
                i < self.lobbys.len(),
                l == self@.lobbys[i as int],
                n == l.players.len(),
                0 <= k <= n,
                texts(names@) == lobby_names(s0.players, l.players.take(k as int)),
            decreases n - k,
        {
            let id = self.lobbys[i].players[k];
            proof {
                assert(l.players.take(k + 1).drop_last() =~= l.players.take(k as int));
                assert(l.players.take(k + 1).last() == id);
            }
            match self.find_player(id) {
                Some(j) => {
                    names.push(self.players[j].name.clone());
                    assert(texts(names@) =~= lobby_names(s0.players, l.players.take(k + 1)));
                },
                None => {},
            }
            k = k + 1;
        }
        assert(l.players.take(n as int) =~= l.players);
        let msg = ServerMessage::Lobby {
            lobby_id: self.lobbys[i].id,
            players: names,
            status: self.lobbys[i].status.to_string(),
        };
        self.send_to(player_id, msg);
    }

    /// A player asks to see their lobby: the first lobby listing them is
    /// described, or they are told they are in none.
    pub fn display_lobby(&mut self, player: &Player)
        requires
            old(self).wf(),
        ensures
            final(self).wf(),
            final(self)@ == old(self)@.display_lobby(player@),
    {
        let ghost s0 = self@;
        let mut i: usize = 0;
        while i < self.lobbys.len()
            invariant
                self@ == s0,
                s0 == old(self)@,
                self.wf(),
                0 <= i <= self.lobbys.len(),
                forall|j: int| 0 <= j < i ==> !(#[trigger] s0.lobbys[j].players.contains(player.id)),
            decreases self.lobbys.len() - i,
        {
            if crate::app_state::ids_contains(&self.lobbys[i].players, player.id) {
                proof {
                    assert(first_lobby_of(s0.lobbys, player.id, i as int));
                    let k = choose|k: int| first_lobby_of(s0.lobbys, player.id, k);
                    if k < i {
                        assert(!s0.lobbys[k].players.contains(player.id));
                    }
                    if k > i {
                        assert(!s0.lobbys[i as int].players.contains(player.id));
                    }
                    assert(k == i);
                    assert(s0.display_lobby(player@) == s0.send(player.id, lobby_msg(s0.players, s0.lobbys[i as int])));
                }
                self.send_lobby(player.id, i);
                return;
            }
            i = i + 1;
        }
        proof {
            assert forall|k: int| !first_lobby_of(s0.lobbys, player.id, k) by {
                if first_lobby_of(s0.lobbys, player.id, k) {
                    assert(!s0.lobbys[k].players.contains(player.id));
                }
            }
        }
        self.send_error(player.id, String::from_str("You are not in a lobby"));
    }

    /// Withdraws a lobby from matchmaking: the lobby and its members become
    /// idle and its first queue entry is removed.
    pub fn cancel_research_id(&mut self, lobby_id: u128)
        requires
            old(self).wf(),
        ensures
            final(self).wf(),
            final(self)@ == old(self)@.set_lobby_status(lobby_id, PlayerStatus::Idle).dequeue(lobby_id),
    {
        self.update_lobby_status(lobby_id, PlayerStatus::Idle);
        self.dequeue_lobby(lobby_id);
    }

    /// Takes a departing player out of their lobby at time `now`; `player`
    /// is the player's last record. The lobby becomes idle and leaves the
    /// queue, the player leaves its members (ownership passes on, an empty
    /// lobby is deleted), and the games waiting for confirmation that involve
    /// the lobby are cancelled, their other lobbies going back into the
    /// queue.
    pub fn remove_player_from_lobby(&mut self, player: &Player, now: u64)
        requires
            old(self).wf(),
        ensures
            final(self).wf(),
            final(self)@ == old(self)@.remove_from_lobby(player@, now),
    {
        let lobby_id = match player.lobby {
            Some(id) => id,
            None => {
                return;
            },
        };
        self.cancel_research_id(lobby_id);
        match self.find_lobby(lobby_id) {
            Some(i) => {
                self.drop_member(i, player.id);
            },
            None => {},
        }
        self.cancel_games_of_lobby(lobby_id, now);
    }

    /// Puts each listed lobby but `except` back into the queue at `now`.
    fn requeue_others(&mut self, lids: &Vec<u128>, except: u128, now: u64)
        requires
            old(self).wf(),
        ensures
            final(self).wf(),
            final(self)@ == old(self)@.requeue_others(lids@, except, now),
    {
        let ghost s0 = self@;
        let mut i: usize = 0;
        while i < lids.len()
            invariant
                0 <= i <= lids.len(),
                self.wf(),
                self@ == s0.requeue_others(lids@.take(i as int), except, now),
            decreases lids.len() - i,
        {
            proof {
                assert(lids@.take(i + 1).drop_last() =~= lids@.take(i as int));
            }
            if lids[i] != except {
                match self.find_lobby(lids[i]) {
                    Some(j) => self.queue_lobby_index(j, now),
                    None => {},
                }
            }
            i = i + 1;
        }
        assert(lids@.take(lids@.len() as int) =~= lids@);
    }

    /// Cancels the games waiting for confirmation that involve lobby `lid`:
    /// their players are told, their other lobbies go back into the queue at
    /// `now`, and the games are dropped.
    pub fn cancel_games_of_lobby(&mut self, lid: u128, now: u64)
        requires
            old(self).wf(),
        ensures
            final(self).wf(),
            final(self)@ == old(self)@.cancel_games_of(lid, now),
    {
        let ghost s0 = self@;
        let ghost w = s0.waiting;
        let n = self.waiting_games.len();
        let mut involved: Vec<bool> = Vec::new();
        let mut i: usize = 0;
        while i < n
            invariant
                0 <= i <= n,
                n == w.len(),
                self.wf(),
                involved@.len() == i,
                forall|j: int| 0 <= j < i ==> involved@[j] == (#[trigger] w[j]).lobbys.contains(lid),
                games_view(self.waiting_games@) == w,
                self@ == s0.cancel_games(w.take(i as int).filter(lists_lobby(lid)), lid, now),
            decreases n - i,
        {
            proof {
                assert(w.take(i + 1) =~= w.take(i as int).push(w[i as int]));
                w.take(i as int).lemma_filter_push(w[i as int], lists_lobby(lid));
            }
            let involves = ids_contains(&self.waiting_games[i].lobbys, lid);
            involved.push(involves);
            if involves {
                let game_id = self.waiting_games[i].id;
                let lobby_ids = copy_ids(&self.waiting_games[i].lobbys);
                let team1 = copy_ids(&self.waiting_games[i].team1);
                let team2 = copy_ids(&self.waiting_games[i].team2);
                self.send_to_players(&team1, ServerMessage::GameCancelled { game_id });
                self.send_to_players(&team2, ServerMessage::GameCancelled { game_id });
                let ghost before = self@;
                self.requeue_others(&lobby_ids, lid, now);
                proof {
                    lemma_requeue_others_frame(before, lobby_ids@, lid, now);
                    let t = w.take(i as int).filter(lists_lobby(lid));
                    let t2 = t.push(w[i as int]);
                    assert(t2.drop_last() =~= t);
                    assert(t2.last() == w[i as int]);
                }
            }
            i = i + 1;
        }
        assert(w.take(n as int) =~= w);
        let mut games: Vec<Game> = Vec::new();
        std::mem::swap(&mut games, &mut self.waiting_games);
        let (_cancelled, kept) = split_games(games, &involved);
        self.waiting_games = kept;
        proof {
            assert forall|j: int| 0 <= j < w.len() implies (involved@[j] == false) == omits_lobby(lid)(#[trigger] w[j]) by {}
            lemma_select_filter(w, involved@, false, omits_lobby(lid));
            lemma_unique_filter(w, omits_lobby(lid));
        }
        assert(self@ =~= s0.cancel_games_of(lid, now));
    }

    /// A player's connection closed at time `now`: the player's record is
    /// dropped, the player is taken out of their lobby, and the games
    /// waiting for confirmation that involve that lobby are cancelled (their
    /// other lobbies go back into the queue). Returns the last record, if
    /// the player was connected.
    pub fn disconnect_player(&mut self, player_id: u128, now: u64) -> (r: Option<Player>)
        requires
            old(self).wf(),
        ensures
            final(self).wf(),
            final(self)@ == old(self)@.disconnect(player_id, now),
            match r {
                Some(p) => lookup(old(self)@.players, player_id) == Some(p@),
                None => lookup(old(self)@.players, player_id) is None,
            },
    {
        let ghost s0 = self@;
        match self.find_player(player_id) {
            None => None,
            Some(j) => {
                proof {
                    lemma_key_index(s0.players, j as int);
                    lemma_unique_remove(s0.players, j as int);
                }
                let player = self.players.remove(j);
                assert(self@.players =~= s0.players.remove(j as int));
                assert(self@ =~= StateView { players: remove_key(s0.players, player_id), ..s0 });
                self.remove_player_from_lobby(&player, now);
                Some(player)
            },
        }
    }

    /// Sends a player the list of available commands.
    pub fn help(&mut self, player_id: u128)
        requires
            old(self).wf(),
        ensures
            final(self).wf(),
            final(self)@ == old(self)@.send(
                player_id,
                MessageView::Info {
                    message: "Available commands: JoinLobby, DisplayLobby, LeaveLobby, SearchGame, CancelSearch, ConfirmGame, DisplayPlayer"@,
                },
            ),
    {
        self.send_to(
            player_id,
            ServerMessage::Info {
                message: String::from_str(
                    "Available commands: JoinLobby, DisplayLobby, LeaveLobby, SearchGame, CancelSearch, ConfirmGame, DisplayPlayer",
                ),
            },
        );
    }
}

/// Re-queueing lobbies touches neither the games, the settings, the
/// samples nor the outbox.
pub proof fn lemma_requeue_others_frame(s: StateView, lids: Seq<u128>, except: u128, now: u64)
    ensures
        ({
            let r = s.requeue_others(lids, except, now);
            &&& r.total_player == s.total_player
            &&& r.waiting == s.waiting
            &&& r.ongoing == s.ongoing
            &&& r.settings == s.settings
            &&& r.queue_times == s.queue_times
            &&& r.match_outcomes == s.match_outcomes
            &&& r.outbox == s.outbox
        }),
    decreases lids.len(),
{
    if lids.len() > 0 {
        lemma_requeue_others_frame(s, lids.drop_last(), except, now);
    }
}

} // verus!
