//! Searching for a game, cancelling the search, confirming a found game, and
//! the dispatch of a player's requests.

use vstd::prelude::*;

use crate::app_state::lobby::error_msg;
use crate::app_state::{find_game_index, ids_contains, AppState, StateView};
use crate::ids::{is_v4_uuid, new_uuid};
use crate::keyed::{lemma_key_index, lemma_unique_update, lookup, replace_key};
use crate::messages::{ClientMessage, MessageView, ServerMessage};
use crate::structs::{
    copy_ids, player_info_of, GameView, LobbyView, Player, PlayerInfo, PlayerStatus, PlayerView, QueueEntry,
    QueueEntryView,
};

verus! {

/// Hidden skill ratings (true skill) of the connected players among `ids`,
/// in order; matchmaking compares lobbies by these.
pub open spec fn member_mmrs(ps: Seq<PlayerView>, ids: Seq<u128>) -> Seq<u64>
    decreases ids.len(),
{
    if ids.len() == 0 {
        Seq::empty()
    } else {
        let rest = member_mmrs(ps, ids.drop_last());
        match lookup(ps, ids.last()) {
            Some(p) => rest.push(p.true_skill),
            None => rest,
        }
    }
}

impl StateView {
    /// Lobby `l` and its members go into the queue at time `now`, with an
    /// entry holding its members' hidden skill ratings.
    pub open spec fn queue_lobby_at(self, l: LobbyView, now: u64) -> StateView {
        let st = PlayerStatus::InQueue { queue_time: now };
        StateView {
            lobbys: replace_key(self.lobbys, l.id, LobbyView { status: st, ..l }),
            ..self
        }.set_players_status(l.players, st).enqueue(
            QueueEntryView {
                start_time: now,
                lobby_id: l.id,
                member_mmrs: member_mmrs(self.players, l.players),
                player_count: l.players.len() as usize,
            },
        )
    }

    /// The effect of a player asking to search for a game at time `now`:
    /// an idle player's idle lobby and its members go into the queue; a
    /// player who is not idle, or whose lobby is not idle (already queued or
    /// in a game), is refused.
    pub open spec fn find_game(self, p: PlayerView, now: u64) -> StateView {
        match p.lobby {
            None => self.send(p.id, error_msg("You are not in a lobby"@)),
            Some(lid) => if !(p.status is Idle) {
                self.send(p.id, error_msg("Cannot search for a game while in queue or in game"@))
            } else {
                match lookup(self.lobbys, lid) {
                    None => self,
                    Some(l) => if !(l.status is Idle) {
                        self.send(p.id, error_msg("Your lobby is already searching or in a game"@))
                    } else {
                        self.queue_lobby_at(l, now).send_all(
                            l.players,
                            MessageView::SearchingGame { lobby_id: lid, player_searching: p.name },
                        )
                    },
                }
            },
        }
    }

    /// The effect of a player asking to stop searching: the lobby and its
    /// members become idle, its queue entry is withdrawn and its members are
    /// told who cancelled.
    pub open spec fn cancel_search(self, p: PlayerView) -> StateView {
        match p.lobby {
            None => self.send(p.id, error_msg("You are not in a lobby"@)),
            Some(lid) => {
                let s1 = self.set_lobby_status(lid, PlayerStatus::Idle).dequeue(lid);
                match lookup(self.lobbys, lid) {
                    None => s1,
                    Some(l) => s1.send_all(
                        l.players,
                        MessageView::SearchCancelled { lobby_id: lid, player_cancelling: p.name },
                    ),
                }
            },
        }
    }

    /// The effect of a player confirming game `id`.
    pub open spec fn confirm(self, p: PlayerView, id: u128) -> StateView {
        if p.lobby is None {
            self.send(p.id, error_msg("You are not in a lobby"@))
        } else {
            match p.status {
                PlayerStatus::NeedConfirmation { game_id } => if game_id != id {
                    self.send(p.id, error_msg("You are not confirming the correct game"@))
                } else {
                    match lookup(self.waiting, game_id) {
                        None => self,
                        Some(g) => if g.confirmed.contains(p.id) {
                            self
                        } else {
                            StateView {
                                waiting: replace_key(
                                    self.waiting,
                                    game_id,
                                    GameView { confirmed: g.confirmed.push(p.id), ..g },
                                ),
                                ..self
                            }
                        },
                    }
                },
                _ => self.send(p.id, error_msg("You are not in a game confirmation state"@)),
            }
        }
    }

    /// The effect of a player asking for their own record.
    pub open spec fn player_info(self, p: PlayerView) -> StateView {
        self.send(p.id, MessageView::PlayerInfo { player: player_info_of(p) })
    }

    /// The effect of a player asking to see a player's public record: their
    /// own without an identifier, otherwise that of the connected player
    /// with the identifier, or an error when there is none.
    pub open spec fn display_player(self, p: PlayerView, id: Option<u128>) -> StateView {
        match id {
            None => self.player_info(p),
            Some(q) => match lookup(self.players, q) {
                Some(r) => self.send(p.id, MessageView::PlayerInfo { player: player_info_of(r) }),
                None => self.send(p.id, error_msg("Player not found"@)),
            },
        }
    }

    /// The effect of a request from a player, at time `now`; `lid` is the
    /// identifier a newly created lobby gets.
    pub open spec fn handle_message(self, pid: u128, msg: ClientMessage, now: u64, lid: u128) -> StateView {
        match lookup(self.players, pid) {
            None => self,
            Some(p) => match msg {
                ClientMessage::PlayerInfo => self.player_info(p),
                ClientMessage::JoinLobby { id } => match id {
                    Some(l) => self.join_lobby(p, l),
                    None => self.create_lobby(p, lid),
                },
                ClientMessage::DisplayLobby => self.display_lobby(p),
                ClientMessage::LeaveLobby => self.leave_lobby(p),
                ClientMessage::SearchGame => self.find_game(p, now),
                ClientMessage::CancelSearch => self.cancel_search(p),
                ClientMessage::ConfirmGame { id } => self.confirm(p, id),
                ClientMessage::DisplayPlayer { id } => self.display_player(p, id),
            },
        }
    }
}

impl AppState {
    /// Hidden skill ratings of the connected members of the lobby at
    /// position `i`.
    fn lobby_member_mmrs(&self, i: usize) -> (r: Vec<u64>)
        requires
            self.wf(),
            i < self@.lobbys.len(),
        ensures
            r@ == member_mmrs(self@.players, self@.lobbys[i as int].players),
    {
        let ghost l = self@.lobbys[i as int];
        let mut r: Vec<u64> = Vec::new();
        let n = self.lobbys[i].players.len();
        let mut k: usize = 0;
        while k < n
            invariant
                self.wf(),
                i < self@.lobbys.len(),
                l == self@.lobbys[i as int],
                n == l.players.len(),
                0 <= k <= n,
                r@ == member_mmrs(self@.players, l.players.take(k as int)),
            decreases n - k,
        {
            let id = self.lobbys[i].players[k];
            proof {
                assert(l.players.take(k + 1).drop_last() =~= l.players.take(k as int));
                assert(l.players.take(k + 1).last() == id);
            }
            match self.find_player(id) {
                Some(j) => {
                    r.push(self.players[j].true_skill);
                },
                None => {},
            }
            k = k + 1;
        }
        assert(l.players.take(n as int) =~= l.players);
        r
    }

    /// Puts the lobby at position `i` and its members into the queue at time
    /// `now`.
    pub(crate) fn queue_lobby_index(&mut self, i: usize, now: u64)
        requires
            old(self).wf(),
            i < old(self)@.lobbys.len(),
        ensures
            final(self).wf(),
            final(self)@ == old(self)@.queue_lobby_at(old(self)@.lobbys[i as int], now),
    {
        let ghost s0 = self@;
        let ghost l = s0.lobbys[i as int];
        proof {
            lemma_key_index(s0.lobbys, i as int);
        }
        let lobby_id = self.lobbys[i].id;
        let member_mmrs = self.lobby_member_mmrs(i);
        let status = PlayerStatus::InQueue { queue_time: now };
        self.lobbys[i].status = status;
        let player_ids = copy_ids(&self.lobbys[i].players);
        proof {
            let nl = LobbyView { status, ..l };
            assert(self@.lobbys =~= s0.lobbys.update(i as int, nl));
            lemma_unique_update(s0.lobbys, i as int, nl);
            assert(self@ == StateView { lobbys: replace_key(s0.lobbys, lobby_id, nl), ..s0 });
        }
        self.update_players_status(&player_ids, status);
        let player_count = player_ids.len();
        self.queue_lobby(QueueEntry { lobby_id, member_mmrs, player_count, start_time: now });
    }

    /// A player asks to search for a game, at time `now`; `player` is the
    /// record when the request arrived.
    pub fn find_game(&mut self, player: &Player, now: u64)
        requires
            old(self).wf(),
        ensures
            final(self).wf(),
            final(self)@ == old(self)@.find_game(player@, now),
    {
        let lobby_id = match player.lobby {
            Some(id) => id,
            None => {
                self.send_error(player.id, String::from_str("You are not in a lobby"));
                return;
            },
        };
        if !player.status.is_idle() {
            self.send_error(player.id, String::from_str("Cannot search for a game while in queue or in game"));
            return;
        }
        let i = match self.find_lobby(lobby_id) {
            Some(i) => i,
            None => {
                return;
            },
        };
        if !self.lobbys[i].status.is_idle() {
            self.send_error(player.id, String::from_str("Your lobby is already searching or in a game"));
            return;
        }
        let player_ids = copy_ids(&self.lobbys[i].players);
        self.queue_lobby_index(i, now);
        self.send_to_players(&player_ids, ServerMessage::SearchingGame { lobby_id, player_searching: player.name.clone() });
    }

    /// A player asks to stop searching for a game.
    pub fn cancel_research(&mut self, player: &Player)
        requires
            old(self).wf(),
        ensures
            final(self).wf(),
            final(self)@ == old(self)@.cancel_search(player@),
    {
        let lobby_id = match player.lobby {
            Some(id) => id,
            None => {
                self.send_error(player.id, String::from_str("You are not in a lobby"));
                return;
            },
        };
        let members = match self.find_lobby(lobby_id) {
            Some(i) => Some(copy_ids(&self.lobbys[i].players)),
            None => None,
        };
        self.update_lobby_status(lobby_id, PlayerStatus::Idle);
        self.dequeue_lobby(lobby_id);
        match members {
            Some(ids) => self.send_to_players(
                &ids,
                ServerMessage::SearchCancelled { lobby_id, player_cancelling: player.name.clone() },
            ),
            None => {},
        }
    }

    /// A player confirms game `id`; `player` is the record when the request
    /// arrived.
    pub fn confirm_game(&mut self, player: &Player, id: u128)
        requires
            old(self).wf(),
        ensures
            final(self).wf(),
            final(self)@ == old(self)@.confirm(player@, id),
    {
        if player.lobby.is_none() {
            self.send_error(player.id, String::from_str("You are not in a lobby"));
            return;
        }
        let game_id = match player.status {
            PlayerStatus::NeedConfirmation { game_id } => game_id,
            _ => {
                self.send_error(player.id, String::from_str("You are not in a game confirmation state"));
                return;
            },
        };
        if game_id != id {
            self.send_error(player.id, String::from_str("You are not confirming the correct game"));
            return;
        }
        let ghost s0 = self@;
        match find_game_index(&self.waiting_games, game_id) {
            None => {},
            Some(i) => {
                proof {
                    lemma_key_index(s0.waiting, i as int);
                }
                if !ids_contains(&self.waiting_games[i].confirmed, player.id) {
                    let ghost g = s0.waiting[i as int];
                    self.waiting_games[i].confirmed.push(player.id);
                    proof {
                        let ng = GameView { confirmed: g.confirmed.push(player.id), ..g };
                        assert(self@.waiting =~= s0.waiting.update(i as int, ng));
                        lemma_unique_update(s0.waiting, i as int, ng);
                    }
                    assert(self@ =~= StateView {
                        waiting: replace_key(s0.waiting, game_id, GameView { confirmed: s0.waiting[i as int].confirmed.push(player.id), ..s0.waiting[i as int] }),
                        ..s0
                    });
                }
            },
        }
    }

    /// Sends a player the public part of their record.
    pub fn player_info(&mut self, player: &Player)
        requires
            old(self).wf(),
        ensures
            final(self).wf(),
            final(self)@ == old(self)@.player_info(player@),
    {
        let info = PlayerInfo::from(player.copy());
        self.send_to(player.id, ServerMessage::PlayerInfo { player: info });
    }

    /// Sends a player the public record of the connected player `id`, or
    /// their own without an identifier; an unknown identifier is an error.
    pub fn display_player(&mut self, player: &Player, id: Option<u128>)
        requires
            old(self).wf(),
        ensures
            final(self).wf(),
            final(self)@ == old(self)@.display_player(player@, id),
    {
        match id {
            None => self.player_info(player),
            Some(q) => match self.find_player(q) {
                Some(j) => {
                    let info = PlayerInfo::from(self.players[j].copy());
                    self.send_to(player.id, ServerMessage::PlayerInfo { player: info });
                },
                None => self.send_error(player.id, String::from_str("Player not found")),
            },
        }
    }

    /// Handles a request from a connected player at time `now`, given the
    /// identifier a newly created lobby gets. Requests from a player who is
    /// not connected change nothing.
    pub fn handle_message_with_id(&mut self, player_id: u128, msg: ClientMessage, now: u64, new_lobby_id: u128)
        requires
            old(self).wf(),
        ensures
            final(self).wf(),
            final(self)@ == old(self)@.handle_message(player_id, msg, now, new_lobby_id),
    {
        let player = match self.find_player(player_id) {
            Some(j) => self.players[j].copy(),
            None => {
                return;
            },
        };
        match msg {
            ClientMessage::PlayerInfo => self.player_info(&player),
            ClientMessage::JoinLobby { id } => match id {
                Some(lobby_id) => self.join_existing_lobby(&player, lobby_id),
                None => self.create_lobby_with_id(&player, new_lobby_id),
            },
            ClientMessage::DisplayLobby => self.display_lobby(&player),
            ClientMessage::LeaveLobby => self.leave_lobby(&player),
            ClientMessage::SearchGame => self.find_game(&player, now),
            ClientMessage::CancelSearch => self.cancel_research(&player),
            ClientMessage::ConfirmGame { id } => self.confirm_game(&player, id),
            ClientMessage::DisplayPlayer { id } => self.display_player(&player, id),
        }
    }

    /// Handles a request from a connected player at time `now`; a lobby it
    /// creates gets a fresh random UUID.
    pub fn handle_message(&mut self, player_id: u128, msg: ClientMessage, now: u64)
        requires
            old(self).wf(),
        ensures
            final(self).wf(),
            exists|lid: u128|
                (msg matches ClientMessage::JoinLobby { id: None } ==> is_v4_uuid(lid)) && final(self)@ == old(
                    self,
                )@.handle_message(player_id, msg, now, lid),
    {
        let lobby_id = match msg {
            ClientMessage::JoinLobby { id: None } => new_uuid(),
            _ => 0,
        };
        let ghost m = msg;
        self.handle_message_with_id(player_id, msg, now, lobby_id);
        assert((m matches ClientMessage::JoinLobby { id: None } ==> is_v4_uuid(lobby_id)) && self@ == old(
            self,
        )@.handle_message(player_id, m, now, lobby_id));
    }
}

} // verus!
