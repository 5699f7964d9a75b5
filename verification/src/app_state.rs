//! The server's live state and the basic operations on it.
//!
//! Messages for players are not sent from here: every operation that would
//! send one appends it, with its addressee, to an outbox that the surrounding
//! program drains and delivers.

use vstd::prelude::*;

use crate::keyed::{
    has_key, insert_key, key_index, Keyed, lemma_key_index, lemma_unique_insert, lemma_unique_update,
    lookup, replace_key, unique_keys,
};
use crate::messages::{MessageView, ServerMessage};
use crate::structs::{
    copy_ids, Game, GameView, Lobby, LobbyView, Player, PlayerStatus, PlayerView, QueueEntry,
    QueueEntryView,
};

pub mod confirmation;
pub mod dashboard;
pub mod game;
pub mod lobby;
pub mod matchmaking;
pub mod simulation;

verus! {

/// Tunable parameters of the server that are integers or texts.
pub struct Settings {
    pub lobby_capacity: usize,
    pub team_size: usize,
    pub ranks: Vec<String>,
    pub div_number: usize,
    pub points_per_div: usize,
}

pub struct SettingsView {
    pub lobby_capacity: usize,
    pub team_size: usize,
    pub ranks: Seq<Seq<char>>,
    pub div_number: usize,
    pub points_per_div: usize,
}

impl View for Settings {
    type V = SettingsView;

    open spec fn view(&self) -> SettingsView {
        SettingsView {
            lobby_capacity: self.lobby_capacity,
            team_size: self.team_size,
            ranks: self.ranks@.map_values(|s: String| s@),
            div_number: self.div_number,
            points_per_div: self.points_per_div,
        }
    }
}

/// The settings a server starts with.
pub open spec fn default_settings() -> SettingsView {
    SettingsView {
        lobby_capacity: 1,
        team_size: 1,
        ranks: seq![
            "Unranked"@,
            "Iron"@,
            "Bronze"@,
            "Silver"@,
            "Gold"@,
            "Platinum"@,
            "Emerald"@,
            "Diamond"@,
            "Master"@,
            "Grandmaster"@,
            "Challenger"@,
        ],
        div_number: 4,
        points_per_div: 100,
    }
}

impl Default for Settings {
    fn default() -> (s: Settings)
        ensures
            s@ == default_settings(),
    {
        let s = Settings {
            lobby_capacity: 1,
            team_size: 1,
            ranks: vec![
                String::from_str("Unranked"),
                String::from_str("Iron"),
                String::from_str("Bronze"),
                String::from_str("Silver"),
                String::from_str("Gold"),
                String::from_str("Platinum"),
                String::from_str("Emerald"),
                String::from_str("Diamond"),
                String::from_str("Master"),
                String::from_str("Grandmaster"),
                String::from_str("Challenger"),
            ],
            div_number: 4,
            points_per_div: 100,
        };
        assert(s@.ranks =~= default_settings().ranks);
        s
    }
}

/// Everything the server keeps in memory about players, lobbies and games.
pub struct AppState {
    total_player: usize,
    players: Vec<Player>,
    lobbys: Vec<Lobby>,
    queueing_lobbys: Vec<QueueEntry>,
    waiting_games: Vec<Game>,
    ongoing_games: Vec<Game>,
    settings: Settings,
    debug_avg_queue_time: Vec<u64>,
    debug_successful_match_rate: Vec<bool>,
    outbox: Vec<(u128, ServerMessage)>,
}

/// The abstract content of the server state.
pub struct StateView {
    /// Number of players known to the server, connected or not.
    pub total_player: usize,
    /// Connected players.
    pub players: Seq<PlayerView>,
    pub lobbys: Seq<LobbyView>,
    /// The matchmaking queue, oldest entry first.
    pub queue: Seq<QueueEntryView>,
    /// Games waiting for their players to confirm.
    pub waiting: Seq<GameView>,
    /// Games in progress.
    pub ongoing: Seq<GameView>,
    pub settings: SettingsView,
    /// Recent times spent in the queue, in nanoseconds.
    pub queue_times: Seq<u64>,
    /// Recent outcomes of found games: confirmed or timed out.
    pub match_outcomes: Seq<bool>,
    /// Messages not yet delivered, each with its addressee.
    pub outbox: Seq<(u128, MessageView)>,
}

/// The players with a status replaced for those whose identifier is listed.
pub open spec fn set_status(ps: Seq<PlayerView>, ids: Seq<u128>, st: PlayerStatus) -> Seq<PlayerView> {
    ps.map_values(|p: PlayerView| if ids.contains(p.id) { PlayerView { status: st, ..p } } else { p })
}

/// The queue without its first entry for the lobby, if there is one.
pub open spec fn first_entry(q: Seq<QueueEntryView>, lobby_id: u128, i: int) -> bool {
    &&& 0 <= i < q.len()
    &&& q[i].lobby_id == lobby_id
    &&& forall|j: int| 0 <= j < i ==> #[trigger] q[j].lobby_id != lobby_id
}

pub open spec fn queued(q: Seq<QueueEntryView>, lobby_id: u128) -> bool {
    exists|i: int| 0 <= i < q.len() && #[trigger] q[i].lobby_id == lobby_id
}

pub open spec fn without_first_entry(q: Seq<QueueEntryView>, lobby_id: u128) -> Seq<QueueEntryView> {
    if queued(q, lobby_id) {
        q.remove(choose|i: int| first_entry(q, lobby_id, i))
    } else {
        q
    }
}

impl StateView {
    /// Identifiers are unique among players, among lobbies and among games of
    /// each kind.
    pub open spec fn wf(self) -> bool {
        &&& unique_keys(self.players)
        &&& unique_keys(self.lobbys)
        &&& unique_keys(self.waiting)
        &&& unique_keys(self.ongoing)
    }

    /// The state after a message to one player.
    pub open spec fn send(self, id: u128, m: MessageView) -> StateView {
        StateView { outbox: self.outbox.push((id, m)), ..self }
    }

    /// The state after the same message to each listed player, in order.
    pub open spec fn send_all(self, ids: Seq<u128>, m: MessageView) -> StateView {
        StateView { outbox: self.outbox + ids.map_values(|id: u128| (id, m)), ..self }
    }

    /// The state after setting the status of the listed players.
    pub open spec fn set_players_status(self, ids: Seq<u128>, st: PlayerStatus) -> StateView {
        StateView { players: set_status(self.players, ids, st), ..self }
    }

    /// The state after setting the status of a lobby and of its players.
    pub open spec fn set_lobby_status(self, lobby_id: u128, st: PlayerStatus) -> StateView {
        match lookup(self.lobbys, lobby_id) {
            None => self,
            Some(l) => StateView {
                lobbys: replace_key(self.lobbys, lobby_id, LobbyView { status: st, ..l }),
                ..self
            }.set_players_status(l.players, st),
        }
    }

    /// The state after adding an entry at the end of the queue.
    pub open spec fn enqueue(self, e: QueueEntryView) -> StateView {
        StateView { queue: self.queue.push(e), ..self }
    }

    /// The state after removing the first queue entry of a lobby.
    pub open spec fn dequeue(self, lobby_id: u128) -> StateView {
        StateView { queue: without_first_entry(self.queue, lobby_id), ..self }
    }

    /// The state after a player connects: the record replaces any with the
    /// same identifier, and a player new to the server is counted.
    pub open spec fn connect(self, p: PlayerView, is_new: bool) -> StateView {
        StateView {
            players: insert_key(self.players, p),
            total_player: if is_new { (self.total_player + 1) as usize } else { self.total_player },
            ..self
        }
    }
}

/// The views of player records, in order.
pub open spec fn players_view(v: Seq<Player>) -> Seq<PlayerView> {
    v.map_values(|p: Player| p@)
}

/// The views of lobbies, in order.
pub open spec fn lobbys_view(v: Seq<Lobby>) -> Seq<LobbyView> {
    v.map_values(|l: Lobby| l@)
}

/// The views of queue entries, in order.
pub open spec fn queue_view(v: Seq<QueueEntry>) -> Seq<QueueEntryView> {
    v.map_values(|e: QueueEntry| e@)
}

/// The views of games, in order.
pub open spec fn games_view(v: Seq<Game>) -> Seq<GameView> {
    v.map_values(|g: Game| g@)
}

/// The views of pending messages and their recipients, in order.
pub open spec fn outbox_view(v: Seq<(u128, ServerMessage)>) -> Seq<(u128, MessageView)> {
    v.map_values(|e: (u128, ServerMessage)| (e.0, e.1@))
}

impl View for AppState {
    type V = StateView;

    closed spec fn view(&self) -> StateView {
        StateView {
            total_player: self.total_player,
            players: players_view(self.players@),
            lobbys: lobbys_view(self.lobbys@),
            queue: queue_view(self.queueing_lobbys@),
            waiting: games_view(self.waiting_games@),
            ongoing: games_view(self.ongoing_games@),
            settings: self.settings@,
            queue_times: self.debug_avg_queue_time@,
            match_outcomes: self.debug_successful_match_rate@,
            outbox: outbox_view(self.outbox@),
        }
    }
}

/// Whether a list of identifiers holds one.
pub fn ids_contains(ids: &Vec<u128>, x: u128) -> (b: bool)
    ensures
        b == ids@.contains(x),
{
    let mut i: usize = 0;
    while i < ids.len()
        invariant
            0 <= i <= ids.len(),
            forall|j: int| 0 <= j < i ==> ids@[j] != x,
        decreases ids.len() - i,
    {
        if ids[i] == x {
            assert(ids@[i as int] == x);
            return true;
        }
        i = i + 1;
    }
    false
}

/// Position of the game with an identifier among games.
pub fn find_game_index(games: &Vec<Game>, id: u128) -> (r: Option<usize>)
    ensures
        match r {
            Some(i) => i < games@.len() && games@[i as int].id == id,
            None => !has_key(games_view(games@), id),
        },
{
    let mut i: usize = 0;
    while i < games.len()
        invariant
            0 <= i <= games.len(),
            forall|j: int| 0 <= j < i ==> games@[j].id != id,
        decreases games.len() - i,
    {
        if games[i].id == id {
            return Some(i);
        }
        i = i + 1;
    }
    assert(!has_key(games_view(games@), id)) by {
        if has_key(games_view(games@), id) {
            let j = choose|j: int| 0 <= j < games_view(games@).len() && #[trigger] games_view(games@)[j].key() == id;
            assert(games_view(games@)[j].id == games@[j].id);
        }
    }
    None
}

impl AppState {
    /// An empty state for a server that knows `total_player` players.
    pub fn new(total_player: usize) -> (s: AppState)
        ensures
            s.wf(),
            s@.total_player == total_player,
            s@.players.len() == 0,
            s@.lobbys.len() == 0,
            s@.queue.len() == 0,
            s@.waiting.len() == 0,
            s@.ongoing.len() == 0,
            s@.settings == default_settings(),
            s@.queue_times.len() == 0,
            s@.match_outcomes.len() == 0,
            s@.outbox.len() == 0,
    {
        let s = AppState {
            total_player,
            players: Vec::new(),
            lobbys: Vec::new(),
            queueing_lobbys: Vec::new(),
            waiting_games: Vec::new(),
            ongoing_games: Vec::new(),
            settings: Settings::default(),
            debug_avg_queue_time: Vec::new(),
            debug_successful_match_rate: Vec::new(),
            outbox: Vec::new(),
        };
        assert(s@.players.len() == 0);
        s
    }

    /// Identifiers are unique among players, among lobbies and among games
    /// of each kind.
    pub open spec fn wf(&self) -> bool {
        self@.wf()
    }

    /// Connected players.
    pub fn players(&self) -> (r: &Vec<Player>)
        ensures
            players_view(r@) == self@.players,
    {
        &self.players
    }

    /// Lobbies.
    pub fn lobbys(&self) -> (r: &Vec<Lobby>)
        ensures
            lobbys_view(r@) == self@.lobbys,
    {
        &self.lobbys
    }

    /// The matchmaking queue.
    pub fn queueing_lobbys(&self) -> (r: &Vec<QueueEntry>)
        ensures
            queue_view(r@) == self@.queue,
    {
        &self.queueing_lobbys
    }

    /// Games waiting for confirmation.
    pub fn waiting_games(&self) -> (r: &Vec<Game>)
        ensures
            games_view(r@) == self@.waiting,
    {
        &self.waiting_games
    }

    /// Games in progress.
    pub fn ongoing_games(&self) -> (r: &Vec<Game>)
        ensures
            games_view(r@) == self@.ongoing,
    {
        &self.ongoing_games
    }

    /// Current settings.
    pub fn settings(&self) -> (r: &Settings)
        ensures
            r@ == self@.settings,
    {
        &self.settings
    }

    /// Number of players known to the server.
    pub fn total_player(&self) -> (r: usize)
        ensures
            r == self@.total_player,
    {
        self.total_player
    }

    /// Recent times spent in the queue, in nanoseconds.
    pub fn queue_time_samples(&self) -> (r: &Vec<u64>)
        ensures
            r@ == self@.queue_times,
    {
        &self.debug_avg_queue_time
    }

    /// Recent outcomes of found games.
    pub fn match_samples(&self) -> (r: &Vec<bool>)
        ensures
            r@ == self@.match_outcomes,
    {
        &self.debug_successful_match_rate
    }

    /// Hands over the undelivered messages, leaving the outbox empty.
    pub fn take_outbox(&mut self) -> (r: Vec<(u128, ServerMessage)>)
        requires
            old(self).wf(),
        ensures
            final(self).wf(),
            outbox_view(r@) == old(self)@.outbox,
            final(self)@ == (StateView { outbox: Seq::empty(), ..old(self)@ }),
    {
        let mut r: Vec<(u128, ServerMessage)> = Vec::new();
        std::mem::swap(&mut r, &mut self.outbox);
        assert(outbox_view(self.outbox@) =~= Seq::<(u128, MessageView)>::empty());
        r
    }

    /// Position of the connected player with an identifier.
    pub fn find_player(&self, id: u128) -> (r: Option<usize>)
        requires
            self.wf(),
        ensures
            match r {
                Some(i) => i < self@.players.len() && self@.players[i as int].id == id
                    && lookup(self@.players, id) == Some(self@.players[i as int]),
                None => lookup(self@.players, id) is None,
            },
    {
        let mut i: usize = 0;
        while i < self.players.len()
            invariant
                0 <= i <= self.players.len(),
                self.wf(),
                forall|j: int| 0 <= j < i ==> self.players@[j].id != id,
            decreases self.players.len() - i,
        {
            if self.players[i].id == id {
                proof {
                    lemma_key_index(self@.players, i as int);
                }
                return Some(i);
            }
            i = i + 1;
        }
        assert(!has_key(self@.players, id)) by {
            if has_key(self@.players, id) {
                let j = choose|j: int| 0 <= j < self@.players.len() && #[trigger] self@.players[j].key() == id;
                assert(self@.players[j].id == self.players@[j].id);
            }
        }
        None
    }

    /// Position of the lobby with an identifier.
    pub fn find_lobby(&self, id: u128) -> (r: Option<usize>)
        requires
            self.wf(),
        ensures
            match r {
                Some(i) => i < self@.lobbys.len() && self@.lobbys[i as int].id == id
                    && lookup(self@.lobbys, id) == Some(self@.lobbys[i as int])
                    && key_index(self@.lobbys, id) == i,
                None => lookup(self@.lobbys, id) is None,
            },
    {
        let mut i: usize = 0;
        while i < self.lobbys.len()
            invariant
                0 <= i <= self.lobbys.len(),
                self.wf(),
                forall|j: int| 0 <= j < i ==> self.lobbys@[j].id != id,
            decreases self.lobbys.len() - i,
        {
            if self.lobbys[i].id == id {
                proof {
                    lemma_key_index(self@.lobbys, i as int);
                }
                return Some(i);
            }
            i = i + 1;
        }
        assert(!has_key(self@.lobbys, id)) by {
            if has_key(self@.lobbys, id) {
                let j = choose|j: int| 0 <= j < self@.lobbys.len() && #[trigger] self@.lobbys[j].key() == id;
                assert(self@.lobbys[j].id == self.lobbys@[j].id);
            }
        }
        None
    }

    /// Sends a message to a player.
    pub fn send_to(&mut self, player_id: u128, msg: ServerMessage)
        requires
            old(self).wf(),
        ensures
            final(self).wf(),
            final(self)@ == old(self)@.send(player_id, msg@),
    {
        self.outbox.push((player_id, msg));
        assert(outbox_view(self.outbox@) =~= old(self)@.outbox.push((player_id, msg@)));
    }

    /// Sends the same message to each listed player, in order.
    pub fn send_to_players(&mut self, player_ids: &Vec<u128>, msg: ServerMessage)
        requires
            old(self).wf(),
        ensures
            final(self).wf(),
            final(self)@ == old(self)@.send_all(player_ids@, msg@),
    {
        let ghost s0 = self@;
        let mut i: usize = 0;
        while i < player_ids.len()
            invariant
                0 <= i <= player_ids.len(),
                self.wf(),
                self@ == s0.send_all(player_ids@.take(i as int), msg@),
            decreases player_ids.len() - i,
        {
            let m = msg.copy();
            self.send_to(player_ids[i], m);
            assert(player_ids@.take(i + 1).map_values(|id: u128| (id, msg@)) =~=
                player_ids@.take(i as int).map_values(|id: u128| (id, msg@)).push((player_ids@[i as int], msg@)));
            assert(self@.outbox =~= s0.send_all(player_ids@.take(i + 1), msg@).outbox);
            i = i + 1;
        }
        assert(player_ids@.take(player_ids@.len() as int) =~= player_ids@);
    }

    /// Sends an error message to a player.
    pub fn send_error(&mut self, player_id: u128, message: String)
        requires
            old(self).wf(),
        ensures
            final(self).wf(),
            final(self)@ == old(self)@.send(player_id, MessageView::Error { message: message@ }),
    {
        self.send_to(player_id, ServerMessage::Error { message });
    }

    /// Adds an entry at the end of the matchmaking queue.
    pub fn queue_lobby(&mut self, entry: QueueEntry)
        requires
            old(self).wf(),
        ensures
            final(self).wf(),
            final(self)@ == old(self)@.enqueue(entry@),
    {
        self.queueing_lobbys.push(entry);
        assert(queue_view(self.queueing_lobbys@) =~= old(self)@.queue.push(entry@));
    }

    /// Removes the first queue entry of a lobby, if there is one.
    pub fn dequeue_lobby(&mut self, lobby_id: u128)
        requires
            old(self).wf(),
        ensures
            final(self).wf(),
            final(self)@ == old(self)@.dequeue(lobby_id),
    {
        let ghost q = self@.queue;
        let mut i: usize = 0;
        while i < self.queueing_lobbys.len()
            invariant
                0 <= i <= self.queueing_lobbys.len(),
                self@ == old(self)@,
                self.wf(),
                q == self@.queue,
                forall|j: int| 0 <= j < i ==> #[trigger] q[j].lobby_id != lobby_id,
            decreases self.queueing_lobbys.len() - i,
        {
            if self.queueing_lobbys[i].lobby_id == lobby_id {
                proof {
                    assert(first_entry(q, lobby_id, i as int));
                    assert(queued(q, lobby_id));
                    let k = choose|k: int| first_entry(q, lobby_id, k);
                    if k < i {
                        assert(q[k].lobby_id != lobby_id);
                    }
                    if k > i {
                        assert(q[i as int].lobby_id != lobby_id);
                    }
                    assert(k == i);
                }
                self.queueing_lobbys.remove(i);
                assert(queue_view(self.queueing_lobbys@) =~= q.remove(i as int));
                assert(self@.players == old(self)@.players);
                assert(self@.lobbys == old(self)@.lobbys);
                assert(self@.waiting == old(self)@.waiting);
                assert(self@.ongoing == old(self)@.ongoing);
                assert(self@ =~= old(self)@.dequeue(lobby_id));
                return;
            }
            i = i + 1;
        }
        assert(!queued(q, lobby_id));
    }

    /// Sets the status of the listed players that are connected.
    pub fn update_players_status(&mut self, player_ids: &Vec<u128>, status: PlayerStatus)
        requires
            old(self).wf(),
        ensures
            final(self).wf(),
            final(self)@ == old(self)@.set_players_status(player_ids@, status),
    {
        let ghost s0 = self@;
        let n = self.players.len();
        let mut i: usize = 0;
        while i < n
            invariant
                n == self.players.len(),
                0 <= i <= n,
                s0.players.len() == n,
                forall|j: int| 0 <= j < i ==> #[trigger] self.players@[j]@ == set_status(s0.players, player_ids@, status)[j],
                forall|j: int| i <= j < n ==> #[trigger] self.players@[j] == old(self).players@[j],
                self.total_player == old(self).total_player,
                self.lobbys == old(self).lobbys,
                self.queueing_lobbys == old(self).queueing_lobbys,
                self.waiting_games == old(self).waiting_games,
                self.ongoing_games == old(self).ongoing_games,
                self.settings == old(self).settings,
                self.debug_avg_queue_time == old(self).debug_avg_queue_time,
                self.debug_successful_match_rate == old(self).debug_successful_match_rate,
                self.outbox == old(self).outbox,
                s0 == old(self)@,
            decreases n - i,
        {
            assert(s0.players[i as int] == old(self).players@[i as int]@);
            if ids_contains(player_ids, self.players[i].id) {
                self.players[i].status = status;
            }
            assert(self.players@[i as int]@ == set_status(s0.players, player_ids@, status)[i as int]);
            i = i + 1;
        }
        assert(self@.players =~= set_status(s0.players, player_ids@, status));
        proof {
            let ps = self@.players;
            assert forall|a: int, b: int|
                0 <= a < ps.len() && 0 <= b < ps.len() && a != b implies #[trigger] ps[a].key() != #[trigger] ps[b].key() by {
                assert(ps[a].id == s0.players[a].id);
                assert(ps[b].id == s0.players[b].id);
                assert(s0.players[a].key() != s0.players[b].key());
            }
        }
        assert(self@ =~= s0.set_players_status(player_ids@, status));
    }

    /// Sets the status of a lobby and of each of its players; nothing happens
    /// when there is no such lobby.
    pub fn update_lobby_status(&mut self, lobby_id: u128, status: PlayerStatus)
        requires
            old(self).wf(),
        ensures
            final(self).wf(),
            final(self)@ == old(self)@.set_lobby_status(lobby_id, status),
    {
        match self.find_lobby(lobby_id) {
            None => {},
            Some(i) => {
                let ghost s0 = self@;
                let ghost l = s0.lobbys[i as int];
                self.lobbys[i].status = status;
                let ids = copy_ids(&self.lobbys[i].players);
                proof {
                    assert(lobbys_view(self.lobbys@) =~= s0.lobbys.update(i as int, LobbyView { status, ..l }));
                    lemma_unique_update(s0.lobbys, i as int, LobbyView { status, ..l });
                    assert(self@ == StateView {
                        lobbys: replace_key(s0.lobbys, lobby_id, LobbyView { status, ..l }),
                        ..s0
                    });
                }
                self.update_players_status(&ids, status);
            },
        }
    }

    /// Records a newly connected player, replacing any record with the same
    /// identifier; a player new to the server increases the player count.
    pub fn connect_player(&mut self, player: Player, is_new: bool)
        requires
            old(self).wf(),
            is_new ==> old(self)@.total_player < usize::MAX,
        ensures
            final(self).wf(),
            final(self)@ == old(self)@.connect(player@, is_new),
    {
        let ghost s0 = self@;
        let ghost pv = player@;
        proof {
            lemma_unique_insert(s0.players, pv);
        }
        match self.find_player(player.id) {
            Some(i) => {
                proof {
                    lemma_key_index(s0.players, i as int);
                }
                self.players.set(i, player);
                assert(self@.players =~= s0.players.update(i as int, pv));
            },
            None => {
                self.players.push(player);
                assert(self@.players =~= s0.players.push(pv));
            },
        }
        if is_new {
            self.total_player = self.total_player + 1;
        }
        assert(self@ =~= s0.connect(pv, is_new));
    }
}

} // verus!
