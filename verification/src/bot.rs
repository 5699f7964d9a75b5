//! Decisions of the simulated players that load-test the server.

use vstd::prelude::*;

use crate::client::str_equal;

verus! {

/// Calls `rand::random_range` on the range `lo..hi`: a random number drawn
/// from the thread-local generator, which its documentation places in the
/// half-open range.
#[verifier::external_body]
pub(crate) fn random_below(lo: u64, hi: u64) -> (r: u64)
    requires
        lo < hi,
    ensures
        lo <= r < hi,
{
    rand::random_range(lo..hi)
}

/// A request a simulated player sends.
pub enum BotRequest {
    JoinLobby,
    SearchGame,
    /// Confirms the game, given the identifier text the server sent.
    ConfirmGame { game_id: String },
}

/// What a simulated player does after a message from the server.
pub enum BotReaction {
    /// Nothing.
    Ignore,
    /// Waits, then does nothing more.
    Wait { delay_ms: u64 },
    /// Closes the connection.
    Disconnect,
    /// Waits, then sends a request, over the degraded network when
    /// `constrained` holds.
    Send { delay_ms: u64, request: BotRequest, constrained: bool },
}

/// How the degraded network treats one message.
#[derive(Clone, Copy, Debug, PartialEq, Eq, Structural)]
pub enum NetPlan {
    Drop,
    Deliver { delay_ms: u64 },
}

/// Share (in percent) of confirmations that the degraded network loses.
pub const CONFIRM_LOSS_PERCENT: u32 = 35;

/// Largest delay (in milliseconds) the degraded network adds.
pub const CONFIRM_MAX_LATENCY_MS: u64 = 2000;

/// How long a simulated player that went offline stays away before it
/// reconnects: from 5 seconds to 2 minutes, at random.
pub fn offline_pause_secs() -> (s: u64)
    ensures
        5 <= s <= 120,
{
    random_below(5, 121)
}

/// How long a simulated player waits without any message from the server
/// before it disconnects: from 30 seconds to 2 minutes, at random.
pub fn idle_timeout_secs() -> (s: u64)
    ensures
        30 <= s <= 120,
{
    random_below(30, 121)
}

/// How long the simulator waits before starting the next simulated player:
/// from 10 up to (not including) 2000 milliseconds, at random.
pub fn startup_delay_ms() -> (d: u64)
    ensures
        10 <= d < 2000,
{
    random_below(10, 2000)
}

/// What the degraded network does with a message, given the drawn roll (out
/// of a hundred) and the drawn delay: the message is lost when the roll is
/// below the loss rate, and otherwise delivered after the drawn delay (no
/// delay when `max_latency_ms` is 0).
#[verifier::allow_in_spec]
pub fn plan_from_draws(roll: u64, delay: u64, loss_rate_percent: u32, max_latency_ms: u64) -> NetPlan
    returns
        (if roll < loss_rate_percent {
            NetPlan::Drop
        } else {
            NetPlan::Deliver { delay_ms: if max_latency_ms > 0 { delay } else { 0 } }
        }),
{
    if roll < loss_rate_percent as u64 {
        NetPlan::Drop
    } else if max_latency_ms > 0 {
        NetPlan::Deliver { delay_ms: delay }
    } else {
        NetPlan::Deliver { delay_ms: 0 }
    }
}

/// Decides what the degraded network does with a message: a roll from 0 to
/// 99 and a delay from 10 up to `max_latency_ms` are drawn at random, and
/// `plan_from_draws` decides from them.
pub fn network_plan(loss_rate_percent: u32, max_latency_ms: u64) -> (p: NetPlan)
    requires
        max_latency_ms == 0 || max_latency_ms > 10,
    ensures
        exists|roll: u64, delay: u64|
            roll < 100 && (max_latency_ms == 0 || 10 <= delay < max_latency_ms)
                && p == plan_from_draws(roll, delay, loss_rate_percent, max_latency_ms),
{
    let roll = random_below(0, 100);
    let delay = if max_latency_ms > 0 { random_below(10, max_latency_ms) } else { 0 };
    let p = plan_from_draws(roll, delay, loss_rate_percent, max_latency_ms);
    assert(roll < 100 && (max_latency_ms == 0 || 10 <= delay < max_latency_ms) && p == plan_from_draws(
        roll,
        delay,
        loss_rate_percent,
        max_latency_ms,
    ));
    p
}

/// How many games a simulated player plays in one session before it
/// disconnects: from 1 to 8, at random.
pub fn session_game_quota() -> (q: u64)
    ensures
        1 <= q <= 8,
{
    random_below(1, 9)
}

/// What a simulated player does when told it is idle, given how many games
/// it played this session and its quota for the session, and the drawn
/// choice (out of a hundred), break length in seconds and short pause in
/// milliseconds: once the quota is reached it disconnects; otherwise in 10
/// cases out of 100 it disconnects, in 20 it searches again after the
/// break, and otherwise after the short pause.
#[verifier::allow_in_spec]
pub fn idle_reaction(games_played: u64, quota: u64, choice: u64, break_secs: u64, short_ms: u64) -> BotReaction
    requires
        break_secs <= u64::MAX / 1000,
    returns
        (if games_played >= quota || choice < 10 {
            BotReaction::Disconnect
        } else if choice < 30 {
            BotReaction::Send { delay_ms: (break_secs * 1000) as u64, request: BotRequest::SearchGame, constrained: false }
        } else {
            BotReaction::Send { delay_ms: short_ms, request: BotRequest::SearchGame, constrained: false }
        }),
{
    if games_played >= quota || choice < 10 {
        BotReaction::Disconnect
    } else if choice < 30 {
        BotReaction::Send { delay_ms: break_secs * 1000, request: BotRequest::SearchGame, constrained: false }
    } else {
        BotReaction::Send { delay_ms: short_ms, request: BotRequest::SearchGame, constrained: false }
    }
}

/// What a simulated player does when a game is found, given the drawn
/// choice (out of a hundred) and delay: in 10 cases out of 100 it ignores
/// the game (it is away); otherwise it confirms the game after the delay,
/// over the degraded network when `packet_loss` holds. Without a game
/// identifier it only waits.
#[verifier::allow_in_spec]
pub fn found_game_reaction(choice: u64, delay_ms: u64, game_id: Option<String>, packet_loss: bool) -> BotReaction
    returns
        (if choice < 10 {
            BotReaction::Ignore
        } else {
            match game_id {
                Some(g) => BotReaction::Send {
                    delay_ms,
                    request: BotRequest::ConfirmGame { game_id: g },
                    constrained: packet_loss,
                },
                None => BotReaction::Wait { delay_ms },
            }
        }),
{
    if choice < 10 {
        BotReaction::Ignore
    } else {
        match game_id {
            Some(g) => BotReaction::Send { delay_ms, request: BotRequest::ConfirmGame { game_id: g }, constrained: packet_loss },
            None => BotReaction::Wait { delay_ms },
        }
    }
}

/// What a simulated player does on a server message of type `msg_type`,
/// carrying the game identifier text `game_id` (for a found game) and the
/// status text `status` (for a status update), having played
/// `games_played` games of its session quota `quota`; `packet_loss` sends
/// confirmations over the degraded network. The random draws are made here
/// and handed to `found_game_reaction` and `idle_reaction`.
pub fn bot_reaction(
    msg_type: &str,
    game_id: Option<String>,
    status: &str,
    packet_loss: bool,
    games_played: u64,
    quota: u64,
) -> (r: BotReaction)
    ensures
        msg_type@ == "Welcome"@ ==> (r matches BotReaction::Send { delay_ms, request: BotRequest::JoinLobby, constrained: false }
            && 500 <= delay_ms < 2000),
        msg_type@ == "LobbyJoined"@ ==> (r matches BotReaction::Send { delay_ms, request: BotRequest::SearchGame, constrained: false }
            && 1000 <= delay_ms < 4000),
        msg_type@ == "GameFound"@ ==> exists|choice: u64, delay_ms: u64|
            choice < 100 && 300 <= delay_ms <= 8000 && r == found_game_reaction(choice, delay_ms, game_id, packet_loss),
        msg_type@ == "StatusUpdate"@ && status@ == "Idle"@ ==> exists|choice: u64, break_secs: u64, short_ms: u64|
            choice < 100 && 30 <= break_secs < 120 && 1500 <= short_ms < 4000
                && r == idle_reaction(games_played, quota, choice, break_secs, short_ms),
        !(msg_type@ == "Welcome"@ || msg_type@ == "LobbyJoined"@ || msg_type@ == "GameFound"@ || (msg_type@
            == "StatusUpdate"@ && status@ == "Idle"@)) ==> r is Ignore,
{
    proof {
        reveal_strlit("Welcome");
        reveal_strlit("LobbyJoined");
        reveal_strlit("GameFound");
        reveal_strlit("StatusUpdate");
        assert("Welcome"@.len() == 7);
        assert("LobbyJoined"@.len() == 11);
        assert("GameFound"@.len() == 9);
        assert("StatusUpdate"@.len() == 12);
    }
    if str_equal(msg_type, "Welcome") {
        let delay_ms = random_below(500, 2000);
        BotReaction::Send { delay_ms, request: BotRequest::JoinLobby, constrained: false }
    } else if str_equal(msg_type, "LobbyJoined") {
        let delay_ms = random_below(1000, 4000);
        BotReaction::Send { delay_ms, request: BotRequest::SearchGame, constrained: false }
    } else if str_equal(msg_type, "GameFound") {
        let choice = random_below(0, 100);
        let delay_ms = random_below(300, 8001);
        let ghost g = game_id;
        let r = found_game_reaction(choice, delay_ms, game_id, packet_loss);
        assert(choice < 100 && 300 <= delay_ms <= 8000 && r == found_game_reaction(choice, delay_ms, g, packet_loss));
        r
    } else if str_equal(msg_type, "StatusUpdate") && str_equal(status, "Idle") {
        let choice = random_below(0, 100);
        let break_secs = random_below(30, 120);
        let short_ms = random_below(1500, 4000);
        let r = idle_reaction(games_played, quota, choice, break_secs, short_ms);
        assert(choice < 100 && 30 <= break_secs < 120 && 1500 <= short_ms < 4000 && r == idle_reaction(
            games_played,
            quota,
            choice,
            break_secs,
            short_ms,
        ));
        r
    } else {
        BotReaction::Ignore
    }
}

} // verus!
