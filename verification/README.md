# matchflow

A matchmaking server for team games: players connect, gather in lobbies,
queue, get matched against another lobby, confirm, play and see their
ratings move. A simulator drives it with bots and a small client lets a
person play by hand.

- `src/` is the verified library (Verus). `app_state` holds the server
  state and every rule that changes it: lobbies (`lobby`), requests
  (`game`), matchmaking (`matchmaking`), confirmations (`confirmation`),
  the end of games (`simulation`) and the dashboard figures (`dashboard`).
  `laws` states and proves what holds across operations, `client` parses
  the client's commands, `bot` holds the simulated players' decisions,
  `rank` the rating tiers and `ids` the calls into `uuid`, `names` and
  `serde_json` (stored identifier lists).
- `app/` is the program around it: the WebSocket server (axum), SQLite
  persistence (sqlx), the simulator and the client (tokio-tungstenite), and
  the floating-point parts (matchmaking thresholds, Elo updates, game
  scores).
- `tests/` runs the library on concrete scenarios.
