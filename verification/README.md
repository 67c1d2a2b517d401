# reversi_server

A Reversi (Othello) match server: free matches between connected clients,
room tournaments (round robin, several rounds, computer players allowed),
games against the Egaroucid engine or a random player, and a web lobby with
the history of finished games.

## Layout

- `src/` — the library, verified with Verus.
  - `game/` — colours, moves and their text form, the board and its rules
    (legal moves, flips, stone counts), with the laws of play in
    `board_laws.rs`.
  - `protocol/` — the line protocol: parsing client lines, writing server
    commands.
  - `ai/` — the random player and what the engine is asked and how its
    answer becomes a move.
  - `server/` — the running match (`match_runner.rs`: a state machine from
    the move played to the next state and the messages to send), the
    free-match queue with its cooldowns, rooms and tournament standings,
    the round-robin schedule, the waiting queue for games against a web
    player, the registry of matches in progress and the history.
- `app/` — the program around the library: the web server and WebSocket
  endpoints, the TCP endpoints, the tasks that wait for moves and run
  matches and tournaments, the JSON forms of the lobby and history, and the
  engine's C interface.
- `tests/` — tests of the library.
