# hqm_server

A game server for the ice hockey game HQM, written and proved in Verus.

- `src/` is the server: the wire format, the players, the chat and its commands,
  the updates that clients are sent, the replay, and the simulation step as far
  as the server has a part in it. Every function has a contract over the contents
  of the server (`ServerView`) or over bit strings.
- `src/laws.rs`, `src/readback.rs`, `src/invariants.rs`, `src/player_laws.rs`,
  `src/chat_laws.rs` and `src/game_laws.rs` state what holds of the whole.
- `tests/` runs the library on concrete values.
- `app/` holds what is left: sockets, timers, files, logging, and the arithmetic
  in floating point.

Numbers in floating point pass through the library as bit patterns. Times are
nanoseconds of a clock that the caller chooses. The movement of the objects on the
ice and the administration of the server are the caller's: `start_tick` and
`handle_message` say when their turn is.
