# colyseus

A multiplayer game server: rooms with synchronized state, matchmaking, reconnection,
snapshots and an admin API, and three kinds of room on top of it (trivia, tic-tac-toe,
chat).

- `src/` is the library. It holds every decision of the server as functions on plain
  values, with contracts that Verus proves.
- `app/` is the program around it: tasks, sockets, HTTP, files, Redis, the language model.
- `tests/` runs the library.

## The library

| Modules | What they are about |
| --- | --- |
| `json`, `value`, `text`, `table` | JSON documents, texts and ordered tables |
| `pointer`, `diff`, `diff_laws`, `state` | JSON-Patch between two states, state edits |
| `wire`, `protocol` | msgpack frames |
| `query`, `filter`, `sorting`, `driver`, `paging` | room listings and queries over them |
| `client`, `room`, `context`, `routes`, `actor`, `events`, `lifecycle`, `command` | a room and what happens in it |
| `handler`, `matchmaker`, `joining`, `creation`, `server`, `idempotency` | room types, matchmaking, HTTP |
| `snapshot`, `checksum`, `presence`, `admin`, `utils`, `error` | persistence, shared values, the admin API |
| `tictactoe`, `trivia` | the games |

A room never waits inside of the library. A step that has to ask somebody (a hook of the
room, a socket, a store) ends with what is to be done, and a later step takes what came of
it. Times are arguments, in milliseconds; a room's clock runs in nanoseconds.

What the library has from other crates stands behind small functions whose contracts are
believed: `serde_json`, `rmp_serde`, `serde_bytes`, `dashmap`, `crc32fast`, `nanoid`.

## Running

`GAME_SECRET`, `ADMIN_TOKEN`, `LLM_API_KEY`, `LLM_BASE_URL`, `LLM_MODEL` and `REDIS_URL`
configure the server, which listens on port 2568.
