# game_server

The core of a small websocket game server, verified with Verus.

- `src/` is the verified library:
  - `map`: the tile grid and the tile kinds;
  - `msg`: the messages exchanged with clients;
  - `session`: per-client state with its incoming and outgoing message queues, and the
    table of sessions;
  - `handler`: the echo, ping and authentication handlers and the handling of a
    session's incoming queue;
  - `server`: the server state (connecting and dropping clients, the logic frame) and
    the decisions of its loops (network worker count and assignment, frame counting);
  - `update`: the logic thread's frame, which also collects what is to be sent;
  - `object`, `args`: game object kinds and update reports, the server settings.
- `app/` is the program around it: command line, JSON, websockets, tasks and timers, and
  the game objects, whose state is floating point.
- `tests/` exercises the library.
