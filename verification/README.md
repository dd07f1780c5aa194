# meio

A lightweight asynchronous actor framework whose decision logic is verified
with Verus.

## Layout

- `src/` — the verified library. It holds the state machines that an actor
  runtime is made of, each with a contract over a mathematical model:
  - `lifecycle`: supervised children grouped in stages, the termination
    sequence over the groups, and the notifiers that interrupt children;
  - `actor_runtime`: the context of a running actor, the reaction of its
    event loop to each event, the order in which its queues are served, and
    the phases from spawning to the final notification of the supervisor;
  - `terminator`: a chain of stages terminated from the latest to the first;
  - `lite_runtime`: stop channels of tasks, task errors and the outcome of a
    repeatable routine;
  - `connect`: the WebSocket session (`talker`), the reconnecting client
    (`client`), and request routing and the server's address (`route`);
  - `id_map`, `ids`, `linkage`, `system`, `task` and a few small modules.
  `external` declares the outside types the library carries and the few
  outside calls it makes.
- `tests/` — tests of the library on concrete values.
- `app/` — the asynchronous runtime around the library, on `tokio`: actors
  and their addresses, lite tasks, the system supervisor, heartbeats,
  WebSocket sessions and clients, and the HTTP server. It performs the I/O
  and hands each event to the library's state machines.
