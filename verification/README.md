# matrix_ircd

The logic of a gateway between IRC clients and a Matrix homeserver, written and
verified in Verus.

- `src/irc/` holds the lines of an IRC connection (`transport`), the replies and
  commands that the gateway knows (`protocol`), and the IRC user's side of a
  session (`user`).
- `src/matrix.rs` and `src/matrix/` hold a session with a homeserver: requests,
  answers, rooms and links to media.
- `src/bridge.rs` and `src/bridge/` map rooms and users onto channels and nicks,
  and pass messages on in both directions.
- `src/stream_fold.rs` folds a stream into a state.
- `src/table.rs`, `src/text.rs`, `src/poll.rs` and `src/io_error.rs` are what the
  rest is built from.

Proof functions whose names begin with `law_` state and prove what holds of several
functions together. Most stand in the files named `laws.rs` and `transport_laws.rs`.

Nothing under `src/` performs input or output. Each function that would have to
says what is to be done next, and takes in what came of it; `app/` does it, with
sockets, tasks and the homeserver's API.
