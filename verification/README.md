# bridge_pool

A pool of connections to downstream language servers. One editor talks to many
servers: regions of a host document in other languages become virtual documents,
each of which goes to the servers of its language. The pool decides which
connection a document goes to, when a server is started, replaced or shut down,
what each server has been told, and what becomes of requests and cancellations.

* `src/` is the verified library. It holds plain state and never waits. Each
  operation takes what happened (a message was queued, an answer came, time ran
  out), changes the state and says what is to be done next.
* `tests/` runs the library on concrete values.
* `app/` is the running side: locks, queues, processes and timers. It performs
  what the library asks for and hands back what happened.

The state of each part has a mathematical view (`PoolView`, `HandleView`,
`OpeningView`, `TrackerView` and so on), and every contract says how one view
becomes the next. What holds across several operations is stated by the public
proof functions beside those views. `src/outside.rs` lists the functions of other
crates that the library relies on, with what it relies on.
