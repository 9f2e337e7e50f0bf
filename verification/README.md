# tuwunel

Parts of a Matrix homeserver, written in Verus: what they return and change is stated in
contracts, and Verus proves it.

- `src/` is the library.
  - `identifiers`, `content`, `event`, `error`, `text`, `collections`: what events are made of.
  - `store`, `samples`, `resolution`: a store of events with its auth chains, and the sample rooms
    whose states are to be resolved.
  - `incoming`: the state of a room before an incoming event.
  - `services`: how the services are registered, built, started and stopped, and what is asked of
    all of them.
  - `unix_socket`: how a socket is opened, served and closed.
  - `map`: the keys to be removed from a map of the database.
- `tests/` runs the library.
- `app/` carries out what the library asks for: sockets, files, tasks and the services themselves.

Work that waits for something outside is a state machine: a function starts it and hands out a
request, and `step` takes the reply and hands out the next one. The spec functions `awaits` and
`next` (or `goes_to`, where an order is left open) say which replies are taken and what follows.

What is believed without proof are the functions marked `#[verifier::external_body]`; each says in
its comment what it claims of the outside function that it calls.
