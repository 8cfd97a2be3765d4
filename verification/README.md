# campaign

The decision logic of a campaign server for a tabletop-RPG notebook, verified
with Verus: the shard's routing table, each campaign supervisor's lifecycle,
page and session creation, the table of contents and its persistence, the
relationship graph, and the configuration it starts from.

The server itself is a set of actors that talk to a database, to each other and
to a platform service. Here every actor's decisions are a state machine or a
pure function with a contract: a handler that awaits and decides in turn
becomes a *flow* (`CreatePageFlow`, `CreateSessionFlow`,
`CreateRelationshipFlow`, `ApplyOpFlow`, `DrainRun`) whose each step takes the
answer to the last outside request and names the next one. The runtime that
would perform those requests (actors, database access, WebSocket rooms,
timers) is not part of this crate: `app/` holds only reading the environment
and the HTTP client for the platform.

## Layout

- `src/` — the verified library.
  - `registry.rs`: the routing table and its checkout, load, release, death
    and drain transitions, with the laws that tie them together.
  - `supervisor.rs`: stop causes and lifecycle, page-room bookkeeping, room
    routing, page and session creation flows, teardown order.
  - `page_room.rs`, `toc_room.rs`: page and ToC rooms — occupancy, genesis,
    flushes, node pushes, restoring the ToC from its rows.
  - `toc.rs`: the ToC tree, snapshots to rows and back, topological order.
  - `relationship.rs`: the in-memory relationship graph (a `petgraph`
    stable graph behind trusted wrappers), canonical edges, creation and op
    flows.
  - `database_writer.rs`: the single writer's row-level decisions.
  - `persist.rs`: the debounced write-back state machine.
  - `config.rs`, `platform.rs`, `ids.rs`, `text.rs`: configuration parsing,
    platform calls, identifiers (`ulid`), trimming.
- `tests/` — tests of the library from outside.
- `app/` — reading the environment and the HTTP client for the platform.
