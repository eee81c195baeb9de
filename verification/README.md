# game_world

A sharded game world kept by a raft cluster of user nodes and compute nodes.

`src/` is the library, verified with Verus:

- `node`: cluster members and their addresses.
- `slot`: the world grid, the slot table that assigns slots to compute
  nodes, the rectangle of slots covering an area, and grouping slots by node.
- `request`, `user`: the requests a user gathers for the next step and the
  append-only log of steps that compute nodes catch up on.
- `socket_id`: node identifiers packed from IPv4 socket addresses.
- `store`: the raft log kept in order of index, the replicated state machine
  that moves slots between nodes, and snapshot identifiers.
- `network`, `compute`: where raft messages go, when an unreachable member is
  dropped, and where a user goes after a step.

`app/` is the server around it: HTTP handlers, the openraft storage and
network adapters, JSON snapshots, and the floating-point geometry of
positions, which reaches the library as grid cells.
