# grpc_service

A task service (create, get, list, delete, watch, batch) whose logic is a
verified library, with the gRPC plumbing around it.

- `src/` — the library, verified with Verus:
  - `task_id.rs`: task ids `task-<n>`; formatting, parsing, and the proofs that
    ids are canonical and distinct.
  - `types.rs`: the messages (tasks, events, batch results, errors) and their views.
  - `store.rs`: the task store and its operations, specified over a map from
    ids to tasks and the id counter.
  - `laws.rs`: properties that span operations (fresh ids, read after create,
    read after delete).
  - `cli.rs`: the command-line role and the client's event labels.
- `app/` — the program: the gRPC wire messages and stubs, the async service
  (locking, event broadcast, streams) and the demonstration client.
- `tests/` — tests of the library.
