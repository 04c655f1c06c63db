# network_semaphore

A semaphore that a server holds for clients over TCP: a client asks for a
hold, gets an identifier back, and gives the hold up with it; the server
shuts the machine down once the last hold is gone.

- `src/` is the verified library (Verus):
  - `packet` — request and response packets and their byte form, with
    proofs that what is written reads back;
  - `server` — the set of holds a server has granted and how each request
    changes and answers it;
  - `client` — a client's table of locks, one per server, shared by local
    holders;
  - `collections`, `ids`, `wire` — the `dashmap`, `uuid` and `bincode`
    calls the library makes, with their contracts.
- `app/` is the program around it: command line, TCP framing, timers,
  saving state as JSON.
- `tests/` runs the library on concrete values.
