# Onyx

The logic of a Tor messenger: a daemon that talks to peers and rooms over MLS, and
the relay hub that keeps envelopes for those who are away. It is written in Verus,
so that every function of the library is proved against its contract.

## Layout

- `src/` is the library.
  - `replay_guard`, `conversations`, `pending`, `roster`, `session`, `peer_groups`:
    what the daemon keeps, how it answers what arrives, and which group it goes on
    with.
  - `files/`: names, metadata, transfers and where received files go.
  - `api/`: the local API: checks on requests, the order of the calls behind each,
    what each call is handed, and what a request is answered with.
  - `hub_client`, `daemon`: sessions with hubs, and how the daemon starts.
  - `hub/`: the hub: routing state, journal, store, rate limits, frames and gossip.
  - `codec`, `text`, `bytes`, `list_map`, `host_port`, `clock`, `channel`, `room`,
    `reporter`: what the rest is built on.
- `tests/` runs the library on given values.
- `app/` is the program around it: arguments, sockets, Tor, MLS, the vault and the
  hub's database.

Contracts speak of views: sequences, maps and small model types. Proof functions
whose names begin with `law_` state what holds across functions, such as that
whatever is queued for an absent subscriber comes out once and in order, that a
restart keeps it, that every send of a request is one of its plan, or that no call
follows a step that failed.

Calls into other crates stand behind small functions marked `external_body`, each
with a comment on what is taken for granted. Where a call has an effect, such as an
offer to a channel, or an outcome that nobody can foretell, such as a reading of a
clock, it is noted in a `channel::Record`. A record takes no room at run time; it lets
a contract say what was sent, to whom, what became of it, or what the clock said.
