# fallegji

A serverless terminal chat: peers meet through a rendezvous address, then talk over
encrypted TCP frames and keep their chat databases in step.

The library (`src/`) holds the chat's logic, verified with Verus:

- `auth`: roles, users and the ids derived from a peer's key, name and account.
- `crypto`, `clock`: the calls into the cryptography, compression and clock crates, each
  behind a small contract.
- `connection`: the frame format (`frame`), peers and their keys (`peer`), the peer table
  (`peermap`), the rate limit, the join handshake (`rendezvous`), database syncs (`dbsync`,
  `roster`) and the routing of received frames (`dispatch`).
- `messaging`, `db`: messages, chats, and what saving rows to the database does.
- `config`: the configuration file's model, loading and saving a chat's section.
- `vim`, `ui_screens`: the vim-style input line and what each key does on each screen.
- `text`, `order`: text and ordering primitives the rest is written with.

`app/` is the program around it: the terminal interface, the network loops, the SQLite store
and the configuration file on disk.
