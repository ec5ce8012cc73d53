# russh

The verified core of an SSH server connection, written in Verus.

- `src/encrypted.rs`, `src/channel.rs`: an encrypted session, its queue of
  packets, and the flow control of its channels.
- `src/kex.rs`, `src/session.rs`: the states of a key exchange, and the state of
  a connection before and after it is encrypted.
- `src/server/`: the configuration of a server, the beginning of a connection,
  what becomes of each packet until it is encrypted, and the defaults of a
  server.
- `src/wire.rs`, `src/be32.rs`: the mathematical model of the bytes on the wire.
- `src/buffer.rs`, `src/time.rs`: what is relied on of other crates and of the
  clock.
- `src/laws.rs`: what holds across operations. No byte of a channel is lost,
  added or reordered, windows and packet sizes are respected, and packets are
  sent once, in the order in which they were queued.

Ciphers, key exchange algorithms and compression are not part of the library. A
`Suite` names their types, and the functions that need them take them as
arguments.

`app/` is the asynchronous side: sockets, tasks, and the `Handler` that a user of
the server implements. Its `Protocol` supplies the algorithms.
