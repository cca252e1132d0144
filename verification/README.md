# csqtt

A tunnel whose packets look like media streams. A server keeps sessions with clients, each of
which runs several streams through relays; packets are wrapped as SRTP, or as RTP with
ChaCha20-Poly1305, and IP packets travel inside.

`src/` is the verified library. It decides and computes, and has no sockets, timers or locks:

| part | modules |
| --- | --- |
| the wire | `rtp`, `wire`, `replay`, `crypto`, `bytes`, `text`, `control`, `getconf` |
| the server's data path | `engine` (`commands`, `upkeep`, `downlink`, `laws`), `session`, `stream`, `effect`, `endpoint`, `slots` |
| the server's control side | `desk`, `registry`, `admission`, `access`, `credentials`, `epoch`, `traffic`, `model` |
| the client | `dispatcher`, `scheduler`, `queue`, `class`, `tun` |
| for observers | `dpi`, `perf`, `diagnostics` |

Every type that is more than plain values has a view, and every function says over these views
what it does. The properties
that span functions are public proof functions next to what they speak of; those of the engine
are in `engine/laws.rs`.

What the library takes from other crates, it calls behind small functions whose contracts are
trusted: the ciphers, random numbers and constant-time comparison in `crypto`, the slab in
`slots`, the concurrent maps in `registry` and `credentials`, the bounded queue in `queue`, and
a few functions of the standard library in `text` and `dpi`.

`app/` is ordinary Rust around the library: the loops that read and write, the timers, the
locks, and what observers are sent over their ports. What it needs from the program that it
runs in stands in `app/host.rs` as traits.

`tests/` runs the library with the real crates.
