# Rukkit

A Minecraft Java Edition 26.2 server core (protocol 776) in Rust, with its logic
verified by Verus.

```
src/protocol/   wire format: varint, NBT, text, framing, compression, encryption, packets
src/world/      bit storage, paletted containers, chunks, heightmaps, generation
src/server/     configuration, players, status document, tick metrics, connection state machine
app/            the binary: sockets, timers, files, logging, floating point
tests/          what the library does on concrete values
```

Every function of `src/` says in its contract what it returns or changes, and is
proved to do so. Functions named `law_..` state what holds of several of them
together: that what is written is read back, that a packet comes out of a decoder
as it went into an encoder, that a stored block is found again, that the server
never holds more players than it admits.

## What is taken on trust

Calls into other crates stand behind small functions whose contracts are believed:

- `bytes`: what a buffer holds, in `protocol/buffer.rs`
- `flate2`: that deflating succeeds where there is room, and that a stream inflates to what
  was deflated, in `protocol/zlib.rs`
- `aes` and `cfb8`: one byte of keystream, in `protocol/crypt.rs`
- `serde_json`: quoting a string and writing a number, in `protocol/json.rs`
- `uuid`: the text of a UUID, in `protocol/types.rs`
- `md-5`: a digest, in `server/player.rs`
- a few functions of `std` on strings and characters, where they are used

## The connection state machine

A `Session` takes a packet and what the connections share, and says what to reply
and whether the connection is over. A `Connection` adds the codec, whose
compression and encryption switch at exactly the right byte. Neither touches a
socket: `app/` reads, writes and waits.

## Running

The binary takes the path of its configuration, `rukkit.toml` by default, and
writes one with the defaults if there is none. Logging follows `RUST_LOG`.

```toml
bind = "0.0.0.0:25565"
motd = "A Rukkit server"
max_players = 20
view_distance = 10
compression_threshold = 256          # negative disables
online_mode = false                  # not implemented; login is refused when true
login_finished_flag = "send-false"   # or "omit", "send-true"
tick_rate = 20
flat_world = true
```
