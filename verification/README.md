# stream_stuff_on_a_sozu_channel

A message channel over a unix stream, with its command messages.

- `src/` is the verified library:
  - `ready.rs`: readiness flags (readable, writable, error, hang-up) as bits of a `u16`.
  - `buffer.rs`: a growable byte buffer; its view is the data it holds.
  - `framing.rs`: messages on the wire end with a zero byte; finding and
    cutting out messages, and the laws that written messages read back whole and in order.
  - `channel.rs`: the channel: queuing messages in the back buffer, gathering
    received bytes in the front buffer, and the steps of reading and writing
    the stream, each taking in the outcome of the stream operation it asked for.
  - `command.rs`: requests and responses, and the server's answers.
  - `socket.rs`: the settings of a listening socket.
- `app/` runs the stream operations that the library asks for, encodes messages
  as JSON, binds sockets, and holds the example programs.
- `tests/` exercises the library on concrete values, over real socket pairs.
