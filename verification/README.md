# mumbot

The protocol side of a Mumble voice bot, verified with Verus.

- `src/` is the library: varints, control packets and the messages in them, voice packets, the
  state of a conversation, the handshake, and how sound is cut into packets and put together again.
  Each function states what it returns. Where that rests on the clock or on chance, it states what
  holds of every outcome, and a function beside it takes the outcome as an argument and is exact.
  Laws that span functions stand beside them as proof functions.
- `app/` is the program around it: sockets, TLS, timers, the Opus codec, the cipher of the voice
  channel, the microphone and the loudspeakers.
- `tests/` runs the library on concrete values.

Calls into other crates from `src/` go through a few trusted functions. They stand in `clock.rs`
(`chrono`, `rand`), `gst.rs` (`byte-slice-cast`), `network.rs` and `pcm.rs` (`byteorder`), and
`wire.rs` (`protobuf`). Each says in its comment what is claimed of the call.
