# srt_control

Control packets of SRT, and of UDT on which SRT is built: handshakes, acks, loss
reports, keep-alives and the like. `ControlPacket::parse` reads one from the front
of a byte slice, `ControlPacket::serialize` appends one to a byte vector. Both are
verified with Verus against a model of the packets as mathematical values.

- `src/control.rs`: the control packets
- `src/srt.rs`: SRT handshakes and key messages, as packets and as extensions of a
  handshake
- `src/numbers.rs`, `src/error.rs`: the small types
- `src/wire.rs`: big-endian numbers in byte sequences
- `src/buffer.rs`: the reads and writes that the `bytes` crate does
- `src/laws.rs`: what holds of the library as a whole, such as that a packet that is
  written reads back
- `src/canonical.rs`: which bytes come out the same when they are read and written
  again
- `app/`: the same for any `Buf` and `BufMut`, with `failure::Error`, the warnings in
  the log and the addresses of the standard library
