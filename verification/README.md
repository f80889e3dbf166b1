# proto

A 9P (Plan 9 file protocol) message library, verified with Verus.

- `src/wire.rs`: little-endian integers and length-prefixed UTF-8 strings, with readers that
  advance a byte slice and writers that append to a `Vec<u8>`.
- `src/header.rs`, `src/fcall.rs`: the message header and type numbers, and the `Fcall`
  trait that every message implements (`set_header`, `get_tag`, `compose`, `parse`).
- `src/version.rs`, `src/attach.rs`, `src/walk.rs`, `src/open.rs`, `src/read.rs`,
  `src/clunk.rs`, `src/error.rs`, `src/qid.rs`: the messages. Each states the bytes it
  composes and what it parses, and proves that parsing composed bytes gives the message back
  (for Twalk and Rwalk when the count field counts the names or qids; Rread when nothing
  follows its data) and that composing a parsed message gives the bytes back. Rattach is
  parsed but not composed.
- `src/message.rs`: `Message`, built from a header type and the bytes after the size field,
  and `Message::from_frame`, which reads the header and builds the message.
- `src/session.rs`: a client's fid and tag pools (a fid or tag in use is never handed out
  again; fid 0 and tag 0 never are), path splitting, the requests it builds, the decisions on
  the replies (a walk succeeds only when every name got a qid), and reads into a buffer.
- `app/main.rs`: a client over TCP that uses the library.
