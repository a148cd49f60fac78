# tcbs

The rules of a small discussion board and of its HTTP client, written in Verus
and proved against their contracts.

- `src/board/` — the board's decisions: who may post and how fast, who sees a
  queued or draft subject, invitations and mailed codes, reports, bans and
  warnings, reactions and what they do to a score, polls, images, tags that
  stand for other tags, the archive by month, and paging.
- `src/client/` — what the client sends and reads: addresses with escaped
  path steps, search criteria, the session cookie, how an answer is classed,
  error texts, and setting remarks into a thread.
- `src/text.rs` — byte and character helpers the rest builds on.
- `app/` — ordinary Rust around the library: the `reqwest` client that sends
  the requests, serde copies of the wire types, and the awaited mail and
  challenge ports. The server's use cases (posting, sweeping an address,
  resetting a password and the rest) are not run here: their storage ports
  are built on the board's `domain` types, which this crate does not hold.
  Each use case's decision is a verified function in `src/board/`, taking
  what the storage answered as plain values.
- `tests/` — tests of the library on concrete values.

Calendar arithmetic (the month of a moment read at its offset, the first
moment of a month) is
done by the `time` crate behind two small trusted functions in
`src/board/archive.rs`, and appending a character to a `String` behind one in
`src/text.rs`; everything else in `src/` is verified.
