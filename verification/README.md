# gstzenoh

The logic of three GStreamer elements that carry buffers over Zenoh —
`zenohsink` (publish), `zenohsrc` (subscribe) and `zenohdemux` (one dynamic
pad per key expression) — written in Verus, with its behaviour stated in
`requires`/`ensures` contracts and proved.

## Layout

- `src/` — the verified library.
  - `metadata.rs`, `metadata/keys.rs` — the `key=value` attachment format that
    carries caps, buffer timing, compression and user metadata; builder and
    parser, with the round trip between them proved.
  - `compression.rs` — the self-describing compression frame around zstd,
    lz4 and gzip payloads.
  - `receive.rs` — decoding a received sample (metadata, decompression, NTP
    timestamps).
  - `uri.rs`, `text.rs` — `zenoh:` URIs, percent-encoding, numerals and other
    text helpers.
  - `zenohsink.rs`, `zenohsrc.rs`, `demux.rs` — each element's settings, URI
    form, state machine and data-path decisions.
  - `session.rs` — the reference-counted registry of shared sessions.
  - `connectivity.rs` — the open-transport count behind the `connected` flag.
  - `element.rs`, `error.rs` — property values, session sources and the error
    messages and flow errors the elements report.
- `tests/` — tests run against the compiled library.
- `app/` — the GStreamer and Zenoh plumbing around the library: element
  registration, GObject properties, threads, sessions and I/O.
