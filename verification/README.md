# freight

A data/asset server for a game client: it answers requests for icons,
effects, maps, NPC templates, backgrounds, tile sets and version files over a
small binary TCP protocol protected by a XOR stream cipher.

The library under `src/` is verified with Verus:

- `protocol` — packet framing, the XOR key stream and key chaining, the
  big-endian payload reader and writer, and the response builder.
- `session` — per-connection state: decoding client frames, the key exchange,
  the zoom handshake, the sliding-window rate limiter.
- `handler` — which file a request names and what is sent back.
- `data` — the file cache with least-recently-used eviction, the index of
  images by name, version files.
- `session_mgr`, `metrics` — session bookkeeping and server counters.
- `config`, `text` — configuration, path templates, decimal text.
- `buffer`, `table`, `clock` — the calls into `bytes`, `dashmap` and the
  system clock, with the contracts the rest relies on.

`app/` holds the TCP server around the library: sockets, files, the
configuration file, logging and the floating-point statistics.
