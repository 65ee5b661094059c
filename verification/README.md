# yasmine

The logic of a local music player and its LAN sync, written in Verus: every
function under `src/` carries a contract that Verus proves.

- `src/fracidx.rs`: fractional keys that order playlist items.
- `src/queue.rs`: the play queue (shuffle, repeat, next/previous).
- `src/index/`: the library index: search queries and text folding, scan
  planning, the row read from a file's tags, content hashes, playlists,
  cover-art cache, watcher debouncing, schema versions.
- `src/sync/`: pairing URLs, framing and Noise records, the handshake steps,
  merge rules for synced rows, the pull client's decisions and the host's
  answers.
- `src/ui.rs`, `src/ffi.rs`: the values handed to the desktop and mobile
  front ends; `src/desk.rs`: what the desktop window decides (menus,
  selection, the play button, tiles, its texts).
- `src/worker.rs`, `src/output.rs`: the playback worker's bookkeeping
  (gapless chaining, draining, when the callback may pull) and the device's
  configuration and callback steps; decoding and the samples stay outside.
- `src/qr.rs`: the pairing QR as terminal text, SVG and RGBA pixels.
- `src/libgen/`: the generator of a synthetic test library.
- `src/host.rs`: command-line options of the sync host.

Calls into outside crates (blake3, data-encoding, form_urlencoded, image,
lofty, unicode-normalization, uuid, snow, x25519-dalek, getrandom, qrcode) sit behind small
trusted wrappers whose doc comments say what is assumed of them.

`app/` is the unverified program around the library: the database, the file
system walk and file reads, sockets, mDNS and the command line.
