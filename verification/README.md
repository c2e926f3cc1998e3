# fung_preng_app

The core of a desktop music player that streams tracks, analyzes them and
crossfades between them, written in Verus.

- `src/` is the verified library: HTTP range-source bookkeeping
  (`range_source`), decimal reading and writing (`decimal`), text helpers with
  the meaning of Rust's `str` (`text`), PCM buffer layout (`pcm`), the crossfade
  layout (`mixer`), the stream-address cache (`cache`), the boundary searches of
  track analysis (`analyze`), the decisions of the decode and playback loops
  (`player`), the choices of the player commands (`commands`), search result
  handling, with JSON text parsed by `serde_json` behind a trusted call (`search`), and download-tool arguments (`extract`).
- `app/` is ordinary Rust around it: network and process access, files, audio
  decoding and output, and the floating-point signal processing.
- `tests/` runs the library on concrete values.
