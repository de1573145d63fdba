# kuroso_core

The core of the Kuroso music player, verified with Verus.

- `src/` is the verified library:
  - `queue.rs`: the playback queue (bounded history, "Up Next", playlist walked in order
    or in a shuffled order, repeat modes) with its mathematical view and the laws of
    stepping forward and back.
  - `database.rs`: the in-memory library (tracks, albums, artists and their lookups),
    pruning of missing files, and the cache file header check.
  - `queries.rs`: album, artist and title-search queries.
  - `scanner.rs`, `watcher.rs`: turning tags read from files into library records, and the
    watcher's reaction to changed or removed files.
  - `hardware.rs`, `decoder.rs`, `player.rs`: the decisions of the audio engine (playback
    strategy, device description, stream layout, decode-error limit, player commands).
  - `index.rs`, `text.rs`, `types.rs`, `state.rs`: supporting structures.
- `app/` is the program around it: file and device I/O, threads, decoding and resampling
  of `f32` audio, the cache file encoding, the file watcher and the terminal view.
- `tests/` exercises the library.
