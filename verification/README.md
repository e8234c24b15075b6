# vsd playlist model

A verified library for the stream-selection core of an HLS/DASH downloader.

- `src/text.rs`: string helpers stated over `Seq<char>` (decimal numerals,
  padding, trimming, splitting, white-space collapsing, number parsing).
- `src/url.rs`: resolving stream addresses through `reqwest::Url`.
- `src/playlist.rs`: the playlist types; stream descriptions, byte-range
  headers, extensions, key ids, file names and the search for a free one.
- `src/order.rs`: a stable sort by descending keys, with the uniqueness of its
  outcome.
- `src/sorting.rs`: ordering the streams of a master playlist.
- `src/selection.rs`: the default stream for a quality, the stream menu, typed
  answers, and which streams chosen menu numbers stand for.
- `app/lib.rs`: serializable copies of the types, floating-point renderings,
  the file system and the terminal dialogue.
