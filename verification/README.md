# lycoric

Timing logic for synchronized lyrics and danmaku, verified with Verus.

## Layout

- `src/` — the library, all of it verified:
  - `time.rs` — microsecond timestamps and time ranges with saturating arithmetic.
  - `text.rs` — character and UTF-8 helpers used by the parser.
  - `diagnostics.rs`, `model.rs` — diagnostics and the lyric document model.
  - `parser/` — the LRC grammar as spec functions (`grammar.rs`), timestamp parsing
    (`timestamp.rs`) and the parser (`lrc.rs`). `parse_lrc` states the document it gives,
    the kind, message and place of every diagnostic it records, in order, and that strict parsing
    fails exactly when a problem was recorded.
  - `assemble/` — merging sidecar documents into a primary one under a matching strategy:
    which line each sidecar line joins, where each of its lanes lands (moved and clamped),
    which lines are kept apart, and every warning given, in order, with its message.
  - `timeline/` — an interval index over a track and the frames it answers: active lines,
    segment progress, gaps, and the next and previous timing events.
  - `render/` — the render-state reducer and its laws, what a sampled frame shows and
    which events a new playback anchor sends, lane layout order and visibility,
    layout windows, highlight clusters, texture budgets, wakeup delays, line-motion timing,
    and style values.
  - `palette.rs` — sampling a cover image into a colour histogram and its dominant bin.
  - `player.rs` — seek-bar seconds and `m:ss` labels.
  - `sizing.rs` — width and size buckets, backdrop texture byte counts, and the earlier of
    two wakeup times.
  - `danmaku.rs` — danmaku settings and centred-row allocation.
  - `dandanapi.rs` — the records of the dandanplay web API that hold no floating-point
    values.
- `tests/` — tests run against the compiled library.
- `app/` — the floating-point edge: playback anchors with a fractional rate, easing
  curves, gap pulses, line-motion offsets, the palette sampling step, and danmaku timed
  in fractional milliseconds.
