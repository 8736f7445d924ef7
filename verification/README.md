# fft

The logic of a market display and of the programs that measure it: replaying an event log with
checkpoints, aggregating depth into a ladder and volume into a profile, measuring frame times,
and judging whether a run passed.

`src/` is a Verus library. Every function states in its contract what it returns or changes, and
Verus proves it, but for two that are taken on trust: `String::push` of std (in `text`), and
`utc_offset` (in `header`), which looks a time zone up with `jiff`. Properties that relate several functions stand beside them as public proof
functions whose names begin with `law_`.

| module | what it holds |
| --- | --- |
| `replay` | the log as frames, the replay source, seeks, and the copy with one gap put in |
| `datetime`, `text`, `num`, `json` | calendar, numerals, arithmetic and escapes |
| `event`, `render` | events, instruments and what the engine publishes |
| `dom_view`, `layout`, `ladder`, `dom_badges` | the depth ladder |
| `mp_view`, `mp_plan` | the market profile |
| `pane_state`, `header`, `glyph_cache`, `os_theme` | the rest of the display |
| `frame_stats`, `harness` | the measurement of frames |
| `sampling`, `data_plane`, `census`, `refresh_section` | the measurements on logs |
| `runs`, `soak` | the measurements on a running engine |
| `cli` | the command lines |
| `lockfile` | the pinned revision in a lock file |

`app/` is ordinary Rust around it: files, clocks, child processes, threads, and everything that
is computed with floating-point numbers. The log reader, the market state, the engine and the
window system reach it through the traits in `app/host.rs` and `app/canvas.rs`.

Times are nanoseconds, prices are billionths. Numbers with a fraction cross from `app/` into the
library as their bits, as text, or as a decision that was made on them.
