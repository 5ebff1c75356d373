# umasim

Verified core of a training simulator for the Ramen Cup scenario, with the
decision recorder and the benchmark tooling around it. The library is written
in Verus: its own functions carry contracts that Verus proves. The few
functions that call an outside crate or std (the random draws of `rand`,
`String::from_iter`) are trusted wrappers: Verus believes their contracts
without proof, and each says in its doc comment what it claims of the call.
The selection cache key goes through std's `DefaultHasher` as vstd specifies
it.

## Layout

- `src/ramen/` — the scenario: stages and their flow (`flow`), actions and
  candidate lists (`action`, `stage`), applying an action (`apply`), the
  hidden-flavour rules (`rules`), persons, friendship and hints (`persons`),
  clone placement (`clones`), eating and closing a turn (`grounding`),
  the state summary line (`info`),
  training side rules (`training`), run setup (`setup`) and scenario events
  (`events`).
- `src/card_pool.rs`, `src/bench.rs`, `src/deck_arg.rs`, `src/config.rs` —
  the SSR card pool and deck genes, deck enumeration for benchmarks, the
  `--deck` argument, configuration defaults.
- `src/record.rs`, `src/recorder.rs`, `src/replay.rs`, `src/plot.rs`,
  `src/watch.rs`, `src/npy.rs` — the decision-record schema, the online
  recorder as a state machine that returns file actions, offline replay,
  the luck-trend plot rules, following the live snapshot file, and `.npy`
  headers.
- `src/text.rs` — decimal text and substring helpers shared by the above.
- `tests/` — tests of the library.
- `app/` — the command-line front end: file and archive handling, JSON and
  CSV formats, the recorder's executor and the SVG drawing of the trend
  plot.
