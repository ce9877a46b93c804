# stacker_engine

A falling-block stacking game engine with its behaviour proved in Verus.

- `src/piece.rs`: piece kinds, orientations, shapes, kick offsets, placed pieces.
- `src/pile.rs`: the grid of settled cells, collision tests, line clears.
- `src/bag_rng.rs`: the seeded `rand_chacha` generator behind two trusted wrappers; the
  bag it deals `k`-th for a seed is named `seeded_bag(seed, k)`.
- `src/next_queue.rs`: the queue of upcoming pieces, dealt as the seed's bags of seven in
  order (`heapless::Deque` behind trusted wrappers).
- `src/engine.rs`: the frame-by-frame engine; `Engine::update` is specified exactly by
  `after_update` over the board and the pieces dealt.
- `src/laws.rs`: properties of the engine proved from those specifications.
- `src/play.rs`: the play invariant that every reached state keeps: a falling piece
  fits, its ghost is its hard-drop spot, and no full row stands while it falls.
- `src/event_timer.rs`: a delta-encoded queue of timed events.
- `src/classic.rs`: a simpler game mode with fixed timings and only `T` pieces.
- `src/controls.rs`: the eight controls and what a frame's key presses and releases mean.
- `app/`: the window, keyboard and drawing (macroquad).
