# citybuilder_ecs

A small entity-component-system library for a grid-based city builder game,
written in Verus: the functions in `src/` are proved by Verus against their
contracts (constructors of field-less types have nothing to state).

## Layout

- `src/ecs.rs` — entities, component pools, the world, entity iterators,
  system registration by name.
- `src/schedule.rs` — systems with dependencies: duplicate and cycle
  detection, unknown dependencies, an execution order that runs every
  system after the systems it depends on.
- `src/hierarchy.rs` — parent/child components and cycle detection over a
  parent-to-child map.
- `src/input.rs`, `src/input_action.rs` — keys and mouse buttons, their
  names, button states over frames and the button actions of a frame.
- `src/input_manager.rs` — the bookkeeping of an input manager: device ids
  (no id twice, removal shifts the later devices) and the keys and buttons
  that events left down.
- `src/diffing.rs` — property-by-property comparison of values, the RON text
  of changed values, and a tracker that records what systems changed.
- `src/grid.rs` — the grid game: player and obstacles, movement with
  collision, and the text rendering of the board.
- `src/game.rs` — the grid game's player, grid, obstacle and renderable
  components, the movement keys, player movement with bounds and obstacle
  checks, and the board as text.
- `src/examples.rs` — a health component.
- `src/text.rs` — string helpers shared by the modules above.
- `tests/` — tests of the library.
- `app/` — the program around the library: command line, HTTP server,
  floating-point geometry and time, and demonstrations.
