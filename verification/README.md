# ferride

The rules and geometry of a small turn-based role-playing game, verified with Verus.

- `src/` is the library. Verus proves the contract of every function in it but
  two small wrappers of outside code, whose contracts are trusted (a byte cast by
  `bytemuck` and `String::push`):
  - `battle_action`, `character`, `game_state`, `game_logic`: characters, skills, the
    time-ordered action queue and how the game answers each event.
  - `animation`, `sprite`, `entity`, `event`, `names`: keyframe animations, sprite
    positions and the events between the game and its engine.
  - `battle_manager`: the battle screen's controller (highlights, focus, pending
    bar animations).
  - `scenes`: the scene book of the engine (pending, shown and suspended scenes,
    shown ones kept in depth order).
  - `dungeon`: dungeon layouts, their text form, and the builder that reads it back.
  - `fixed`, `polygon`, `simple_polygon`: fixed-point numbers, the cord and visibility
    map of a polygon, and ear-clipping triangulation.
  - `buffers`: index and vertex buffers filled as bytes.
- `tests/` runs the library on concrete values.
- `app/` is a terminal driver: it plays a scripted battle, prints a dungeon and
  triangulates a letter outline given in floating point.
