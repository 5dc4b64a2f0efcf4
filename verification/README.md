# rusty_roguelike

The rules of a small terminal roguelike, written in Verus and proved against their
contracts.

- `src/` is the library. `map` generates levels (rooms, corridors, the way down) and
  answers questions about them (indices, exits, sight blocking, what to draw);
  `player` handles movement keys; `visibility_system` turns a field of view into what
  an entity sees and the player remembers; `damage_system` applies pending damage and
  finds the dead; `spawner` describes the entities to create and picks spawn cells;
  `gui` lays out the status bar and mouse tooltips; `state` drives the turn cycle.
  `rng` holds the few calls into `rltk` (dice and the code page 437 table).
- `app/` is the game itself: the `specs` world, the `rltk` window, drawing and input.
- `tests/` exercises the library on concrete values.
