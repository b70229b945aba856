# bawal_pathfinder

The front end of a robot path-finding simulator, split in two:

- `src/` — the verified library: screen navigation (`states`), the setup
  menu and its configuration (`setup`), the choice of map and robot files
  (`files`), the rewrite of the planner's parameter file (`yaml`), the 2D
  simulation state driven by clicks and planner messages (`simulation`), and
  the character-level helpers they share (`text`).
- `app/` — the program around it: the game-engine plugins, UI layout,
  drawing, file and network I/O, and the floating-point geometry.
- `tests/` — scenarios for the library's functions and laws.
