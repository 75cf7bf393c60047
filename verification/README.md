# joylight_backend

The backend of a lighting controller: fixtures and their parameters, the layers and scenes
that give parameters their values, DMX encoding, and a node-based effects engine.

- `src/` is the library, verified with Verus. Levels and colours are doubles or floats carried
  as their IEEE-754 bit patterns; the library moves, compares and lays them out, and computes
  with them only where the arithmetic is stated exactly (`scalar`).
  - `effects`: effect graphs (topological sort, processing, DOT source), datasets, node outputs.
  - `fixtures`: templates, fixtures, common fixtures, the library, patches, selections.
  - `parameters`: parameter values and descriptions, views, DMX layout, parameter types and
    their run-time state.
  - `parameter`: DMX parameter types of fixed layout (brightness, RGB).
  - `show`: layers, scenes and the show.
- `app/` is the program around it: logging, the tick loop, shared references, floating-point
  computations (colour bases, DMX mapping, math nodes, value arithmetic) and processes.
- `tests/` exercises the library.
