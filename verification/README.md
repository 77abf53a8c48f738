# evernight

A small 2D bullet-hell runtime: an entity/component world with a deferred
command buffer, a per-frame event bus, a priority scheduler, a spatial hash
and a collision pass, seeded random generators, script-facing registries and
profiling statistics.

- `src/` is the library, written in Verus. Every function there carries a
  contract over a mathematical model (`Seq`, `Map`, `Set` and spec functions),
  and the laws that relate several operations (identifier recycling, command
  ordering, frame-stage order, collision determinism, registry round trips,
  unbiased range sampling) are public proof functions.
- `tests/` runs the library on concrete values.
- `app/` is the benchmark program and the glue that cannot be verified:
  floating-point geometry and movement, the Lua front-end (mlua) and the Godot
  bridge (godot). It drives the verified frame plan and calls into the library
  for every decision it makes.
