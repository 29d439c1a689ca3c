# AoS4 Combat Roller

A combat sequence roller for Age of Sigmar 4th Edition: Hit → Wound → Save →
Damage → Ward, with critical hit effects, modifiers, a combat log and a
Monte Carlo simulation of the damage.

- `src/` is the library, written in Verus: dice expressions, the combat
  engine, the integer statistics of simulations, the session state behind the
  window (selection, rolls, recent units), unit files' duplicate ids, and the
  texts the interface shows. Every function carries its contract;
  `combat/properties.rs` and the `law_` proof functions state what holds of
  every result.
- `app/` is the desktop window (eframe/egui), reading `units.json` with serde,
  the parallel simulation with rayon, and the `convert` command that merges
  unit files.
- `tests/` runs the library on concrete values.
