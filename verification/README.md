# namiashi-sim

Simulation assets for the quadruped *namiashi*, with the deciding parts proved
in [Verus](https://github.com/verus-lang/verus).

`src/` is the library. Every physical quantity in it is an integer: lengths,
angles, times and forces in billionths of their unit, so that what is proved is
what runs. Products, quotients and points between two ends are rounded to the
nearest billionth, square roots are rounded down, and results are held at the
ends of the range rather than wrapping.

| module | what it decides |
|---|---|
| `fixed`, `decimal`, `text` | arithmetic, numbers in decimal, text |
| `self_righting`, `trial`, `recovery` | getting off its back: trajectories, their scoring, and running one live |
| `attack` | tipping the opponent over with the arm |
| `ring`, `scene`, `opponent` | the competition ring, its scene description, and the welded opponent |
| `gait`, `teleop`, `hud` | tuned gaits, keyboard bindings, the overlay |
| `levelling`, `swing`, `actuation` | where feet stand, corrections to swings, joint commands |
| `schedule`, `session`, `sample`, `replay` | timing, what a run carries, what it measures and leaves behind |
| `harness`, `setup` | what a run is configured with |

`app/` runs the simulator around it: models, physics, the window and files. It
converts between floating point and billionths at the edge.

Functions whose name starts with `law_` state what holds of the library as a
whole.
