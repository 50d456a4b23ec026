# Swarmkeeper

Keeps a swarm of Crazyflies: connects units and shows their state, flies them, writes firmware and
geometries to them, measures radio channels, plots log variables, estimates where Lighthouse base
stations stand, and plans rooms with base stations, anchors and obstacles.

`src/` holds the rules, formats and state machines behind this, with contracts that Verus proves.
It computes with integers alone. Numbers that are measured or calculated in floating point enter as
their bit patterns, and `float_bits` says how such patterns compare. Where a decision waits for a
link, a file or a number, the library says what to do next and is told what came of it.

`app/` is a terminal program around the library. It opens links and files, calculates in floating
point, and prints.

| Part of `src/` | Subject |
| --- | --- |
| `units`, `telemetry`, `positioning`, `journal` | units, what they report, where they are |
| `uri`, `radio`, `bootloader`, `operations`, `manual_control` | orders and packets to units |
| `logging`, `plot` | log streams and the live plot |
| `lh_geo`, `lh_wizard` | geometry of base stations from measured sweep angles |
| `coverage`, `planning`, `obstacle_mesh`, `editing`, `tdoa_display` | rooms and their coverage |
| `yaml`, `geometry_file` | documents |
| `text`, `sorting`, `lists`, `float_bits` | vocabulary that the others share |

What the proofs rest on besides Verus and the standard library stands in the functions marked
`external_body` and the declarations beside them: parsing and writing YAML (`yaml`), log value sizes
and periods (`logging`), radio channels (`uri`), letters (`text`) and the clock (`planning`).
