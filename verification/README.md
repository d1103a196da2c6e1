# LED transit map

The verified core of an LED map that shows public transport as it moves, with the tools that build
and release its firmware.

- `src/` is the library. Every function states what it does, and Verus proves it.
  - `display/` finds ways over the pixel graph, renders vehicles and disruptions, and drives the LEDs.
  - `store/` keeps settings, transit data and firmware updates.
  - `net/` is the wireless network, the server by which the device is set up, and the connection to
    the gateway.
  - `tools/` decides what the tools around the firmware do.
  - `outside/` holds the functions of other crates that are called, each with what it is taken to do.
- `tests/` runs the library on concrete values.
- `app/` is ordinary Rust: the command line of the tools, and the loops that run the firmware on a
  board. What takes floating point is worked out there.

What the library decides comes out as a list of effects, in `src/effects.rs`, which the loops carry
out in order. Where something has to be awaited in between, a decision has two functions: one that
starts it, and one that goes on with what came of it.
