# homectrl

The verified core of an LED strip controller and of its emulator.

The controller drives LED strips over a small UDP protocol (a five-byte
header, then RGB triplets) and offers a REST API to pick animation modes,
brightness, delays and mode options per strip, with debug controls that
pause the animation loop or step it a number of times. The emulator receives
the same packets and shows what each strip would show.

## Layout

- `src/` — the library, verified with Verus:
  - `strip.rs`: the frame buffer of a strip and its packets;
  - `modes.rs`: the animation modes (NightRider, RainbowCycle, Collider,
    Christmas, MardiGras, ArrGeeBee, Sparkle, Breathe, Solid, White, Off);
  - `looper.rs`: the looper's state, its per-strip and global settings, and
    the loop controls;
  - `opts.rs`, `json.rs`, `server.rs`: mode options as JSON values and their
    conversions at the HTTP boundary;
  - `error.rs`, `text.rs`, `colors.rs`, `clock.rs`: errors, text rendering
    and parsing, the palette, and the clock;
  - `emu/`: the emulator's packet parser, listener decisions, strip state
    and the records it reads from the REST API.
- `tests/` — tests of the library.
- `app/` — the programs around it: the HTTP server and animation loop
  (`homectrl [--debug]`), the emulator window (`homectrl emulator`) and the
  REST viewer (`homectrl viewer`); networking, threads, timing, serde and
  the floating-point color math live here.
