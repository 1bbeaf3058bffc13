# Mosaic

A keyboard-driven tiling window manager for macOS, with its decision logic
verified.

- `src/` is the `mosaic` library, verified with Verus: the tiling tree and the
  layout engine (`layout`), the window tracker and its rules (`window`), the
  configuration defaults (`config`), the state of the window manager with one
  layout engine per space (`state`), the scratchpad and marks (`features`), the
  command protocol of the control socket (`ipc`), the hotkey modes
  (`hotkeys`), and the bookkeeping of the window server's private framework and
  of the scripting addition (`skylight`, `sa`). Laws about them are proved as
  `law_*` proof functions next to the code they speak of.
- `app/` is the program around it: the Accessibility API, the window server's
  private framework and window list, the configuration file, the control
  socket, the global hotkeys, and the `mosaic-msg` client (the same program,
  started under that name).
- `tests/` runs the library on concrete values.

Geometry is kept in whole pixels in the library. The master-stack layout
describes its tiles (master column, stack rows) rather than measuring them,
since their sizes are fractions of a pixel; `app/effects.rs` measures them.
