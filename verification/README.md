# cusk

A tiling and floating Wayland compositor whose decisions are proved with Verus.

- `src/` is the library: layout, workspaces, focus, bindings, configuration, the
  plan of a frame, the steps by which a display is taken and given back, the
  lists of windows that docks are told of. Every function states what it returns
  and is verified against it, but for the few wrappers around calls into other
  crates and std, whose contracts are trusted; each says what is claimed of the
  call. `agreement.rs` and `undo.rs` state what holds
  across functions.
- `tests/` runs the library on concrete values.
- `app/` is the program around it: sockets, devices, the renderer, fonts, files.
- `extras/protocol/` describes the protocol by which docks get pictures of
  minimised windows.

Fractional numbers pass through the library as `number::Number`, which knows
their bits and their order; arithmetic on them is the program's.
