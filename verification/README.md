# ruvnc_viewer

The logic of a VNC viewer, written in Verus and proved against its contracts:
the address book (search, groups, team merges), the quick-connect parser and
the server list's order, the dialogs, the connection state machine with its
input coalescing, the callback state of the protocol engine and the
credential handshake, framebuffer and cursor pixel work, the screen layout,
keyboard and pointer mapping, team synchronisation state and localised text.

- `src/` is the verified library. Each module states its model in spec
  functions and proves its laws as public proof functions (`law_*`).
- `tests/` runs the library on concrete values.
- `app/` is the program around it: windows (egui), files, the OS keyring,
  HTTP, threads, the C++ protocol engine behind `cxx`, and the floating-point
  parts of drawing.
