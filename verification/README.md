# spitfire

A Wayland compositor with dynamic tiling, whose decisions are verified with
Verus.

- `src/` is the verified library. It holds the layout engine, workspaces and
  scratchpads, window rules, key bindings and gestures, who gets an input event,
  the order in which an output is drawn, borders and blur, animations, screen
  captures, the built-in bar, the duties towards X11 clients, and the control
  socket's requests. Every function states what it returns, and laws that span
  functions are proved beside them.
- `app/` is the program around it: the display server, the renderer, the Lua
  host, files and sockets. It hands plain values to the library and carries out
  the steps that come back.
- `tests/` runs the library on concrete values.

Floating-point values enter the library as their bit patterns (`binary32`,
`binary64`). Easing, masks of rounded corners and scaling to physical pixels are
computed in `app/`.
