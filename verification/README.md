# tclok

A resize-responsive terminal clock. The library in `src/` holds the clock's
logic, verified with Verus: reading the command line, the UTC clock and the
assembly of local-time text, the choice of layout for a pane of any size, the
ANSI frame, the Kitty graphics frame with its base64 encoding, and the
parsing of the terminal's pixel-size reply.

- `src/lib.rs`: colours (`#RGB`/`#RRGGBB`), gradients and options.
- `src/cli.rs`: command-line arguments.
- `src/clock.rs`: the clock text and the wait until the next second.
- `src/layout.rs`: layout modes and line placement; every line fits the pane.
- `src/render.rs`: the text frame.
- `src/session.rs`: how the program starts, which frame to draw and how long
  to wait before the next one.
- `src/neue_machina.rs`: the large face as a Kitty graphics image.
- `src/terminal.rs`: the terminal's pixel-size reply.
- `src/text.rs`: character and decimal helpers.

`app/` is the program around it: the terminal session and signals, local
time through the C library, glyph drawing through CoreGraphics on macOS, and
the redraw loop that carries out the library's decisions.
