# locket_display

The screen layout of Locket, a chat terminal for the Sprig handheld, as a
verified library. Each screen of the 160x128 ST7735 panel (the compose and
keyboard view, the reply views, the settings menu, the splash) is computed
into a display list of draw steps, and every public function states exactly
which steps it produces.

- `src/` is the verified library (Verus): themes and colours, the display
  list, character wrapping of replies into `heapless` row buffers, and the
  screens.
- `app/` replays display lists on an `embedded-graphics` draw target.
- `tests/` exercises the screens on concrete inputs.
