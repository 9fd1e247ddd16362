# glass

A notification daemon for KDE Plasma on Wayland, with cards that blur what is behind them. Its
core is verified with Verus.

## Layout

- `src/` is the verified library. It holds no I/O: every step takes plain values and returns plain
  values.
  - `notifications`: the bus methods, which hand out identifiers and make events.
  - `slots`, `app_state`, `stack_laws`: the stack of cards (timers, hovering, animations, presses).
    Each step returns the actions that the display has to perform, in order.
  - `single`, `ink`, `raster`, `layout`, `card`, `raster_laws`: painting a card of any size. Distances that are computed
    in single precision are computed exactly as whole numbers here.
  - `region`: the part of the screen behind a card that is blurred.
  - `icon_search`, `desktop`, `icon`, `icon_laws`: finding and scaling an application's icon. The
    search asks about one file at a time.
  - `config`, `event`, `action`, `text`: constants, messages, and text helpers.
- `app/` is the daemon around the library: the D-Bus service, the Wayland client, fonts, paths,
  easing, and files.
  The bindings of the blur protocol come from `wayland-protocols-plasma`, so that no protocol file
  has to be kept here.
- `tests/` runs the library on concrete values.

## Trusted code

The library calls `str::to_lowercase` and, of the `image` crate, `ImageFormat::from_path`,
`load_from_memory_with_format`, `resize_exact`, and `to_rgba8`. What is believed of these is stated at the functions that call them, in `text` and
`icon`.
