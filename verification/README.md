# cece

A Burmilla cat that chases the mouse pointer across a Hyprland desktop, naps
in one of four beds and plays with the toys someone throws in after a nap.

## Layout

- `src/` is the verified core, checked by Verus:
  - `cat.rs`: the xorshift64* random source (with the exact `f64` rounding
    of its uniform picks) and `Mind`, the cat's discrete state machine:
    which mode comes next, what it says, which bed, toy or wand it picks,
    and which sprite frame it shows. The laws at the end of the file state
    what every run of it keeps.
  - `render.rs`: premultiplied ARGB compositing into a pixel buffer:
    blending, nearest-neighbour sprite blits and the "z" glyph.
  - `sprites.rs`: cutting a decoded PNG (decoded by the `png` crate) into
    the 34 frames of a sheet.
  - `config.rs`, `cursor.rs`, `text.rs`: the settings file and
    command-line syntax, and the compositor's cursor reply.
  - `sound.rs`: starting the audio thread lazily, once, when not muted.
  - `toy.rs`, `bed.rs`: the kinds of toys and beds.
- `app/` is the program around it: Wayland surfaces, the event loop, the
  cursor socket, audio playback, and the floating-point motion and drawing
  of the cat, its toys and its beds.
- `tests/` runs the library on concrete values.
