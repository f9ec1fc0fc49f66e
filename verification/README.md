# hyprhalo

Ambilight for Hyprland: reads the edge colors of the focused window from
screen captures and mirrors them in a dynamic wallpaper, a halo around the
window and the window border.

## Layout

- `src/` — the verified library (Verus). Every function carries a contract
  that Verus proves, except the two trusted functions in `hypr.rs` that parse
  a reply with serde_json (`parse_reply`, `json_from_value`): Verus takes
  their contract on trust.
  - `colors.rs` — sampling the window edges in a captured frame: clipping,
    banding, segmenting each edge and summing the sampled pixels.
  - `render.rs` — boxes and their bounding box, clearing rectangles, the
    halo's pixel coverage (distances and ring positions), the max-composited
    halo write and the wallpaper pixel fill.
  - `hypr.rs` — reading the compositor's replies: the reply text is parsed by
    serde_json behind one trusted function (`parse_reply`, whose result is
    named `json_of`), and the windows and monitors are read out of the
    document in verified code; also judging command replies.
  - `config.rs` — integer defaults, profile names, hex colors.
  - `control.rs` — the main loop's decisions: command line (`--profile`,
    `--toggle`, `--help`), which window to
    follow, capture gating, repaint decisions, buffer sizes and damage.
  - `shm.rs` — slicing a shared-memory pool and the double-buffer slots.
  - `text.rs` — decimal and hexadecimal rendering, string comparison.
- `tests/` — tests of the library on concrete values.
- `app/` — the program: Wayland surfaces and screencopy, the Hyprland socket,
  the configuration file, and the floating-point color work (averaging,
  smoothing, enhancement, falloff), which calls into the library for the
  rest.

Laws of the library are the public `law_*` proof functions in `src/`.
