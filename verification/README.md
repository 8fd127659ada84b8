# mandlebrot

A Mandelbrot and Julia set explorer whose configuration, file and
bookkeeping logic is a library verified with Verus.

## Layout

- `src/` — the verified library:
  - `combinatorics` — factorials, binomial coefficients and the powers of `i`
    used to expand `(a + bi)^n`;
  - `text`, `lines` — digit checksums, unsigned numbers, splitting and joining
    text as `str::split` and `join` do;
  - `screen` — image dimensions and their names;
  - `render` — how a frame is cut into thread bands and tiles;
  - `layers` — the stack of colouring layers, the range and position
    constraints placed on it, which edits they allow, and the per-point
    calculations each layer reads (the proofs say which allowed edits keep
    the stack usable, and the doc comments name those that do not);
  - `orbit_trap`, `palettes` — trap and palette kinds, their codes and the
    text of an orbit trap;
  - `numerals` — which texts a floating-point number can be read from;
  - `sorting` — the stable order of items by integer keys, and whether the
    keys are all different;
  - `menu` — the page state machine of the side menu and the moves of its
    carousels and layer cards;
  - `saves` — the save files of a view and of a video, with proofs that what
    is written reads back;
  - `names`, `video` — file names of exports and frames, video headers and
    progress counts.
- `tests/` — tests of the library on concrete values.
- `app/` — the program: the window, floating-point rendering, files and
  dialogs, built on the library.
