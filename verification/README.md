# hypede

The logic of the HypeDE desktop — workspaces and focus, key bindings and
shortcuts, the `hypectl` command line, the file manager's listing, sorting and
history, desktop entries and the application search, the panel's status
readings, cursor frames and wallpaper drawing — as a library whose behaviour is
stated in `requires` / `ensures` contracts and proved with Verus.

- `src/` is the verified library. Each module opens with what it covers; the
  public proof functions named `law_*` state what holds across calls (a step
  forward and back returns to the same place, toggling twice restores, and so
  on).
- `tests/` runs the library on concrete values.
- `app/` is the `hypectl` program and the input and output around the
  library: sockets, files, the environment, the settings file, and the parts
  that compute in floating point (animation curves and springs, colours,
  palettes and the GTK stylesheet, sizes, layout geometry).

Verify with Verus on `src/lib.rs`; build and test with Cargo.
