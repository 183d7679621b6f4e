# solium

The logic of the Solium compositor, verified with Verus, and the program around
it.

- `src/` decides: where monitors go (`arrangement`, `monitor`), which pane shows
  which window (`pane`, `loading`), how a drag and its client agree on a size
  (`resizing`), what a frame is made of and in what order (`render`, `depth`,
  `pass`, `offscreen`, `paint`), what is drawn where (`present`), and where the
  time of a frame went (`pacing`). `geometry`, `time`, `text`, `number`, `double`
  and `density` are what those are written in.
- `app/` acts: it holds the graphics, the Wayland protocol, the Qt host, the
  clock, the environment, the files, and everything that is a floating-point
  number.
- `tests/` runs the library from outside.

Instants and spans are whole nanoseconds and rectangles whole pixels. A
floating-point number that the library only compares comes in as its bits. A rate
in a configuration and the density of a panel are rounded by the library itself,
exactly as doubles round (`double`); any other calculation with such a number is
made in `app/`, and the library is told what came of it.
