# sleepview

A countdown timer for the terminal, in the manner of `sleep`, that shows the
time left (or passed) as `[DD:]HH:MM:SS.mmm`, as JSON, or in a file.

- `src/` is the verified library: the split of a time into its fields
  (`clock`), decimal text (`text`), the JSON object (`json`), the terminal
  redraw and the file line (`display`), the timestamp reader (`timestamp`),
  the decisions of the countdown and of the waits between frames
  (`countdown`), and the proof that a file line reads back as the time it
  shows (`roundtrip`).
- `app/` is the program: argument handling, the clock, sleeping, the
  terminal and the files, and the reading of floating-point durations.
