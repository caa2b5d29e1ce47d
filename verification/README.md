# atraverse

A tool that walks through Android apps by itself, and runs test cases on them. It looks at the
screen, decides what to do next, does it, takes a picture with the step marked on it, and watches
the log for crashes and blocks. It keeps a record of every step and writes a report.

## Layout

- `src/` is the library, verified with Verus. It works on plain values: texts that a device has
  replied with, pictures as bytes, numbers that were drawn. What it decides it hands back as values.
  - `model`, `dump`: the tree of widgets, and how it is read from a dump.
  - `strategy`: states, candidates, weights, the choice of the next action, coverage; its laws stand
    in `strategy/law.rs`.
  - `monitor`: finding incidents in log lines.
  - `runner`: how a run goes on, what is done for an action, what is kept of an incident.
  - `script`: test cases, what is checked before they run, how they run, and what they come to.
  - `device`: commands and replies, and a made-up device with two pages.
  - `annotate`, `sketch`, `lettering`: marks, the shapes that they are drawn with, and letters.
  - `report`, `session`, `cli`: reports, records and what is printed.
  - `single`, `decimal`: numbers of single precision, by their bits.
  - `outside`: what is taken from the standard library and from other crates without proof.
- `tests/` holds tests of the library.
- `app/` is the program around it: arguments, processes, files, the log, drawing.

## Numbers of single precision

Coverage, weights and sizes are numbers of single precision. The library holds them by their bits
and computes on integers what the processor computes: `single.rs` says what rounding does and
proves it. What needs a floating-point number itself is done by the caller: a draw below the sum of
the weights, a place that a locator writes, the widths in a table, and drawing.
