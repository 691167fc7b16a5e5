# machtop

A terminal system monitor for Linux machines and single-board computers:
CPU, memory, processes, network and disk traffic, temperature sensors and
the GPU/NPU/VPU of RK3588 and CIX Sky1 boards.

- `src/` is the library, verified with Verus: the parsers of the `/proc`
  and `/sys` files, the derivation of a snapshot from two consecutive
  samples (CPU shares, process list, traffic, memory), the board profiles
  that group temperature sensors, the state of the VPU performance-monitor
  switch, and the text the dashboard prints (sizes, clocks, temperatures,
  uptime, the summary lines, the layout of the panels). Numbers that the
  dashboard prints through `f64` are specified by the `f64` arithmetic
  itself: the nearest `f64`, ties to even, then decimal rounding, ties to
  even.
  Shares and rates are kept as the integer counts they are computed from,
  and temperatures in millidegrees.
- `app/` is the program: it reads the files, turns the counts into
  percentages and rates, and draws the dashboard with `ratatui`.
- `tests/` runs the library on concrete inputs.
