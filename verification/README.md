# dgxtop

A terminal monitor for NVIDIA DGX systems: GPUs (through NVML), CPU, memory,
disks, network interfaces and the processes running on the GPUs.

## Layout

- `src/` — the library, written in Verus and verified. It holds everything
  that decides or computes on plain values:
  - `text` — characters, whitespace, fields, lines, number parsing and
    decimal formatting, with specifications that follow `str` and `u64::from_str`;
  - `cpu`, `memory`, `disk`, `network`, `process`, `system`, `power`, `gpu` —
    the parsers of `/proc` and `/sys` files, the collectors' state between
    two readings (deltas, counter wrap-around, device and interface
    matching), mount and capacity bookkeeping, power-source selection, and
    the merging of NVML process lists;
  - `history` — the ring buffer behind every chart and the minute-bucket
    rotation of the long-term aggregates;
  - `order` — a stable sort by key and the order of text;
  - `table` — the process filter and cell truncation;
  - `units` — byte counts printed as `f64` formatting prints them, computed
    exactly on integers;
  - `ui` — the tabs, input modes and the key state machine, stated as a
    function from state and key to next state and effect, with its laws.
- `app/` — the program: reading files, NVML, `statvfs`, signals, the event
  thread, floating-point rates and percentages, and the ratatui views.
- `tests/` — tests of the library on concrete inputs.
