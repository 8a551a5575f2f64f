# rich_py

The logic behind the Python bindings of a terminal-rendering toolkit, written
in Verus and proved against its contracts: the task table and time columns of
progress displays, the live display's fitting, cursor codes and start/stop
protocol, log rows, prompts, screens and pagers, column and region layout,
alignment, measurements, padding, text offsets and spans, and the plugin
registrar's checks.

- `src/` — the verified library, one module per concern; each public function
  states what it returns in `ensures`, and the `law_*` proof functions state
  what holds across calls.
- `tests/` — executable tests of the library on concrete values.
- `app/` — the `pyo3` module that hands Python values to the library; clocks
  in float seconds and other floating-point formatting stay there.
