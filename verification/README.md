# cli_manager

The decision logic behind the CLI Manager desktop commands, verified with
Verus.

- `src/` is the library: SSH settings validation, the `ssh` argument lists
  and remote scripts, POSIX quoting (with a proof that a shell reads the
  quoted word back as exactly the text it quotes), the reading of `ssh` output
  (version lines, path checks, NUL-separated directory listings ordered by
  lowercase name), the resource-sampling schedule, today's network totals,
  memory and disk figures, the ranking of the busiest processes, UTF-16
  encoding for wide-character APIs, and version information.
- `tests/` runs the library on concrete inputs.
- `app/` is the thin layer that runs `ssh`, reads the machine's counters
  (`sysinfo`, `local-ip-address`, `chrono`, PDH on Windows), does the
  floating-point rate and percentage arithmetic, and serializes the records
  for the front end (`serde`).

Monotonic instants are passed to the library as nanoseconds since an origin
the caller fixes; calendar days as year, month and day.
