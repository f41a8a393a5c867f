# freespace

A terminal program that finds what fills a disk — caches, build artifacts,
simulator runtimes — and removes what the user picks.

- `src/` is the library, verified with Verus: module manifests and sources,
  the safety rules, the scan bookkeeping, the interface's state machine
  (keys, mouse, selection, confirmation, cleanup outcome), ranking and
  filtering, the statistics and cache formats, and the audit log lines.
- `app/` is the program around it: command line, files, processes, threads
  and the terminal.
- `tests/` exercise the library.
