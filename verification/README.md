# herdr_activity_monitor

A macOS activity monitor for Herdr: a popup with memory, battery and detailed
metrics, and a daemon that keeps the window title up to date.

- `src/` is the library, written in Verus and verified: reading `vm_stat`,
  `sysctl`, `ps` and `footprint` output, the used-memory computation, the
  choice of the battery among the power sources, CPU use from tick samples,
  the top three processes by footprint, the text of every popup line and of
  the window title, and the JSON-RPC requests sent to Herdr.
- `app/` is the program around it: the system calls and commands that take
  the readings, the terminal UI, the watch daemon and the socket I/O.
- `tests/` runs the library on concrete values.

Numbers are kept exact (bytes, pages, ticks) and rounded only when written
out: the memory percent rounds half up, and the GB, MB and CPU figures round
to the nearest last digit with an exact tie going to the even digit. A figure
that lies exactly on such a tie (say 1,015,000,000 bytes, shown as 1.02 GB)
can therefore differ in its last digit from what binary floating point
arithmetic would print.
