# nv_smi

A terminal monitor of NVIDIA GPUs and of a running llama-server.

- `src/` is the library: reading what nvidia-smi, the process list and the
  server's log say, keeping track of the server's slots, and laying out the
  screen. Every function states what it returns, and Verus proves it, but for
  five contracts on outside functions, which are trusted: that of std's
  `String::push`, that of crossterm's foreground codes, and those of loading a
  YAML stream and reading its string and integer entries with yaml-rust.
- `app/` is the program: it runs commands, reads files, does the floating-point
  work, and draws on the terminal.
- `tests/` runs the library on concrete values.

A floating-point number crosses the library as its text, then as its bit
pattern. A line that cannot be read, because a number would be cut inside a
character or leaves its range, comes back as a `Fault`; the program stops on it.
