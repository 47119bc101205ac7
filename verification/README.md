# iterm2-rs

The verified core of a terminal emulator: the tmux control-mode protocol,
shell integration marks (OSC 133), keyboard encoding, scrollback search,
tabs and split panes, grid extraction for rendering, colors, profiles and
configuration.

- `src/` is the library, checked by Verus: every public function states
  what it returns or changes, and the laws that relate operations (feeding
  data in chunks, undoing a focus move, what a window event does to the
  session state, ...) are proof functions beside the code they speak of.
- `tests/` runs the library on concrete values.
- `app/` is the program around it: the configuration file, the PTY and the
  shell, the terminal emulator state, the clipboard, and the arithmetic that
  is done in floating point.
