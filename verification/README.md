# vbar

A neovim-like Wayland status bar for Hyprland: workspaces and a `:` command
line on the left, the clock in the middle, the focused window on the right.

The crate is in two parts.

- `src/` is a Verus library holding everything the bar decides: how Hyprland's
  plain-text replies are read (workspace IDs, the focused window's title, the
  answer to a dispatch), the requests and dispatchers it sends, where the IPC
  sockets live, how the event stream is cut into events, when the command line
  opens and closes and in which order the keyboard changes hands, and the
  bar's layout. Each function carries a contract that Verus proves, and the
  `law_*` proof functions state what holds across calls.
- `app/` is the GTK program around it: windows, widgets, timers, the Unix
  sockets and the environment. It hands the library plain values and acts on
  what comes back.

Modules of the library: `text` (whitespace, trimming, lines, words and
decimal integers with the meaning Rust's `str` gives them), `hypr`,
`workspaces`, `window`, `clock`, `command` and `bar`.
