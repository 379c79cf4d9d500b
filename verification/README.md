# hyprloom

Save, restore, and reconcile [Hyprland](https://hyprland.org) window sessions.

`src/` is the library: how windows are recognised, matched, moved, launched and
closed, which commands are trusted, how geometry follows the monitors, and what
is done about an interrupted replacement. It is written in Verus, and every
function states and proves what it returns. `app/` is the command-line program
around it: it talks to the compositor, to `/proc`, to systemd and to the disk.

## Layout

- `matching`, `hungarian`: one-to-one assignments, greedy and of maximum weight.
- `restore`: matching saved with open windows, planning, launching, replacing.
  `reconcile`, `restoring`, `replacing` and `launched` are machines: they ask for
  something to be done, and are told what came of it.
- `capture`, `webapps`, `brave`, `process`, `procfs`: reading a desktop.
- `placement`: geometry, and the commands that bring a window to its place.
- `hyprctl`: dispatch arguments and batches.
- `config`, `session`, `recovery`, `autosave`, `commands`, `files`: settings,
  records, and the decisions of the command line.
- `text`, `lists`, `paths`, `json`: what the rest is built on.
- `laws`: what holds across functions, such as that a settled desktop is left
  alone, that no window is given away twice, that reconciling closes nothing, and
  that a replacement checks its targets before it closes a window.

The functions of the standard library and of `serde_json` that are trusted are
named in the doc comments of `text`, `json`, `procfs` and `autosave`.
