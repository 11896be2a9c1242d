# g502_linux_control

Logic for a Logitech G502 HERO on Linux, on top of `ratbagd`, written and proved in Verus:
a DPI shared across profiles, a config file that describes the mouse, backups and restores.

## The library (`src/`)

| module | what it holds |
|---|---|
| `dpi` | stages, steps, batches of presses |
| `config` | the config, its defaults and its rules |
| `action` | button actions: numbers, names and spellings |
| `ratbag`, `bus` | snapshots of a device, and how they come from D-Bus values |
| `restore`, `settle` | the plan between two snapshots, staging, and what carrying it out leaves |
| `apply`, `overlay_law` | a config laid over a device, single edits, and what they leave alone |
| `export`, `readback`, `reading` | a device written as a config, and what reading its lines and its text gives back |
| `controller`, `sync`, `input`, `daemon`, `journal` | decisions of the DPI daemon |
| `command`, `writing`, `report` | decisions and texts of the command line |
| `edit`, `gui`, `panel` | decisions and texts of the window |
| `text`, `keyed`, `error` | strings, ordered maps, errors |

Everything is a function from values to values; each contract says which value.
Facts about more than one function are public proof functions next to them.

## The programs (`app/`)

D-Bus, evdev, files, the terminal and the window. One executable that acts as
`g502d`, `g502-gui` or `g502ctl` by the name it is started under.

```
g502ctl status | check | dpi up|down | dpi set DPI
g502ctl backup [FILE] | restore FILE | apply | config export [FILE]
g502ctl button set P B ACTION | profile enable|disable P | profile rate P HZ
g502ctl led set P L [--mode M] [--color RRGGBB] [--brightness N]
```

`restore`, `apply`, `button set`, `profile` and `led set` take `--dry-run` and `--yes`.
