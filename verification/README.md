# ublkera

Changed-block tracking for block devices, with the tools that test it.

A daemon passes IO through to backing files or block devices by way of the ublk
driver, and records for every chunk of a device the *era* in which it was last
written. A checkpoint closes the current era; "what changed since checkpoint N"
is then the set of chunks whose era is newer than N. A backup that copies only
those ranges ends up with the device's image.

The logic is a library, verified with Verus. What does IO stands around it.

## The library (`src/`)

| module | what it holds |
|---|---|
| `era`, `stamp` | the era map; stamping a write while checkpoints race it |
| `cbt`, `history` | what a diff and a cursor mean to a backup, proved of the map |
| `meta`, `crc`, `bytes` | the metadata file: layout, checksum, what never loads |
| `target`, `ublk` | what a tracked device announces, and what each request does |
| `manager`, `ctl` | the registry of devices and the requests to the daemon |
| `model`, `durability`, `fault` | a disk with a volatile cache, its faults, its contract |
| `scenario`, `pattern`, `runner` | scenario files and how they run |
| `chaos`, `episode`, `rng` | random episodes against a device, and their checks |
| `client`, `json` | reading replies |
| `text`, `number`, `sys`, `dio` | text, sizes, system numbers, aligned buffers |

The promise at the centre: a byte that changed after a checkpoint is in every
diff since that checkpoint (`stamp::no_write_is_lost`,
`cbt::copying_the_diff_restores_the_image`), and after a crash or a loss of
metadata a cursor is either right, gets the whole device, or is rejected
(`history`).

What is taken from other crates without proof stands in `sys`, `json` and
`dio`, behind functions that say what they rely on.

## The programs (`app/`)

One binary with three names: `ublkera` (daemon and client), `ublkfault` (a
fault-injecting in-memory device and scenario runner) and `ublkera-chaos` (the
chaos harness).
