# spiral

The decision cores of two small desktop tools, written in Verus and proved
against their contracts:

- **Spiral Clean** reclaims disk space on macOS. Every removal goes through
  one boundary (`remove`) that decides, for each path, whether it may be
  destroyed, moved to the Trash, or must be left alone: the safe-category
  catalog, the user's exclusion list, user content, the location a claim
  rests on, and the bundle identity an app declares. Around it sit the scan
  that attributes every file to exactly one category, the privileged batch
  that puts one password prompt in front of a set of administrator commands
  made only of allow-listed characters, the Optimize actions, the health
  report's parsers, and the Storage screen's rules.
- **Spiral Wallpaper** browses wallpaper sources. The library builds each
  search request (safe-for-work only, one host per source), shapes every
  answer into one page type, accepts downloaded bytes only when they are an
  image, and keeps the thumbnail cache under its cap.

## Layout

- `src/` — the verified library. The filesystem, the network and
  subprocesses never appear here: what they said comes in as plain values
  (an `FsView` of probed paths, a command's output, a walk's files), and
  what must be done goes out as plain values or through a closure the caller
  supplies. The one reading of the clock is `health::uptime_from_boottime`,
  which asks std for the current time through a small trusted call and
  states nothing of the value it gets.
- `tests/` — tests of the library on concrete values. Filesystem situations
  are described rather than created: a small in-memory world answers the
  probes.
- `app/` — the outer layer: probing the disk, deleting, running tools with a
  deadline, reading and writing the settings files, and the HTTP client.
