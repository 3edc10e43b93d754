# slot

The logic of a handheld Game Boy Advance / Game Boy frontend, verified with Verus.

- `src/` is the verified library.
  - `text` — character-level helpers (trimming, lines, decimal numbers) with their specifications.
  - `store` — the SD card's files as text: the `key=value` files, favourites, recents, the
    per-cart core choice, display preferences, save-state rings, the Game Boy and Game Boy
    Advance cartridge headers, the header index of the library, the decisions behind bringing an old card's layout up to date (what each
    entry of a walked directory becomes, and how the outcome is counted), and the shelf's
    order.
  - `input` — the button gesture machine: chords, taps, holds, fast-forward latching.
  - `power` — the lid and backlight state and what the board is handed, the rounds of a
    lid-shut standby, and what a Linux board's sysfs text means.
  - `retro` — what a libretro frontend answers a core, how a core's frame lands in the
    presented picture, the link session's queues and the mock core.
  - `gfx` — what the framebuffer driver says about the panel.
- `app/` is the unverified shell around it: the directory walks, renames, file and sysfs
  I/O, ioctls, the clock, the libretro and EGL libraries loaded at runtime, and
  floating-point audio. It asks the library what to do at each step.
- `tests/` runs the library on concrete values.

Each file format comes with a round-trip law (what is written reads back), and the state
machines with the properties their users rely on; they are the `law_*` proof functions.
Laws about the card's directories are stated over the decisions the walks take, not over
the file system itself.
