# gnome_monitor_settings

Monitor settings for GNOME over DDC/CI, with its core verified by Verus.

- `src/` — the verified library:
  - `text.rs`: character-sequence operations with the semantics of `trim`,
    `lines`, `split`, `split_whitespace`, `strip_prefix`, integer parsing and
    formatting;
  - `model.rs`: monitors, controls, the published state, and the table of the
    eight safe VCP features;
  - `backend.rs`: `ddcutil` command lines and the reading of its output
    (`detect --brief`, `getvcp --terse`, `--version`);
  - `manager.rs`: what the manager decides on refresh, on a write and its
    read-back, and on a combined brightness change;
  - `laws.rs`: properties of the library as a whole.
- `app/` — the programs: the D-Bus user service (default) and the GTK
  application (`--app`), with process, D-Bus, JSON and widget plumbing.
- `tests/` — tests of the library.
