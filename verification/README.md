# baasic_media_player

A local music library with duplicate-aware import, written in Verus.

- `src/` is the verified library: the library's tables (`db`), its listings
  (`queries`, `groups`), SQLite's `LIKE` (`like`) and sort orders (`order`,
  `paths`), the import's decisions (`import`, `scanner`), tag defaults and
  AcoustID / Cover Art Archive data (`metadata`), the download command
  builder (`acquire`), folder locations (`locations`), and the laws that hold
  across operations (`laws`) and over whole import runs (`import_laws`).
- `app/` is the program around it: the SQLite file, file and network work,
  `fpcalc`, tag writing, settings and the command line
  (`baasic_media_player --import-folder <dir>`).
- `tests/` runs the library on concrete values.
