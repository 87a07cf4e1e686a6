# moments

The verified core of Moments, a desktop viewer for large local photo and video
libraries. The library (`src/`) holds the in-memory library of folder roots,
their scanned media, per-item metadata (favorites, tags, face ids) and
detected faces, with every operation proved against its contract in Verus.

- `library`: the library state and its operations.
- `walk`, `scan`, `paths`, `hashing`: walking a root (which entries are queued,
  read, recorded or skipped) and turning the files found into items.
- `tags`, `duplicates`, `order`: tag normalisation, duplicate groups, sorting.
- `catalog`, `inference`, `analysis`: the analysis models, the integer side of
  running them, and the steps of a folder analysis.
- `storage`, `files`: rows of the SQLite index and decisions about files.
- `laws`: properties that span several operations.

`app/` is the Tauri shell: commands, SQLite, downloads, file walking and the
floating-point side of model inference.
