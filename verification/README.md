# BibleDesk

A desktop Bible reader: it lists the translations and books of a text
service, shows chapters (caching whole books locally), searches the cache,
keeps reading plans, saved verses with notes, coloured marks on verses and
words, and flash cards for memorising verses.

- `src/` is the library, verified with Verus: `text` (whitespace, trimming,
  words, decimal numbers, byte order), `sort` (stable sorting and its laws),
  `models` (the records and their views), `api` (service addresses and what is
  made of its answers), `reader` (the reader's state machine), `settings`,
  `study` (flash cards), `plans`, `saved`, `marks`.
- `app/` is the desktop program around it: the window (egui/eframe), the HTTP
  exchanges (reqwest, serde_json), the SQLite store (rusqlite) and the clock
  (chrono).
- `tests/` exercises the library on concrete values.
