# bb_scrape

Reads the pages of a Brutalball league site (team list, team rosters, the
season schedule with results, the injury report), turns them into tables,
caches them and exports them as CSV or TSV, in one file or one file per team.

- `src/` is the library, written in Verus: every page reader, the table and
  export formats, the cache format, the command line reading, and the logic
  of the window (selection, filtering, merging, checks, status lines) carry
  contracts that Verus proves. Public proof functions state the laws that
  relate several operations (what a write reads back as, what an accepted
  schedule guarantees, that a per-team export never reuses a path, ...).
- `app/` is the program around it: networking, files, threads and the egui
  window. `bb_scrape [options]` runs from the command line (`-h` lists the
  options); `bb_scrape --gui` opens the window.
- `tests/` runs the library on concrete pages and values.
