# musicdb

The decisions of the musicdb music-player client and of its database filler,
as a verified library: the library view (search, filters, selection, sorting),
the queue view and what dropping on it adds, the text configuration language
and the texts it produces, the tag editors, key bindings, text fields and
notifications, and the filler's filing of songs by artist and album, its
custom-files directory format and its statistics.

- `src/` is the library; its functions are verified with Verus against their
  contracts, except the few `#[verifier::external_body]` wrappers around
  calls into `regex`, `toml`, `speedy2d` and `std`, whose contracts are
  trusted; the `pub proof fn`s state the laws that hold across calls.
- `tests/` runs the library on concrete values.
- `app/` is a small command-line program around it: it checks the client's
  configuration file (the library reads its text and judges the font), and
  it scans a directory of mp3 files and files them by artist and album in
  the filler's order (disc, track, path), with the filler's tags, covers (of
  albums and of singles' directories), custom-files tags and statistics,
  printing the result. It does not build or save a database, has no export
  mode, leaves out the filler's `--dbdir` and `-v` options, and writes no
  default configuration file when none is found.
