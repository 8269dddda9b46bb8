# ia-get

A file downloader for [archive.org](https://archive.org): it reads an item's
`_files.xml`, plans the downloads, fetches each file with retries and resume,
verifies size and MD5 hash before a file takes its place, and checks a
directory against the metadata.

## Layout

- `src/` is the library, verified with [Verus](https://github.com/verus-lang/verus).
  It decides; it does no I/O.
  - `archive_metadata`, `link`, `percent`: item URLs, file URLs, the metadata
    document.
  - `file_filter`, `filename`, `plan`, `fs`: which files a run is about, and
    where they go.
  - `downloader`: a file's way from request to its place, as state machines
    that are told what happened and say what to do next.
  - `cookie`, `header`, `status`, `clock`: what goes with a request.
  - `check`: comparing a directory with the metadata.
  - `session`, `run`: the options of a run, and the order of its phases.
  - `display`, `styled`, `verbose`, `text`, `error`: what is shown.
- `app/` is the program around it: arguments, files, the network, the
  terminal.
- `tests/` runs the library on concrete values.

A function that rests on another crate says so in its doc comment, with what
is taken from that crate without proof.
