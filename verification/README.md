# musicum

The core of the musicum audio library and its command line, with the rules
of the library stated as contracts and proved with Verus.

## Layout

- `src/` — the verified library:
  - `text`: decimal rendering, joining, ordering and sorting of texts, line
    splitting, pattern replacement;
  - `table`: tables, detail listings, boxes and section headers fitted to a
    terminal;
  - `paths`: file names, extensions and stems of paths;
  - `export`: accepted output formats, overwrite protection, the `ffmpeg`
    command line and the resulting settings;
  - `library`: what a library sync picks up, how it identifies and hashes
    files, and what it does with each file and clip;
  - `edit`, `ids`: edit lists (structural processors and plugins), their
    parameter tables, updates by identity, and entries of the older layout;
  - `editor`: the state machine of the interactive processor editor;
  - `queue`, `player`: playback position in a queue of clips, key handling
    of the player, resolving what a target names;
  - `presets`: processor entries of presets and their listings;
  - `completions`: the slug-aware shell completion scripts;
  - `schema`: keeping the catalogue schema current;
  - `config`, `cli`, `params`, `sidecar`: configuration, command-line
    arguments, plugin switches and sidecar locations.
- `tests/` — tests of the library on concrete values.
- `app/` — the program around the library: argument parsing, files,
  terminal drawing, JSON and TOML, the floating-point audio plugins and the
  structural processing chain.

Public proof functions named `law_*` state properties that hold across
calls, such as undoing a move, sorting twice, or a parameter set by identity
reaching the processing chain.
