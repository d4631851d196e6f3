# gruth

**G**it **R**epository **UT**ility **H**elper: a terminal dashboard that
watches many git repositories under a root directory, shows branch, status,
ahead/behind counts and last-commit age for each, and pulls the clean ones
that are behind.

## Layout

- `src/` — the verified library (Verus). Every function carries a contract
  that Verus proves.
  - `app` — the dashboard state: repositories, the filtered and sorted view,
    selection, search, refresh bookkeeping, detail pane, overlays, messages.
  - `keys` — what each key press does in each mode, and what the caller is
    asked to do next.
  - `view` — the text of the table cells, the columns that fit, counts.
  - `scanner` — repository discovery as a state machine over directories.
  - `sync` — the headless sync decisions and tally.
  - `dir_picker` — the directory picker's listing, order and selection.
  - `git_ops` — repository summaries and details built from what git reports.
  - `config` — colours, preset themes and how the theme in use is chosen.
  - `update` — version comparison, release assets, and taking the program
    out of a `.tar.gz` release archive.
  - `cli` — command-line settings resolved against the settings file.
  - `text`, `paths` — character sequences, ordering, paths.
- `app/` — the program around the library: argument parsing, the settings
  file, git access, the file system, the terminal UI and the network.
- `tests/` — tests of the library's public functions on concrete values.

## Usage

```bash
gruth                        # Launch with directory picker
gruth -p ~/projects          # Monitor a specific directory
gruth --sync -p ~/projects   # Headless fetch + pull, then exit
gruth version                # Show version and commit hash
gruth update                 # Self-update to latest release
```
