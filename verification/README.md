# scriv

Listings of, and actions on, the things a terminal day is spent looking for:
Git repositories laid out as `<root>/<owner>/<repo>`, the files you keep
coming back to, branches and worktrees, GitHub pull requests, running
processes and the commands already run. This build has no interactive
selector: the commands that would open one ask for the name on the command
line instead.

The decisions are a library verified with Verus; the program around it reads
the environment, runs `git`, `gh` and `ps`, and prints what the library
decided.

## Layout

- `src/` — the verified library. Every public function carries a contract
  stating what it returns; the laws that span functions are proof functions
  beside the code they are about.
  - `config`, `binding` — the configuration: its tables, what an old layout
    is migrated to, and what the shell integration binds.
  - `git`, `gh`, `proc`, `history` — reading what `git`, `gh`, `ps` and fish
    print, and the arguments each is run with.
  - `files`, `path`, `note`, `clock`, `text`, `term` — the known-files list,
    paths shown with `~`, notes, dates, and text made safe to draw.
  - `discover` — the rules of the repository walk.
  - `cmd/` — what each command decides around its I/O: rows, reports,
    questions and refusals.
- `tests/` — the library's tests.
- `app/` — the `scriv` program: command line, environment, I/O.
