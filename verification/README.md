# nanite

A command line tool that keeps git repositories under one workspace, in a
predictable `host/owner/repo` layout, and helps move between them.

- `src/` is the library, written in Verus: where a remote is checked out,
  what a checkout path is filed under, the registry of known repositories, the
  configuration and directory layout, the jump list, template parsing and
  rendering, README checks, the search index bookkeeping and query parsing,
  skill sync decisions, prompts and progress views. Every function is
  proved against its `requires`/`ensures`. Where a result rests on something
  outside the library (a prompter the caller supplies, the clock, an
  expression that tera's built-in functions evaluate), the contract states
  only what holds whatever that gives, and says so. The laws that relate
  several functions are proof functions named `law_*`.
- `app/` is the `nanite` program around the library: argument parsing,
  files, git and fzf processes, and the terminal.
- `tests/` runs the library on concrete inputs.

Commands:

```sh
nanite setup ~/workspace
nanite repo clone github.com/icepuma/nanite
nanite repo refresh
cd "$(nanite jumpto nanite)"
nanite shell init fish | source
```
