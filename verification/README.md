# vxpm

A terminal program for maintaining custom [void-packages](https://github.com/void-linux/void-packages)
templates, with its logic verified by [Verus](https://github.com/verus-lang/verus).

It tracks the versions of self-built packages, asks upstream for newer ones, bumps templates, builds
what is outdated in the order of dependencies, keeps the register of shared libraries, and runs the
git operations of the workflow.

## Layout

- `src/` is the library: everything the program decides. Each function has a contract over
  mathematical models, and Verus proves it. What relates several functions is stated as a public
  proof function whose name starts with `law_`.
- `tests/` runs the library on concrete values.
- `app/` is the program around it: processes, files, requests and the screen.

| Module | What it holds |
|--------|---------------|
| `text`, `line`, `order`, `table` | characters, lines, the order of texts, maps keyed by texts |
| `version`, `package`, `template`, `bump` | versions, templates, the status of packages, bumping |
| `dep_graph` | dependencies: build order, what to rebuild, the tree of dependents |
| `shlibs` | the register of shared libraries and what is installed in its place |
| `version_check` | the sweep over packages that asks upstream, step by step |
| `repo` | which packages there are, what is built of them and what is installed |
| `settings`, `config`, `gcc` | configuration, and the compiler that packages need |
| `git` | where the branches stand, and operations on them, step by step |
| `building` | logs, checks before a build, the queue |
| `cli` | the commands that need no screen |
| `screen`, `app`, `load`, `poll`, `actions`, `keys`, `ui` | the state of the program, what messages and keys do to it, and what is on the screen |

## What is trusted

Verus believes a few functions of other crates without proof, each behind an item whose comment says
what is claimed: `String::push`, `char::is_alphanumeric` and `str::to_lowercase` of std,
`Sha256::digest` of sha2, and the parser of toml.

## Keys

| Key | Action |
|-----|--------|
| `j`/`k` | Navigate |
| `/` | Search/filter |
| `u`/`U` | Check upstream versions (selected/all) |
| `t`/`T` | Bump template to latest (selected/all that upstream is ahead of) |
| `b`/`B` | Build (selected/all outdated) |
| `g` | Git status and operations |
| `s` | Apply SONAME shlib updates |
| `r` | Refresh |
| `Enter` | Detail panel |
| `Tab` | Tree of dependents |
| `?` | Help |
| `q` | Quit |

If leftover build state or dependencies that would be compiled speak against a build, a question
comes first: `c` cleans up and builds, `b` builds anyway, `Esc` or `q` drops the build.

## Commands

```sh
vxpm check-updates           # list "<name> <cur> -> <latest>" lines
vxpm check-updates --json    # the same as JSON
vxpm bump <pkg>              # bump one template and its checksums
vxpm bump --all              # bump every template that upstream is ahead of
```

Exit codes: `0` no updates or success, `1` updates available or a partial failure, `2` GitHub refused
requests for their number.
