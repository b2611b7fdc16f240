# multi-repo

`multi-repo` keeps a collection of Git repositories synchronized and searches
all of them at once. This is its library, verified with
[Verus](https://github.com/verus-lang/verus), and the program around it.

## Layout

- `src/` is the verified library.
  - `config` checks configuration files and resolves their paths.
  - `provider` says what GitHub, Bitbucket Server, manifests and the
    configuration itself tell of their repositories.
  - `inventory` defines what the inventory holds and what becomes of it;
    `state` is the inventory, `rows` the tables in which it is stored.
  - `reconcile` takes what sources list into the inventory, or previews it.
    `sync` holds the parts of a synchronization, `sync_run` its course, and
    `sync_laws` states what holds of it.
  - `git` and `prune` decide step by step which Git commands are run and what
    is done with working trees; the program performs each step and hands back
    what came of it.
  - `search` selects repositories and files and turns matches into events;
    `output` and `report` write what the program prints.
  - `language` detects languages; `glob` builds sets of globs.
  - `text`, `path`, `string_set`, `text_map` and `sort` are the data structures
    and text functions that the rest is built on.
- `app/` is the program: the command line, files, the database, HTTP, running
  Git, and threads.
- `tests/` holds the tests of the library.

## What is proved

Every function of the library has a contract that says what it returns for
every input that its `requires` admits; most have none. Functions named `law_*` are proofs of what holds of several
functions together, for example:

- a working tree is moved forward only if it is clean, on its default branch,
  and strictly behind its remote (`git`);
- pruning deletes a directory only if it is a working tree below the repository
  directory and holds nothing that exists nowhere else (`prune`);
- a dry run neither locks the workspace nor stores an inventory nor starts a
  repository (`sync_run`);
- once all repositories are done there is one report about each of them, and
  the progress is told one by one, first of the sources, then of the
  repositories (`sync_run`);
- the remotes of one repository have one canonical form whatever the transport
  (`provider`);
- reconciling a source destroys nothing, and exactly the repositories that some
  source lists are active (`inventory`);
- a preview tells what a synchronization then does (`sync_laws`).

What the crates `globset`, `grep-regex`, `grep-matcher`, `url`, `reqwest`,
`serde_json` and `base64` and a few functions of std do is believed, not
proved. The functions that call them are marked `external_body`, or stand in an
`assume_specification`; their comments say what is believed.
