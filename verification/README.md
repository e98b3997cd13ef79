# git-grove

A grove is a repository kept as a bare clone with Git worktrees around it. `git-grove` clones or
initializes one, adopts an ordinary repository as one, adds and lists worktrees, fetches and
fast-forwards those that can be, and publishes a grove that has no remote yet.

`src/` is the library. All of its logic is verified with Verus. `app/` is the program: it parses
the command line, runs Git and the providers' tools, performs what the library asks of the file
system, and prints.

## How the library is written

Git, the providers' tools and the file system are reached through the traits
`git::runner::GitRunner`, `git::provider::ProviderRunner` and `fsx::files::FileSystem`, one request
at a time. A session is the model of each: the requests made so far, and a script that says what a request is answered after those before it. The contract
of a function that makes requests says, for every script, which requests it makes, in which order
and with which contents, and what it returns: `sync::run`, for example, `ensures` that the sessions
and the result are those of `sync_run`. Nothing is assumed of the answers.

The commands that make a grove run their children behind a guard (`git::guard`), which checks that
the new directories stay the same. They are handed the runner and the guard's file system and give
both back, so that their contracts say where either ends.

The laws of the library are public proof functions over the same models, beside the functions
that they are about, or in a module of their own where they span several.

| Module | What it holds |
| --- | --- |
| `bytes`, `text`, `order`, `path` | byte strings, text, ordering, paths as bytes |
| `error` | classes of errors, and their exit statuses |
| `fsx` | atomic writes, held directories, locks, mounts, nonces |
| `git` | invocations, queries, refspecs, remotes, fetches, providers |
| `grove` | finding a grove, its layout, its record, its guide, the state of its worktrees |
| `commands` | one module or more for each command |
| `commands::adopt` | adoption as a transaction with a journal: planning, the phases, undoing |
| `cli`, `policy`, `output` | what a command line is short for, what is refused before anything is done, how a listing is written |
| `hooks`, `commands::hook_guard` | the guard against agents' tools |

## What is trusted

Six functions call outside code, and Verus takes their contracts as they stand:
`text::escaped` (`bstr`), `text::lossy` (the standard library), `fsx::nonce::random_bytes`
(`getrandom`), `fsx::held::file_kind` (`rustix`), `hooks::json_string` (`serde_json`) and
`commands::adopt::evidence::sha256` (`sha2`). The doc comment above each says what is claimed.

The programs that implement the traits are not verified: `app/` has one of each, and the tests
have simulations.
