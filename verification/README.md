# yesterfile

Yesterfile keeps an always-on, local timeline of Git worktrees. Watchman
reports the paths that have changed, and every settled state becomes a commit
in a private bare Git repository beside the worktree, whose own branches, index
and objects are left alone.

The library under `src/` is verified with [Verus](https://github.com/verus-lang/verus).
It decides everything and does nothing by itself: a procedure is a function of
the replies that it has had so far, and gives the next action, or says how it
ended. The program under `app/` performs the actions and hands the replies back.

## Layout

- `src/procedure.rs`: actions, replies, failures, and how procedures are put together
- `src/platform.rs`, `src/config.rs`: the user's directories, and the configuration
- `src/discovery.rs`, `src/search.rs`: which worktrees are watched
- `src/git_store.rs`, `src/opening.rs`: the private history of a worktree
- `src/capture.rs`, `src/select.rs`, `src/commit.rs`: taking a snapshot
- `src/history.rs`: the snapshots of a file, and what it held in one
- `src/watchman.rs`, `src/registering.rs`, `src/reconcile.rs`: triggers
- `src/cli.rs`: what the commands do and say
- `src/paths.rs`, `src/native.rs`, `src/path_set.rs`, `src/ordered.rs`,
  `src/text.rs`, `src/numbers.rs`, `src/json.rs`: what the rest is made of
- `src/outside.rs`: what is taken from other crates, and what is relied on
- `src/laws/`: what holds of the library as a whole

## What is proved

For every reply that can come, among other things:

- taking a snapshot leaves the worktree's branches, index and objects alone;
- nothing enters a snapshot from an ignored directory, from outside the
  worktree or above the size limit, and a report moves only reported paths;
- the newest snapshot holds exactly the files that belong there, as they are in
  the worktree, whether it had to be made or was there already, and a report
  updates exactly the reported paths; a captured file is shown byte for byte as
  it was, whatever is captured later; a second snapshot of an unchanged worktree
  is not made (of Git, that it does what its manual says is taken for granted);
- an unchanged tree is not committed, and a commit follows the latest one;
- the snapshots of a file are listed newest first, no more than were asked for;
- the lock is taken first and given back last;
- what a repository says of its own changes the global settings and does not
  replace them;
- the worktrees to watch are in order, each once, none of them excluded, and
  further repositories and discovery roots drop none;
- a search finds every directory within the depth that holds `.git`, has no
  ancestor that does and lies in no directory that is never entered, and nothing
  else;
- a path of the history lies below the root of the worktree, and a file's path
  there leads back to the file;
- what `init` writes is loaded from there;
- the registry holds the registrations of exactly those worktrees that could be
  registered, and none that could not keeps the others from being watched;
- a path of the platform keeps its bytes, whether or not they are text;
- only the project's own triggers, and those of stale registrations, are deleted.
