# Hush

A silent cleaner for macOS: it clears caches, logs, build artifacts and stale
snapshots, ends unwanted processes, quiets notifications and background agents,
and tunes the system, by hand or as a daemon.

The decisions are verified with Verus. The library under `src/` never touches
the system: it is handed what was found as plain values and hands back what to
do next. The program under `app/` looks at the disk, runs the tools and carries
out what the library hands out.

## Layout

- `src/guard.rs`: what may never be touched.
- `src/error.rs`: failures, and the outcome of removals.
- `src/cleaner/`: removals (`ops`), sizes (`measure`), sweeps (`walk`), system
  junk (`system`), developer caches and build artifacts (`cache`), apps (`apps`)
  and snapshots (`snapshots`).
- `src/optimizer/`, `src/sentinel/`: the tuning and silencing passes, unwanted
  processes (`processes`) and the files they hold open (`locks`).
- `src/config.rs`, `comments.rs`, `json.rs`, `migrate.rs`: the configuration.
- `src/cli.rs`, `src/daemon.rs`, `src/passes.rs`: what a command or the daemon
  runs, and when.
- `src/text.rs`, `paths.rs`, `dates.rs`, `clock.rs`, `size.rs`, `lists.rs`:
  text, paths, dates, time, byte counts and sorting.
- `src/command.rs`, `plan.rs`, `agents.rs`, `ncprefs.rs`: command lines, plans,
  launch agents, preferences of the notification center.

## Conversations

What depends on the outside is a conversation: a stage names the next question
or action, and takes the answer. A stage that deletes a path can only be reached
for a path that may be deleted, and none that deletes can be reached in a dry
run, which type invariants keep.

## What is guaranteed

Public proof functions next to the code state what holds across functions, for
example that a protected path is answered with a single skip, that no removal,
uninstallation or deletion of a snapshot or backup comes about in a dry run
(`passes.rs`), that the newest snapshots stay whatever their age, that migration
only adds to a configuration, that whitelisted processes are never crushed, and
that none is which belongs to an intact bundle and holds files of the user open.
