# stacked_diffs

`sd` keeps a chain of dependent git branches (a *stack*) rebased onto each
other: the base (say `main`) and the branches above it, bottom to top, are
listed in `.stacks/<stack-name>`, and `sd rebase <stack>` walks the chain with
`git rebase --onto <new-parent-tip> <old-parent-tip> <branch>`.

The library in `src/` is written in Verus and verified: every decision the
tool makes is a function or a small state machine with a contract.

- `config` — the configuration format: loading, `init`, `add` and `rm`
  edits, and the laws that tie them together.
- `state` — the state directory that lets an interrupted rebase resume or
  be aborted.
- `rebase`, `fetch`, `command` — the rebase run, fetching and
  fast-forwarding, and the `rebase`/`--abort` commands around them.
- `manage`, `commands`, `status`, `checkout`, `listing` — `init`, `add`, `rm`, `push`,
  `sync`, `show`, `status`, `list` and `checkout`.
- `cli`, `output`, `errors`, `text` — argument dispatch, the tree views,
  exit codes, and the text handling everything else uses.

The commands are state machines: each `on_*` method takes what git (or the
file system) answered and returns the next step. The program in `app/` runs
git, reads and writes files, prints, and feeds the answers back.
