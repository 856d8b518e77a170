# pinst

The decision logic of `pinst` — a tool that installs, updates and doctors a
machine's toolchain, carries its dotfiles, and keeps an agent harness (a
`.ash/` plan corpus and `.agents/` skills) honest — written in Verus, with
its behaviour stated as contracts and proved.

## Layout

- `src/` — the verified library.
  - `manifest`, `validate`, `graph`, `plan`, `platform`, `template`,
    `source`, `path`, `text`: the manifest model, its validation, dependency
    ordering, install plans, `${VAR}` templating, where bundled trees are
    read from, and the text and path operations the rest is stated over.
  - `upgrade`, `registry`, `probe`, `health`: upgrade checks and their TTL
    cache, the tool registry, version probes and dotfiles health.
  - `harness`: the plan corpus (`corpus`, `check`, `id`, `renumber`,
    `frontmatter`, `evidence`, `evals`, `skills`, `transcripts`), the
    harness's own assets and their installation (`asset`, `vendor`,
    `install`), and the paths of a corpus (`root`, `project`).
  - `json`: JSON as plain values, read through `serde_json`.
  - `prompt`, `view`, `doctor`: the install picker's state machine, the text
    the dashboard shows, and findings.
- `tests/` — tests of the library, run against the compiled crate.
- `app/` — the command line around the library: it reads the disk, the
  environment, subprocesses and the network, hands what it found to the
  library as plain values, and prints what the library decided.

The library never touches the disk, the clock or the network itself: every
decision that depends on the machine takes what the caller observed as
arguments, so each one is proved for every such observation. Parsing JSON
and TOML, reading regular expressions and taking paths apart go through
`serde_json`, `toml`, `regex` and `std::path`, each behind one small function
whose contract names its result.
