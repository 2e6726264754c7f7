# Unified Codex Provider (`ucp`)

A profile manager for switching Codex accounts and model providers without losing refreshed
logins or the visibility of historical sessions. Its logic is a Verus library: what each
function returns is stated in its contract and proved.

## Layout

- `src/` is the verified library.
  - `text`, `lists`, `order`, `paths`: characters, lines, sorting and paths.
  - `json`, `toml_docs`, `tokens`, `moments`: documents, tokens and times, with the calls into
    `serde_json`, `toml_edit`, `toml`, `base64` and `chrono`.
  - `sessions`, `injections`: rewriting and repairing rollout files, and moving the byte
    checkpoints of what was built from them.
  - `history`: the index of tool calls and command executions.
  - `auth`, `auth_refresh`, `oauth`: logins, when they are refreshed, and new ones.
  - `provider`, `config`, `overrides`, `migrate`: profiles, configuration files, what a profile
    sets on top of the common one, and where profiles come from.
  - `sync`, `setup`, `service`, `commands`, `reports`: the steps of the commands and what they
    say.
- `app/` is the command-line program around it: arguments, files, databases and processes.
- `tests/` runs the library on concrete values.

## What is taken on trust

The contracts of the calls into outside crates, each beside its call with a comment that says
what it claims. They name what a parser or a printer returns without saying how, and state the
facts that the proofs use: that `serde_json` reads back what it writes and skips a carriage
return at the end, that `base64` decodes
what it encodes, that removing a key from a TOML document leaves the other entries in order,
that a TOML document holds the string that its first line gives a key, that setting an item of a
TOML table keeps the others.
