# deps-lsp

A language server for npm dependency manifests (`package.json`): inlay hints
with the latest registry version of each dependency, hover text with the
required, resolved and latest versions and the package's npm page, versions
resolved from `package-lock.json` (beside the manifest or up to five
directories above it), and package-name completion through the npm registry
search.

`pyproject.toml`, `Cargo.toml` and `go.mod` are recognised as manifests and
kept as open documents, but their dependencies are not read, so they get no
hints, hover or completion. The server offers no version completion, no
diagnostics and no code actions, and hover shows no package description.

The decisions the server takes are a library verified with Verus (`src/`);
the server loop, file and network I/O and the LSP plumbing are ordinary Rust
(`app/`).

## Layout

- `src/` — the verified library:
  - manifest recognition (`ecosystem`), positions and ranges (`types`),
    text helpers (`text`, `numfmt`);
  - `package.json` dependency scan with UTF-16 positions (`npm_parser`),
    `package-lock.json` decoding (`npm_lockfile`), registry responses
    (`responses`), all over JSON read by `serde_json` (`json`);
  - per-document state, the open/change decisions and the cache rules
    (`document`), string maps (`strmap`, `keymap`);
  - the request decisions: hover target, inlay-hint text, cold starts,
    file-size limits, lock-file change fan-out (`handlers`), completion
    context (`completion`), progress reporting (`progress`);
  - ecosystem rules: npm (`npm`, `semver`) and PyPI (`pypi`, `pep440`),
    PEP 503 names, URL encoding (`urlenc`), Unicode case (`unicode`);
  - configuration defaults (`config`), command line (`cli`), and the
    editor-extension download rules (`zed`).
- `tests/` — tests of the library.
- `app/` — the server binary.

Outside crates are called from the library through small trusted wrappers
whose contracts state what the crates document: `serde_json` (parsing),
`pep440_rs`, `node-semver`, `urlencoding`.
