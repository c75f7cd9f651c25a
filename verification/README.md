# turbo_test

The decision-making core of a native JavaScript/TypeScript test runner (a vitest-compatible
runner on V8), written in Verus: every function in `src/` carries a contract that Verus proves.

## Layout

- `src/` — the verified library.
  - Command line and run: `cli` (flag table, `--shard` partition, worker count), `outcome`
    (test reports, the retry policy for transient DOM start-up failures and fresh-isolate
    reruns, result lines, JSON run summary, exit status), `launcher` (argument split,
    test-file discovery rules, config scanning, `--changed`).
  - Configuration text: `config` (config keys and values, setup-file lists, path handling,
    module resolution fallbacks, CommonJS-first detection), `glob`, `decimal`.
  - Modules and mocks: `modules`, `loader`, `mocks` (vi.mock hoisting and rewrites),
    `registry` (module tables, importer invalidation, isolate reuse), `esm_cjs` (the text
    of ES module to CommonJS lowering), `bundler` (package bundle plan and wrappers),
    `transform` (oxc TypeScript/JSX lowering), `graph` (affected-test selection), `dom`,
    `napi`.
  - Coverage: `covdata` (hit tables and their merge laws), `sourcemap`, `meta`, `covmap`
    (V8 profile decoding, V8 ranges to source lines, functions, branches, statements),
    `coverage` (settings),
    `report` (rows, thresholds), `lcov`, `order`, `assoc`, `text`.
- `app/` — ordinary Rust around the library: file-system and process I/O (discovery, git,
  resolution on disk, report files), the oxc syntax-tree walks, and the duration history.
- `tests/` — tests of the library through its public API.

Outside crates called from the library go through a handful of trusted wrappers (oxc's
transform pipeline, base64 decoding, two serde_json reads, and a few std functions),
each documented where it is declared.
