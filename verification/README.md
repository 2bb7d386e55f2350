# locked-in

Supply-chain linting for package installs and lockfiles, with its logic verified by Verus.

`locked-in` finds install commands that may bypass a committed lockfile (`npm install`,
`pnpm install` without `--frozen-lockfile`, `yarn add react`, ...) in Dockerfiles, CI
workflows, shell scripts, Makefiles, Markdown code blocks and `package.json` scripts, and
checks that JavaScript, Cargo and Go manifests have their lockfiles committed to Git.

## Layout

- `src/` is the verified library. Each public function states what it returns in its
  `ensures`, over spec functions on plain values (`Seq<char>` for text, `Seq<Finding>` for
  what a file reports).
  - `rules/`: the npm, pnpm, yarn and bun rules for one command line.
  - `parsers/`: line-by-line scanning with ignore directives and Markdown code blocks,
    and the scripts of `package.json`.
  - `context/`: Git metadata, the Git index, `.gitmodules`, workspace declarations,
    `bunfig.toml`, and the lockfiles each manifest expects.
  - `scanner.rs`: one file's report, the tracked-lockfile check, and the scan's result.
  - `report.rs`, `cli.rs`: text and JSON output, command-line arguments, exit codes.
  - `paths.rs`, `text.rs`, `order.rs`: a model of `std::path`, text helpers, and the
    stable sort of results by path.
  - `laws.rs`: properties of the whole library, proved.
  - `pattern.rs`, `json.rs`: the calls into `regex` and `serde_json`, with their
    contracts.
- `app/` is the command-line tool: it walks the repository (`ignore`), reads files within
  their size limits, lints them in parallel (`rayon`), and prints with `colored` and
  `serde_json`.
- `tests/` runs the library on concrete inputs.
