# prmt

A shell prompt generator. A format string such as `{node:green} {git:purple}`
names modules; each module shows something about the working directory: the
version of a tool (Node.js, Go, Bun, Deno, Python, Rust), the branch and
status of the git repository, an environment variable, or the time.

The library (`src/`) is verified with Verus. It holds the rules of the
modules and the parsing of what the tools print:

- `modules/`: each module's rendering, with its format rules and errors;
  the parsers of `node --version`, `go version`, `rustc --version`, ...;
  the parsing of `git status --porcelain` output and of git formats; the
  time of day and its 12/24-hour texts; rustup's settings and toolchain
  files (read with `toml`) and the choice of the toolchain that applies.
- `detector.rs`: the markers (`Cargo.toml`, `.git`, ...) found around the
  working directory, and the search that climbs the parent directories.
- `registry.rs`: the modules by name and the markers they need.
- `placeholders.rs`, `style.rs`: the format string split into text and
  placeholders, and a placeholder's style written as ANSI escapes wrapped
  for the shell.
- `cli.rs`, `shell.rs`, `numbers.rs`: the command line (read with `lexopt`),
  the shell detection rules, and decimal numbers as `str::parse` reads them.
- `bench.rs`: the summary of a benchmark run.
- `text.rs`: the string operations used throughout, with their
  specifications.

A module whose text needs something from outside the process (a tool's
version, an environment variable, a repository's state) renders to a
request; the program in `app/` runs the tool, reads the variable or queries
the repository (with `gix`, or `git` and `rayon`), and hands the result back
to the library, which makes the text. For a repository the library also
decides, from its ownership and from what was already looked up during the
rendering, whether to show nothing, the remembered text, or to look it up.
