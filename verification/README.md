# rudd — Rust Directory Delta

A tool to see the delta between two directories: which files are only in the
main directory, which are only in the directory compared with it, which are in
both, and (with `--md5`) which are in both with different content.

```sh
rudd <MAIN_DIR> <COMPARE_DIR> [--verbose] [--diff-only] [--md5]
```

## Layout

- `src/` — the library, verified with Verus:
  - `path.rs`: paths as sequences of components (Unix rules), and their order;
  - `file_map.rs`: a map from relative paths to files, kept in path order;
  - `diff.rs`: the comparison of two maps; `diff_laws.rs`: what every
    comparison reports (counts, symmetry, determinism, identical directories);
  - `display.rs`: the report as lines of styled text;
  - `scanner.rs`: file entries, MD5 checksums as text, the checks before a scan;
  - `text.rs`, `error.rs`, `cli.rs`: decimal and hexadecimal text, errors,
    the command line as plain values.
- `app/` — the program: command-line parsing (clap), walking directories
  (walkdir), reading files, and printing the report in color (colored).
- `tests/` — tests of the library.
