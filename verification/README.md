# rozy

`rozy` turns an ELF executable into an interactive, self-contained size report. Every byte of the
sections that take memory is attributed to a symbol, a source file and a crate, or to nobody.

```text
Flash = text + initialized data
RAM   = initialized data + bss/noinit/stacks
```

## Layout

- `src/` is the library. Verus proves it: what a section counts as, which symbol owns which byte,
  how a source path is grouped, which crate a symbol comes from, in what order a report lists its
  entries, how report data is embedded in the page, and which executable of a build is analyzed.
- `src/laws.rs` and the `law_` functions of the other modules state what holds of the library as a
  whole.
- `src/object_file.rs`, and the functions marked `external_body` or `assume_specification` in the
  other modules, are what is trusted: the calls into `object`, `addr2line`, `serde_json` and `std`.
- `app/` is the `cargo rozy` command: arguments, files, lookups in debug information, processes and
  the JSON of a report.
- `tests/` runs the library.

Paths are taken apart by the rules of Unix.
