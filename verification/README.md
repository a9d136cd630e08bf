# elm-bench

Run elm benchmarks from the command line.

- `src/` is the verified library: detecting the exposed benchmarks in an
  `elmi-to-json` report (`json`, `elmi`), the decisions of a run (`run`),
  the source directories of the generated project (`paths`), filling the
  templates of the generated files (`template`), and unpacking an embedded
  directory tree (`unpack`).
- `app/` is the program around it: argument handling, running `elm`,
  `elm-json`, `elmi-to-json` and `node`, and reading and writing files.
  It reads its templates from the directory named by `ELM_BENCH_ASSETS`
  (or the program's own directory): `templates/` and
  `elm-benchmark-cli/src/`.
