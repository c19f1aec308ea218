# codeowners-perf

A benchmark harness for `codeowners generate`, `validate` and
`generate-and-validate`, with its decisions verified by Verus.

- `src/` is the library. It decides; it reads no file and starts no process.
  - `corpus`: which corpus is meant, which of its files are owned, and when its
    CODEOWNERS file may be overwritten and how it is restored.
  - `cases`: the benchmark cases and the command that each of them runs.
  - `bench` and `measure`: which run comes next, and what is reported of the runs.
  - `phases`: span durations by name.
  - `stats`: spread, median and sorted times.
  - `report`, `run` and `table`: the report and how it is shown.
  - `compare`: two reports side by side, or why they are not compared.
  - `cache`: the cache that is used when caching is switched off.
  - `order` and `text`: strings, their order, and how numbers and columns are written.
- `app/` is the program around it: arguments, git, files, the clock, JSON.
- `tests/` runs the library on concrete values.

Three things are believed without proof:

- that `String::push` adds one character;
- that `{:?}` of a string depends on the string alone;
- that `fast_glob::glob_match` depends on its arguments and on whether a backslash
  separates the parts of a path on the platform, on its arguments alone where the
  path has no backslash, and that it does not panic on a pattern of at most
  2,147,483,647 bytes and a path of at most 4,294,967,293 bytes.
