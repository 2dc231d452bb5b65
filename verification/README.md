# iai-callgrind-runner

Runs benchmarks under callgrind and reports what they cost, compared with the run before.

`src/` is a library verified with Verus. It computes on plain values:

- `args`: the command line of the runner and the arguments for callgrind
- `command`: the programs that are started
- `paths`: where results are kept
- `bench`: the course of a benchmark run, as a state machine
- `output`: reading the event counts out of a callgrind output file
- `stats`: the event counts and what they add up to
- `report`, `style`: what is printed
- `text`: text as sequences of characters

`app/` starts processes, reads and copies files, computes percentages in floating point and
prints. `tests/` runs the library on examples.

Trusted, with the contracts stated at the functions: `String::from_utf8` of the standard library
(`command::text_from_utf8`), its `PathBuf::push` and `Path::with_extension` where paths are not
those of Unix (`paths::push_path`, `paths::replace_extension`), and the styles of the `colored`
crate (`style`).
