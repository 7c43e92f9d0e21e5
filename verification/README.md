# shp2geojson

Converts ESRI shapefiles to GeoJSON, one file or a whole tree of them, with parallel
workers, checkpoints, and commands that can be typed while a run is going on.

- `src/` is the library. Everything that the program decides stands there, with
  contracts that Verus proves: which files are shapefiles and complete, where their output
  goes, how a shape becomes a geometry and a field a property, the steps of a
  conversion and of a worker, what each result, command and signal leads to, what a
  checkpoint records, how a hook's command is quoted, and the texts of events, reports
  and errors.
- `tests/` runs the library.
- `app/` is the program around it: the command line, files, threads, progress bars, and
  PROJ. It performs what the library asks for and reports what came of it.

A step that the program performs is a state of a machine in the library, or an `Effect`.
The laws that relate several functions are public proof functions named `law_…`.

What is taken on trust stands in `src/paths.rs` (functions of `std::path`), `src/text.rs`
(case mapping and white space in `std`), `src/queue.rs` (channels of `crossbeam_channel`)
and `src/worker.rs` (`num_cpus`).
