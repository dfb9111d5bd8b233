# memori

A benchmarking suite: competing functions are measured against benchmark
scenarios (one representative input, or a series of inputs), each measurement
recording CPU cycles, hardware instructions, wall-clock time and heap
allocations; results are kept as numbered history files and gathered into one
HTML report page.

- `src/` is the library, verified with Verus: the decisions of a measuring run
  (`runner`), allocation counting (`allocator`), the suite, the order in which
  its cells are measured (`func::schedule`) and the report of a run
  (`func`, `func::output`), history file numbering (`func::history`), the
  history shown on the report page and the JSON data embedded in it
  (`func::page_data`, parsing and string quoting done by serde_json), the page
  itself (`func::page`), the name-keyed map in ascending order of name that the
  reports use (`keyed`) and the character-level text handling underneath
  (`text`).
- `app/` is the program around it: the global allocator hook, the hardware
  counters and timestamp counter, the file system, reading and writing the
  library's types as JSON, and `main`.
- `tests/` exercises the library on concrete values.
