# catrina

A mini bundler for the npm package `catrina`, as a verified library and a
thin command-line program around it.

- `src/` is the library, verified with Verus: how files split into lines,
  paths as `std::path` reads them, the project configuration, how the
  JavaScript and CSS entry files are read for library imports, and how the
  bundles are put together from the library's files. A file is handled as its
  text; the files a step needs are handed to it already read.
- `app/` is the program: argument parsing, the configuration file in JSON,
  running npm or yarn, asking the user, and reading and writing files.
- `tests/` checks the library on concrete inputs, among them against the
  standard library's own `Path`, `PathBuf` and `str` methods.
