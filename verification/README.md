# typface

A small wrapper for keeping several Typst versions on one machine. The library
(`src/`) holds the logic, verified with Verus:

- `cache`: Typst versions (`TypstVersion`), the cache file of discovered binaries
  (`read_cache`: its byte format, read and written), lookups in it (`lookup`) and the
  recognition of Typst binaries and of their `--version` report (`discover`);
- `config`: the configuration and where it lives;
- `process`: the environment chosen for a version, and what `execve` is handed;
- `select`: the version named on the command line and the plan a command line leads to;
- `listing`: the report of `list`;
- `laws`: properties that relate these operations.

`app/` is the program around it: argument parsing, reading and writing files, running
binaries and replacing the process with Typst.
