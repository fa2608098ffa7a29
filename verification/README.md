# rdrkit

Read-only access to the objects stored in indexed R-Drive Image (`.rdr`)
archives: list them, inspect or extract them, serve one as a raw file over
localhost NFSv3, and attach it with the host's disk tools.

The library in `src/` is written in Verus. It holds the format and the
decisions, each function with a contract that Verus proves:

- `bytes`, `format`, `directory`, `chunk_index`, `inflate`: the file header,
  record headers, footer pointer, archive directory, compact chunk indexes and
  payload decoding, each a function on bytes;
- `image`, `object`, `nfs`: object listing, range reads planned chunk by
  chunk, and the answers of the read-only export;
- `scan`: the record walks of `inspect` and `extract` as state machines;
- `session`, `text`: parsing of host-tool output, session lookup and ordering,
  and the cleanup plan of a mount session;
- `cli`: what each command asks for on a given host.

`app/` is the command line around it: argument parsing, file and process I/O,
the NFS server and session files. `tests/` runs the library on concrete
inputs.
