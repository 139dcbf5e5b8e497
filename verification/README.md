# bladedance

The core logic of the Bladedance IRC server, written in Verus: the
behaviour of each function is stated in `requires`/`ensures` clauses and
proved.

- `src/` is the verified library: case-insensitive comparison and wildcard
  matching, CIDR and address parsing, the IRCv3 tag escaping, the TOML and
  legacy configuration readers, durations and other text formats, token
  lists, the Base64/hex/percent encodings, the ban cache, the extension
  stores, the timer schedule, the bookkeeping of the poll and select
  socket engines, server notice stacking, and the decisions of the user
  manager, the module loader, the start-up code and the SHUN module.
  Laws that span several functions are public proof functions named
  `law_*`.
- `tests/` runs the library on concrete values.
- `app/` is the C ABI that the C++ server calls: file, socket and library
  I/O, the serde copies of the configuration types, command-line parsing
  with clap, logging through tracing, and the MongoDB module. It makes no
  decision of its own.

`verus` verifies `src/`; the trusted items (calls into `std` and `chrono`
that Verus does not specify) are the functions marked
`#[verifier::external_body]` and the `uninterp` spec functions that name
their results.
