# samply_mcp

Answers questions about sampled CPU profiles and `perf c2c` recordings over the
Model Context Protocol: hot functions, call trees, collapsed stacks, context
switches, source lines, and cache lines that processors contend for.

- `src/` is the library. Every function has a contract, and Verus proves it. The
  contracts of the calls into `std` and other crates, marked `external_body` or
  `assume_specification`, are believed: each says above it what it claims.
  - `profile/` reads the tables of a profile into plain data,
  - `analysis/` computes over samples,
  - `c2c/` decodes memory accesses and groups them by line and by site,
  - `mcp/` answers the requests and decides which loaded profile stays,
  - the other modules hold what these share: text, ranking, grouping, sums.
- `app/` is the program: arguments, files, debug data, and the server.
- `tests/` run the library on concrete values.

Times are whole nanoseconds, although their fields are named after the
milliseconds in which they are shown; `units` says how they are written.
Counters stop at the largest value that fits. Percentages are kept as a part
and a whole until they are shown.

Functions whose names start with `law_` state what holds of the library as a
whole: what a group or a ranking keeps, which times add up, which identifiers
lead back to what they name, and what the cache of profiles never does.
