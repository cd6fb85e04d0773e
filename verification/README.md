# tectonic

Workload generation and benchmarking for key-value stores, with its core
verified in Verus.

A workload specification describes sections of operation groups (inserts,
updates, merges, point and range queries and deletes). Generation turns it
into a workload file of one operation per line; execution reads such a file
back and runs it on a database, keeping latency statistics.

## Layout

- `src/` — the verified library:
  - `op_line` — the workload line format: encoding, parsing, and the proof
    that a line written for an operation is read back as the same operation
    whenever keys and values hold no space or `\n` and the line's last word
    does not end with `\r`;
  - `keyset` — the key sets that generation draws valid keys from, each
    with an exact model of its contents;
  - `step` — one generated operation: which valid key it uses, whether a
    generated key must be drawn again, and how the valid keys change;
  - `markers` — the random order of a group's operations, drawing each kind
    exactly as many times as its count;
  - `generation` — how a group is scheduled, which operations may run, and
    the names of statistics flushes;
  - `workload` — which key set serves a section;
  - `stats`, `timings` — benchmark bookkeeping;
  - `db` — the printing database layer and layer selection by name;
  - `hashing`, `keys`, `std_collections` — FNV hashing, byte-string order,
    and the contracts of the std collections used.
- `app/` — the parts that read and write files, time operations, sample
  floating-point distributions, size bloom filters from a false positive
  rate and parse JSON specifications.
- `tests/` — tests of the library on concrete values.
