# hold-guard

Caps a shared Cargo build hold and evicts least-recently-used artifacts so it
can never silently regrow to fill the disk.

- `src/` is the verified library (Verus): the unit model and size arithmetic
  (`unit`), the oldest-first ordering and per-unit measurements (`measure`),
  the eviction policy (`policy`), size arguments (`size`), SLO events
  (`event`), ledger lines (`ledger`), removal accounting (`evict`), the
  default hold and ledger locations (`paths`) and the reports of the three
  subcommands (`report`).
- `app/main.rs` is the command line: it reads `$HOME`, walks the hold, removes
  units, appends to the ledger and prints JSON. It computes one value itself:
  the warning mark at nine tenths of the cap, which is floating point; every
  other decision comes from the library.
- `tests/` exercises the library on concrete holds.
