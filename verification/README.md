# corewars

A Core War toolkit written in Verus: a parser for Redcode warriors and a
simulator that runs them in a core, with the behaviour of each part stated in
contracts and proved.

## Layout

- `src/text.rs`, `src/name_map.rs`: characters, decimal text, and a small
  map keyed by names.
- `src/load_file.rs` and `src/load_file/`: the in-memory form of a warrior
  (opcodes, modifiers, address modes, fields, instructions, programs,
  metadata, core offsets) and its load-file text.
- `src/parser.rs` and `src/parser/`: the tokenizer, the expression
  evaluator, and the three phases of parsing (comments and metadata; label
  collection, `EQU` substitution and `FOR`/`ROF` unrolling; evaluation into
  instructions), with `parse` running them in turn.
- `src/linker.rs` and `src/linker/`: cores and programs that keep a label
  table and resolve labels into relative offsets, and a parser that fills
  such a core.
- `src/sim.rs` and `src/sim/`: the simulator: address modes, modifiers,
  opcodes, the process queue, and the core that steps through it.
- `app/main.rs`: the command line (`dump` and `run`).
- `tests/`: tests of each part.

Each phase of parsing and each simulation step is specified as a function
on mathematical values (sequences of characters, lines and instructions);
the executable code is proved to compute exactly that.

## Why labels and processes live in a `NameMap`

Labels and process names are strings. Verus can state and prove what a
`NameMap` (`src/name_map.rs`: a vector of distinct names with their
values) holds after each insert, lookup and removal; for the standard
`HashMap` and `BTreeMap` keyed by `String` it proves nothing of that kind,
so the label tables and the process queue's per-process counts use
`NameMap` instead, with its uniqueness of names as the stated invariant.
