# memory_id_to_big

The id -> value memory tables of a Cairo prover, written in Verus and proved
against their contracts.

Memory values live in three tables: full-size field elements (28 limbs of 9
bits), small values (8 limbs) and relocatable values. Lookups of a value by
its encoded id are counted per table; each table is then written out as trace
columns (the limbs, the ids and the multiplicities of the rows that were looked
up, padded to a power of two), together with the 9-bit range checks every limb
must pass and the lookups the interaction trace is built from.

Layout:

- `src/memory.rs`: memory ids and their encoding.
- `src/felt.rs`: splitting 256-bit values into 9-bit limbs.
- `src/column.rs`: packed columns and lookup counters.
- `src/claim.rs`: the claim generator (`new`, `add_input(s)`, `deduce_output`, `write_trace`).
- `src/trace.rs`: the trace of each table.
- `src/interaction.rs`: the lookups of each table.
- `src/laws.rs`: proved properties that tie traces and lookups together.
- `src/adapter.rs`: public memory addresses of a run.
- `src/arith.rs`: powers of two and rounding.
- `tests/`: tests on concrete values.
