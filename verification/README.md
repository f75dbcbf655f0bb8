# lona

Core data structures and the kernel binary interface of the Lona runtime,
written in Verus and proved against their contracts.

## Layout

- `src/` — the verified library.
  - `abi/` — boot flags, fault regions, memory layout, thread control block
    slots, IPC request and reply encodings, capability and id types.
  - `hamt.rs` — a persistent hash array mapped trie, proved to behave as a
    finite map; `persistent_map.rs` and `persistent_set.rs` build maps and
    sets on it.
  - `pvec.rs` — a persistent 32-way vector trie with a tail buffer, proved
    to behave as a sequence.
  - `list.rs` — persistent cons lists that share their tails.
  - `integer.rs`, `ratio.rs` — arbitrary-precision integers (small values
    inline, large ones through `num-bigint`) and fractions kept in lowest
    terms.
  - `opcode.rs`, `chunk.rs` — the bytecode instruction set, its encodings and
    compiled chunks with their listing.
  - `allocator.rs` — the decisions of a bump allocator over a page provider.
  - `binary.rs`, `string.rs`, `symbol.rs`, `source.rs`, `span.rs`,
    `error_context.rs`, `value.rs`, `fnv.rs`, `text.rs` — the remaining
    runtime types and helpers.
- `tests/` — executable tests of the library.
- `app/` — what stays outside the verifier: the global allocator adapter over
  raw pointers and the printing of constants that hold floating-point
  numbers.
