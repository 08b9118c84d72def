# semcode

The core of a SemCode toolchain, written in Verus: the byte format, the IR
passes, the emitter, the static checker, the disassembler and the virtual
machine, each with contracts that Verus proves. It covers the first three
revisions of the format only; see "Scope" below.

## Layout

- `src/runtime_core.rs`: symbol ids, execution contexts, quotas, symbol tables.
- `src/lexer.rs`, `src/alias_table.rs`, `src/profile.rs`: parser profiles,
  token normalisation and alias training.
- `src/semcode_format.rs`: headers, opcodes and little-endian reads and writes.
- `src/quad.rs`: the four-valued logic.
- `src/ir.rs`, `src/passes.rs`, `src/passes/`: the IR, its validation, and the
  structural cleanup and constant-folding passes.
- `src/logos.rs`: Logos laws in priority order.
- `src/bytecode.rs`: decoding and encoding of instructions.
- `src/emit.rs`: SemCode bytes from IR functions.
- `src/static_check.rs`, `src/verify_report.rs`: the static checker and its
  findings.
- `src/disasm.rs`: the text listing of an image.
- `src/vm.rs`: image parsing, runtime values and the step of the machine.
- `src/borrow.rs`: access paths and the rule that a write may not touch a
  borrowed place.
- `app/lib.rs`: profile files in JSON, native floating-point operations and
  the loops that run a machine to the end.

Floating-point work is handed in by the caller as functions on bit patterns,
so the library itself holds no floats.

## Scope

The SemCode family has fourteen headers, `SEMCODE0` to `SEMCODE9` and
`SEMCOD10` to `SEMCOD13`. This library defines the layout of the first three
only, which is all the layout it has a definition of: their capability bits,
the 34 opcodes with their byte values and operand layouts, the string table
and the debug table. The later headers add capability bits, opcodes and an
ownership section whose byte values are set by the compiler's emitter, which
is not part of this library. Concretely:

- An image under `SEMCODE3` to `SEMCODE9` is refused as an unsupported
  version; the refusal names all fourteen headers, as the toolchain's hint
  does. `SEMCOD10` to `SEMCOD13` do not start with `SEMCODE` and are refused
  as a bad header.
- The machine, the static checker and the disassembler accept the 34 opcodes
  of the first three revisions. Code with the later instructions (fixed-point
  arithmetic, records, ADTs, closures, sequences, text loads, state queries
  and updates, events, clock reads) is refused as bad format or as an unknown
  opcode.
- The emitter refuses IR instructions that have no opcode in these
  revisions, with "instruction has no opcode in this format".
- The ownership section of an image (borrow and write events of a function)
  is not read, so the machine does not apply the borrow rule while it runs.
  The rule itself, access-path overlap and the borrow/write conflict trap, is
  in `src/borrow.rs`.
- Compiling source text (parsing, type checking and lowering to IR) belongs
  to the front end, which is not part of this library; it starts from IR.
