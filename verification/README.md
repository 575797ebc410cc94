# Scribe

Scribe transpiles Yul, the intermediate language of Solidity, to assembly
for the Polygon Miden VM. Values typed `u32` use Miden's cheap 32-bit
instructions; everything else defaults to `u256`, held as eight 32-bit stack
elements.

## Layout

- `src/` — the library, written in Verus. Each stage has a mathematical
  model (a spec function over `Seq`, `Map` and the syntax tree's model
  `SExpr`) and an executable implementation proved to compute it:
  - `parser.rs`: tokens and the Yul grammar (`spec_parse`), `parse_yul_syntax`;
  - `type_inference.rs`: `u32`/`u256` inference (`spec_infer_types`);
  - `optimizer.rs`: rewriting counted `for` loops into `repeat` blocks;
  - `miden_model.rs` / `miden_generator.rs`: Miden assembly generation,
    with its stack, memory and branch bookkeeping;
  - `miden_semantics.rs`: what the generated lines compute on a small Miden
    machine, and the laws that straight-line `u32` code (literals,
    variables, arithmetic, comparisons, `mload`, `mstore`, declarations,
    assignments)
    computes what Yul computes;
  - `zero_model.rs` / `zero_generator.rs`: System Zero instruction
    generation;
  - `ast_tree.rs`: drawing the syntax tree with `debug_tree`;
  - `repl.rs`: the decisions of the Miden REPL;
  - `test_utilities.rs`: compiling examples and reading results off the
    Miden stack.
  Laws that relate several calls are public proof functions named `law_*`.
- `app/` — the command-line program: reading and writing files, the REPL
  loop, and running programs on the Miden VM.
- `tests/` — tests of the library.
