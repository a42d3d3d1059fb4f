# specbmc

The intermediate representations and program transformations of a bounded model checker
for speculative non-interference (Spectre-PHT and Spectre-STL), written in Verus. Every
function states its behaviour in `requires`/`ensures` over mathematical views of the data,
and Verus proves it.

## Layout

- `src/error.rs`: the error type of the library.
- `src/ir/`: the generic intermediate representation (sorts, variables, constants,
  expressions, operations, blocks), the `Transform` trait, translation and validation.
- `src/lir/`: the low-level representation: expressions over booleans, bit vectors, arrays,
  memory and microarchitectural components, nodes and programs, their validation, the
  optimizations (constant folding, expression simplification, assertion elimination,
  constant and copy propagation, dead-code and redundant-node elimination), the optimizer
  that runs them by level, and the lowering to SMT sorts.
- `src/hir/`: control-flow graphs of blocks of phi nodes and instructions with their views and laws (splitting,
  inserting, edges, dead ends), programs of functions, and under `transformation/` the
  transformations of the analysis: function inlining, loop unwinding, instruction effects,
  transient execution (speculation windows, transient graphs, reorder buffer), observations,
  explicit effects, memory and program counter, initial state, non-speculative
  observation equivalence, the optimizations of graphs (constant folding, expression
  simplification, constant and copy propagation, phi node, dead-code and redundant
  instruction elimination) with the optimizer that runs them by level, and the
  configuration of the transformation pipeline.
- `tests/`: tests on concrete values.

The dead-code elimination of LIR programs keeps its marks in a `bit_vec::BitVec`; the few
functions that call its methods are taken on trust, and their contracts say what those
methods do.
