# latticevm

Localized verification of zkVM constraints by interval abstraction and
refinement, written in Verus. Every cell of an execution trace is an interval;
constraints are evaluated over intervals, and a search splits intervals until a
trace surely satisfies the constraints or surely violates them.

## Library (`src/`, verified)

| Module | Contents |
|---|---|
| `interval`, `interval_laws`, `operators` | the interval domain, its operators and their soundness laws |
| `wordop`, `word_laws`, `alu`, `controlflowop` | 32-bit words of byte limbs, word operations, ALU and control-flow constraints |
| `symbolic`, `eval_laws` | constraint expressions, their abstract evaluation, its soundness on field expressions, product words, comparisons and most word operators (all but the signed quotient and the low halves of the 64-bit products) |
| `analysis`, `patterns`, `sparsity` | variable and column gathering, constraint patterns and rewrites, sparsity counts |
| `memory`, `memory_laws` | interval memory and its read/write laws |
| `trace`, `constraint`, `shrinker`, `shrinker_laws`, `solver` | traces, constraint evaluation, interval refinements and their laws (no pass widens a cell; the gated assignment, equality and sum passes keep every concrete solution, the sums when they do not wrap around the prime), search decisions (the backward refinements of a node, its candidate children), search preprocessing |
| `text`, `render`, `state`, `utils`, `ui`, `canonicalizer` | decimal and hexadecimal text, rendering of values, sorted texts, final-check records |
| `smt_terms`, `smt` | SMT-LIB queries (integer and bit-vector) of a constraint system |
| `quick`, `test_data` | run options and results, the Fibonacci AIR's parameters |

## Program (`app/`)

The command-line front end: Plonky3 constraint conversion, the parallel search
with its terminal view, configuration files, reports and file output.

## Tests (`tests/`)

Scenario tests of the word operations, intervals, memory, sparsity counts,
rendering and SMT queries.
