# ric3

The decision core of a multi-timeframe IC3 model checker, verified with Verus.

IC3 proves or refutes a safety property by blocking obligations, one frame
after the other. The multi-timeframe variant unrolls the transition relation
over several timeframes where an obligation turns out to be hard, and falls
back to single steps where the unrolled query alone cannot justify a lemma.

The SAT solvers, the transition system and the obligation queue are not part of
this crate. Each loop of the checker is a machine: it holds what has been found
so far, says what it waits for, and takes the answer. The contract of a step is
an exact function on the mathematical view of the machine, and the laws are
stated over whole rows of answers.

| Module | What it decides |
| --- | --- |
| `check` | the main loop, and blocking with restarts |
| `block` | the blocking phase |
| `history` | what holds of the expansion over all phases |
| `multitf` | the expansion ceiling and the restart condition |
| `mtblock` | blocking over several timeframes, the chain of links |
| `unroll` | what the frames say about each timeframe, states and inputs per timeframe |
| `pred` | predecessors over several timeframes |
| `refine` | blocking a cube by blocking its predecessors |
| `lemma` | generalising and pushing a lemma |
| `mic` | minimising a core, and the effort it may take |
| `witness` | the counterexample of a chain of obligations |
| `ic3` | the checker's state, initial values, invariant and certificate |
| `percentile`, `unsize_percentile_calculator` | medians and percentiles |
| `params`, `parse`, `double`, `duration` | parameters and the numbers in them |
| `luby` | the sequence of restart limits |
| `lit`, `code_set`, `rng`, `statistic`, `tally` | literals, sets, random numbers, counters |

`app/` is the engine around the core: it asks the solvers, reads the clock and
the environment, and computes in floating point. `tests/` runs the core.
