# azoth_reactions

Reaction bookkeeping for chemical-equilibrium calculations, verified with Verus.

- `src/` is the verified library: the reaction tables (elements, stoichiometry,
  reaction constants, component charges and formation properties) read from
  their CSV text through the `csv` crate, the selectors of the reaction data
  source, concentration basis, seed and rate law, the choice of the reactive
  phase, the formula and element matrices, the DIIS history buffer, the cut of
  a concatenated reaction list, the candidate bases of the linear-programming
  seed, and the shape checks of the solver inputs. Numbers in the tables are
  carried as the text the table writes.
- `app/` holds what is floating-point arithmetic or file I/O: reading the data
  directory, turning table text into `f64`, the equilibrium constant and rate
  laws, the numerical rank, the linear solves, the Pulay extrapolation, the
  linear-programming seed, the reactive Gibbs minimisation, the rate matrix and
  the stability test.
- `tests/` exercises the library from outside.
