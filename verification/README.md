# oathbreaker

Reversible circuits for Shor's elliptic-curve discrete-logarithm algorithm
over Goldilocks-form prime fields, with resource counting, written in Verus.

Every function of the library states what it computes in its contract and is
proved against it; every circuit builder specifies exactly which gates it emits,
and the resource tallies are proved to follow from those gates.

## Layout

- `src/field` — the Goldilocks field and generic prime fields; field laws,
  Fermat's little theorem and a primality certificate for 2^64 − 2^32 + 1.
- `src/ec` — short-Weierstrass curve arithmetic (affine, Jacobian, modified
  Jacobian), classical ECDLP solvers, and the laws relating Jacobian to
  affine arithmetic.
- `src/reversible` — reversible gates, registers, ancilla pools, resource
  counters, ripple-carry adders, multipliers, inversion and the elliptic
  curve operations as gate sequences; laws for the adders (the modular
  adder adds modulo the Goldilocks prime), for the rows of the schoolbook
  multiplier and for Bennett uncomputation.
- `src/group_action` — the windowed double-scalar group-action circuit in
  three coordinate systems, QFT and measurement, Shor's pipeline with
  classical post-processing, wNAF recoding and QASM export.
- `src/shor_circuit` — the phase-estimation circuit components.
- `src/benchmark` — the Oath-N tiers, prior-work table and scaling targets.
- `app/` — the benchmark program: parameter loading, console tables,
  floating-point projections, JSON export.
- `tests/` — tests of the library on concrete values.
