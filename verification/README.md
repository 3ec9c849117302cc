# abr_home_system_benchmark (verified core)

Relational (ABR) versus conventional substrate measurements on declared
hardware. The crate splits into:

- `src/` — the verified library: the declared baseline algorithms and their
  operation counts, the fixed-seed permutation and branch-bit generators,
  tier and protocol rules, open-chain and co-activation graph topology, the
  probe's name grammar, chain builders and integer pointer-chase kernels,
  the factorial node labels, and the integer parts of the substrate model
  (cache tier, TLB pressure). Every function carries a contract proved by
  Verus; the laws (bijective permutation, chain cycles, operation-count
  ordering, admissible topology, monotone cache tier) are public proof
  functions.
- `app/` — the measurement program: floating-point operators and
  baselines, wall-clock timing, reports, and the `probe` subcommand.
- `tests/` — tests of the library on concrete values.
