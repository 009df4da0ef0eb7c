# ragu

Verified building blocks of the Ragu proof-carrying-data framework over the
Pallas curve, written in Verus.

## Layout

- `field`, `scalar`, `simulator`, `allocator`: the Pallas base and scalar
  fields (arithmetic by `pasta_curves`, specified over integers modulo `p`
  and `q`), the simulating
  constraint driver with its gate and constraint counts, and wire allocation.
- `element`, `boolean`, `point`, `endoscalar`, `vec`, `inverter`: gadgets and
  their constraints; every operation states the values it computes, when it
  succeeds and what it costs.
- `polynomial`: polynomials by coefficients, with scaling, addition and
  evaluation.
- `fold_revdot`: two-layer folding of revdot claims about polynomials, with
  their error terms, and the soundness of the folded claim.
- `endoscaling`: the steps that scale a sequence of points by an endoscalar,
  and the witness of their interstitial points.
- `header`, `encoding`, `steps`, `const_fns`, `sendable`: header suffixes and
  encodings, and the internal steps.
- `native`: the indices of a proof's polynomials and of the internal
  circuits; `native::claims` builds the revdot claims in unified order and
  lists their `k(y)` values in the same order; `native::stages` allocates
  the prover's stage data; `native::circuits` holds the circuits that compute
  `v` and check the two folding layers.
- `fuse`: the prover's side of a fuse step: commitment tracking through the
  claims, the outer error witness, and the accumulation of `p`.
- `circuits`: small example circuits.

The tests under `tests/` run the library with the `pasta_curves` and `ff`
crates linked.
