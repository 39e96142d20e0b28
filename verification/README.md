# underwood

Renderer-independent logic of Underwood's text scenes, written in Verus and
proved against its contracts: revision-bound selections and their
canonical form, cursor navigation over prepared interaction units, style
runs and their projection through presentation text, paragraph source
provenance and composition splicing, the persistent balanced scene spine,
bounded caches and their byte accounting, the engine's two retained-geometry
lanes with their coordinated budgets, published roots, release and
eviction (driven step by step from what preparation reports), and the
decisions of paragraph
preparation (retained reuse, the source of formation facts, the checks a
formed paragraph must pass, and committing it or releasing adapter state).

Layout:

- `src/` — the verified library. Each module states its model with spec
  functions and views, and the laws that relate its operations are public
  proof functions (`lemma_*`).
- `tests/` — executable tests of the library.
- `app/` — ordinary Rust around the library: style values and line
  alignment that hold floating-point numbers.

`peniko` supplies the brushes of the paint table and the rectangles of
scene geometry records.
