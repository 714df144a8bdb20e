# wavyte

Deterministic programmatic video composition: a composition document (a tree of nodes over
a frame range, with assets, masks, effects, blend modes and transitions) is validated,
normalized into a pre-order node arena, evaluated frame by frame into a render graph,
compiled into a render plan of surfaces and ops, fused and scheduled; frames reach a sink in
order. Constant, keyframed and procedural property values are sampled outside the library
(they are floating point), and no raster backend that draws the plan's leaves is part of
this crate.

## Layout

- `src/` — the library, written in Verus, with contracts proved by Verus:
  validation (`schema`), normalization (`normalize`, `intern`, `registry`), the expression
  language (`lexer`, `parser`, `bind`, `lower`, `bytecode`, `compile_expr`, `topo`) and the
  expression lanes it is fed from (`lanes`), node time
  and visibility (`time`, `tree`), the per-frame graph (`graph`, `transition`, `keyframes`),
  plan compilation and fusion (`plan`, `compile`, `fuse`, `fingerprint`, `scheduler`, `pool`),
  integer pixel kernels (`pixel`, `blur`), audio runs (`audio`, `audio_segments`), encoding
  decisions (`encode`, `sink`, `session`), colours (`color`) and the composition object
  (`composition`). Public proof functions named `law_*` state properties that relate
  several operations.
- `tests/` — tests of the library on concrete values.
- `app/` — ordinary Rust around the library: the JSON document model, floating-point
  evaluation (expression VM, easing, colour conversion, compositing, audio mixing), threads
  and the `ffmpeg` encoder process.
