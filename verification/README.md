# cap_rendering

Zoom framing for screen recordings and detection of the UI elements under the
cursor.

- `src/` is the verified library (Verus). It makes the decisions of the zoom
  transform timeline over integer time keys: the stable order of zoom
  segments, the segment active at an instant and the instant-animation snap
  windows (`schedule`, `order`), the edit a timeline instant maps through
  (`time_map`), the cursor samples a segment clusters and the cluster in force
  (`clusters`), the samples bracketing an instant (`cursor_track`), the growth
  and lookup of the precomputed sample cache (`samples`), and the crop that
  maps cursor coordinates into content (`crop`). For element detection it
  holds the physical-pixel rectangles (`geometry`) and the chain of hits
  under the cursor (`hit_chain`).
- The cache asks a `StepSource` for each missing step, through a `StepLog`
  that records every request and answer; the cache's contracts state that it
  appends exactly the answers to steps `old_len..new_len`, in order. The step
  source itself, and so the tie between a step's snap flag and the
  schedule's `step_plan` at that step's instant, is floating-point code in
  `app/` (step instants are `f64`), so `src/` states nothing of its answers.
- `app/` holds the floating-point arithmetic (spring driving, interpolation,
  framing formulas, time arithmetic) and the Windows UI Automation calls,
  built on the library.
- `tests/` exercises the library.
