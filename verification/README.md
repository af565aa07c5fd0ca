# orrin_core

The core of the Orrin engine as a verified library: the render-graph compiler
and the frame the engine declares on it, with the decisions around them that
do not need a GPU, a window or a file system.

## Layout

- `src/gfx/graph/` — the render graph. A `GraphBuilder` registers resources
  and passes with their declared accesses; `compile` checks the declarations,
  orders the passes (Kahn's algorithm, lowest id first among the ready ones),
  culls passes nothing observes, derives every barrier and layout transition,
  and sizes the transient images. Its contract pins the result to the
  builder: `compiled_from` for a success, `compile_rejects` for each error.
  `report.rs` writes the compiled plan as text, and `GraphError::message`
  says what a rejected graph got wrong.
  `laws.rs` proves what holds of every schedule: dependencies run first, the
  schedule is unique, it is complete exactly when the graph has no cycle,
  a repeated read needs no barrier, imports end in their exit layout, and
  culling splits the schedule; and that a graph whose dependencies all point
  forward, with unique names, sound declarations and raw passes last,
  always compiles.
- `src/gfx/frame.rs` — `declare`, the engine's frame: which resources and
  passes a `FrameConfig` registers, in which order, and its compile.
  `src/gfx/frame_valid.rs` proves that this compile never fails: every pass
  has a fixed place, every resource a fixed last writer, and every read comes
  after it.
- `src/gfx/bloom.rs`, `src/gfx/timestamps.rs`, `src/gfx/mod.rs` — bloom's
  chain length, the GPU timing slots, the instanced-draw runs of a pass, the
  object upload's layout and texture handles.
- `src/gfx/device.rs`, `src/gfx/dispatch.rs` — what the renderer picks from
  what the device offers (swapchain format, physical device and queue
  family, video memory) and the workgroups a compute pass dispatches.
- `src/profile.rs` — the profiler's frame ring and per-thread collector.
- `src/build_watcher.rs` — which paths are script sources, where a built
  assembly's project is, the debounce, the build status, and the console
  lines a build produces.
- `src/editor/`, `src/collision.rs`, `src/camera_controller.rs` — themes,
  tabs and where a toggled tool goes, preference paths, panel requests,
  collision enter/exit events, and the camera's held input.
- `app/` — the program side: clocks, threads, channels, files, and
  floating-point conversions, calling the library for every decision.
