# rust-ai-inference-engine

An AI inference engine whose core is verified with Verus: tensors with
row-major storage, computation graphs ordered by Kahn's algorithm, a
graph-driven executor, the CPU backend's operator decisions, Transformer
graph construction and parameter accounting, and an ONNX-style operator
mapping.

Layout:

- `src/` — the verified library.
  - `engine/` — tensors (`tensor.rs`), graphs and their builder (`graph.rs`),
    the executor (`inference.rs`).
  - `backend/` — the backend interface and backend choice (`mod.rs`), the CPU
    backend's parameter store, per-operator plan and the backend joining it to the program's kernels (`cpu.rs`), the CUDA
    backend, which is not available (`cuda.rs`).
  - `model/` — Transformer components (`transformer.rs`) and the ONNX-style
    loader (`onnx_loader.rs`).
  - `api/` — what the HTTP service answers (`server.rs`).
  - `cli.rs` — the command line's log level and benchmark graph.
  - `text.rs`, `assoc.rs` — decimal rendering, string helpers and
    association lists.
- `app/` — the program: command line (clap), HTTP service (axum, tokio),
  floating-point kernels (ndarray), file and JSON reading.
- `tests/` — tests of the library.

Floating-point settings inside the library (layer-norm epsilon, dropout
rate, float attributes) are carried as IEEE-754 bit patterns; element
arithmetic on `f32` is done by the program.
