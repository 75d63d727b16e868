# rustorch

Neural-network layers and the planning layer of an Apple GPU backend, written
in Verus: every function states what it returns, and the proofs are part of the
source.

- `src/nn`: layers. A forward pass is a straight-line program over tensors; its
  contract gives the program exactly, and laws give the shapes that come out.
  The key/value cache, grouped-query attention, fused normalisation, masks and
  initialisation work on elements directly.
- `src/metal`: plans. A kernel call is checked and laid out as buffers,
  bindings and grids; routing, caches, profiling slots and the worker beside the
  device are state machines.
- `app`: the host side in ordinary Rust: single-precision arithmetic, random
  draws, threads, and the device itself on macOS.
- `extras/metal`: the shader sources that the plans name.
- `tests`: the library run on concrete values.
