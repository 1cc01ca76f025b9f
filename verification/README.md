# psyduck

Dense matrix kernels written to be fast and proved correct with Verus.

The library (`src/`) is verified:

- `tensor`: shapes, row-major host tensors (indexing, tiles, in-place transpose) and the
  shape checks for addition and multiplication.
- `model`: the host backend (tiled multiplication with a register-blocked microkernel and a
  lane-parallel dot product), the reference backend, round-robin accumulators, and the launch
  planning of the CUDA backend.
- `element`: the element types the backends compute with, and sums and dot products over them.
- `generator`: reproducible SplitMix64 inputs and the exact checksum of their product.
- `instrument`: timing captures, the work of an operation, and benchmark bookkeeping.
- `kernel`: the CUDA kernel sources and their entry points.
- `args`: the choices a benchmark is run with.

Every multiplication is proved to produce the product of its operands, whatever the tile
sizes, for element types whose addition is associative and commutative, as the integer
elements of `element` are; the generated checksum is proved to be the sum of every entry of the
exact product. The program in `app/` computes with `f32`, whose rounded addition has neither
law: there the backends perform the same operations, and their result is the exact product
only where every partial sum is exact.

`app/` holds the command-line program around the library: argument parsing, the CUDA device,
floating-point statistics, telemetry and report files. `tests/` exercises the library.
