# rocknpu

The planning, caching and layout logic of an RK3588 NPU runtime, verified with
Verus: which kernel a quantized matrix product takes, how it is cut into tiles,
what stays resident between calls, how many cores a shape is spread over, and how
tensors, weights and kernel records lie in memory.

## Layout

- `src/` is the library. Every function states in its contract what it returns
  or changes; properties that span functions are public proof functions whose
  names start with `law_`.
- `tests/` runs the library on concrete values.
- `app/` is ordinary Rust around it: the C interface, the device and its buffers,
  floating-point work, threads and reports. It performs the outside work that a
  stage of the library names and hands the outcome back.

## Modules

| Area | Modules |
| --- | --- |
| C interface and routing | `capi`, `route`, `settings`, `context`, `status` |
| Single-row projections | `decode_m1`, `decode_w4`, `tuning`, `counters` |
| Prompt batches | `mtile`, `plan`, `prefill`, `split`, `pieces`, `join` |
| Accounts | `profile` |
| Quantization and layouts | `quant`, `groups`, `fwht`, `int4`, `conv_layout` |
| Convolution and linear layers | `conv`, `conv_tiles`, `conv_run`, `linear` |
| Kernel interface | `uapi`, `runtime` |
| Models and traces | `ir`, `trace` |
| Shared pieces | `arith`, `bytes`, `text`, `keys`, `table`, `compare`, `samples` |

## Conventions

A long operation is a state machine. Its stage says which outside work is due, an
event says how that work came out, and `step` gives the next stage. An event that
does not answer the stage changes nothing.

Half-precision values are `u16` bit patterns and single-precision values are `u32`
bit patterns. A pointer is its address, and an address of zero is a null pointer.
