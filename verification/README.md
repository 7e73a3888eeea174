# ember_rs

INT8 inference for small neural networks, with operator kernels behind an
interface so that backends can be swapped without changing model code. The
library is written in Verus: every function states what it computes, and the
statements are proved.

## Layout

| Module | Contents |
|---|---|
| `types`, `params`, `backend` | Enums, quantization parameters, errors, operator parameters and the `KernelBackend` trait. |
| `reference` | `RefBackend`, the pure reference backend. |
| `stub` | A placeholder backend that returns `InternalError` for every operator. |
| `conv`, `depthwise`, `dense`, `pool`, `softmax`, `elementwise` | The kernels of the reference backend. |
| `shape` | Tensor shapes, memory layouts and window geometry. |
| `quantize` | Fixed-point requantization and fused activations. |
| `single` | IEEE 754 single precision on integers. |
| `tflite`, `load` | The TensorFlow Lite file format, and the way from a file's bytes to its layers. |
| `model`, `emit`, `plan`, `layer` | The tables of a quantized model, and the layers read from them. |
| `invoke`, `predict`, `runs` | Running the layers on a backend, and what holds of every run. |

`app/` holds the expansion of the `model` attribute, which reads a model file and
writes the code that runs it. It is an ordinary library crate: a crate of the type
`proc-macro` exports the attribute by a function that calls `model`.

## Numbers

Scales are singles, carried as their 32 bits. A finite single is a whole number
of units of 2^-149, so each operation on scales is the exact rational result,
rounded to the nearest single. The contracts are stated in those terms.

Softmax needs the exponential function at 256 points.
`softmax::exponent_arguments` gives the points, and the operator takes the
function's values there as a table.

## Contracts

Each operator's parameters have a view, such as `Conv2dArgs`, with spec functions
that say

- `valid`: buffers, shapes and attributes agree;
- `status`: what is returned;
- `output`: what the output buffer holds afterwards;
- `defined`: no step overflows. This is what a caller owes.

## Custom backends

Implement `KernelBackend` and hand the backend to `Plan::predict_quantized`. A
backend that needs scratch memory overrides the `*_scratch_size` functions, which
return 0 by default.
