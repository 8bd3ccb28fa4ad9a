# ullis

The verified core of a trainer for small sequence models: RWKV-8 Heron with
suffix-automaton (ROSA) mixing, hyper-rank spline layers with routed experts,
and long convolutions.

`src/` is the library. Every function in it is verified by Verus against the
`requires` and `ensures` that stand above it, but for the two calls into `rand`
in `random`, whose contracts are believed. The laws that relate several
functions are the public proof functions whose names begin with `law_`.

| modules | what they hold |
| --- | --- |
| `config`, `run`, `digits`, `session`, `completion` | configurations and their memory estimate, the course of a training run, the digit exercises, command lines, generation |
| `data`, `dataset`, `corpus`, `conversation`, `feed`, `batch`, `tokenizer`, `text` | records, supervised windows, the ring of tokens, packed sequences, batches |
| `chat`, `decode` | streamed output by lanes, sampling rules on the bits of floats |
| `accelerate`, `partials`, `spline`, `ternary`, `kan`, `master`, `expert`, `memory`, `names`, `checkpoint` | layouts, tiles and index arithmetic of the layers, rounding to three values, routing, the named tensors of a model and their file |
| `hadamard`, `hyena`, `fourier` | transform sizes, passes, chunks |
| `metal`, `device`, `shared` | plans of compute dispatches, launches, the memory that host and device share |
| `random` | shuffling |

Floats appear in the library as their bits or not at all. `app/` is ordinary
Rust around it: the command line, files, floating-point kernels, the loops that
ask a model for its next token, and on macOS the executor of Metal plans.
`tests/` runs the library from outside.
