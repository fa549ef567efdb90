# wblna_optim

Optimizer for the width taper of a wideband LNA input matching network.

- `src/` is the verified library: the layout of the (line model, length)
  sweep, the ranking of finished designs by objective, the size limit on the
  Chebyshev fits of a line model, and the iteration control of the Adam
  optimizer.
- `app/` is the program: command line, file input and output, progress
  bars, the parallel sweep, and all floating-point models (complex numbers,
  transmission lines, noise figures, the cost and its derivative). The cost
  derivative uses rustc's `autodiff`, which needs a nightly toolchain built
  with Enzyme.
