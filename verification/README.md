# pzip

Verified building blocks of a lossless compressor for 3-D fields of 32-bit floats.

- `src/shape.rs`, `src/prediction.rs`: grid extents and the neighbour offsets of the
  Lorenz predictor (row-major linear index).
- `src/residuals.rs`: reversible transforms between a true value and its prediction
  (XOR, shifted XOR toward an alternating goal, its LZC and Gray variants, absolute
  difference), the context they carry, and the proofs that decoding undoes encoding.
- `src/compress.rs`: shifted residuals of whole streams.
- `src/encode.rs`: binary digits of values, packing of residual bits through the
  `bit-vec` crate, and the compressed container.
- `app/main.rs`: the command line, file reading and the floating-point predictor.
