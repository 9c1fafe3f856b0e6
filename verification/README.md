# pia

Pixelated image abstraction after Gerstner et al. (2012): a high resolution
image is turned into a low resolution, small palette image by a modified SLIC
segmentation (one superpixel per output pixel) combined with mass constrained
deterministic annealing of the palette in CIELAB space.

The crate is in two parts.

- `src/` is the verified library. It holds the discrete part of the method,
  each function with a contract proved by Verus:
  - `grid`: row-major indices and coordinates, the superpixel grid, 4-connected
    neighbors, SLIC search windows and bilateral filter windows;
  - `labels`: per-superpixel pixel counts and coordinate sums of a labelling;
  - `clusters`: palette colors as groups of sub-clusters (flattening, writing
    back, splitting, collapsing, column ownership);
  - `schedule`: control of the annealing loop;
  - `validate`: the argument checks of the R entry points and their error texts;
  - `layout`: column-major / row-major matrix conversions and R indices.
- `app/` holds the R entry points (through `extendr-api`) and the
  floating-point computations (color statistics, distances, probabilities,
  filtering), which call into the library for all of the above.
