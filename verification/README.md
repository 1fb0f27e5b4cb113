# StellarHash

A 2D space simulation whose star field is generated on the fly: a star's
existence and properties follow from a hash of its grid sector and a global
seed, so nothing is stored ahead of time.

- `src/` is the verified library (Verus):
  - `generation`: the 32-bit spatial hash, with proofs that it separates
    seeds, columns and rows;
  - `univers`: the set of loaded sectors, loading the square around the
    camera and forgetting what lies beyond the despawn radius;
  - `astrophysique`: the spectral classes and star names;
  - `anecdotes`: splitting the facts file into lines and picking one;
  - `camera`: the direction given by the steering keys.
- `app/` is the game around it (Bevy): rendering, input, time, and all the
  floating-point arithmetic.
- `tests/` exercises the library.
