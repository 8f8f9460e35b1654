# proj_core (verified core)

The verified core of a coordinate-reference-system library, written in
Verus. `src/` holds the library and its proofs:

- `registry_format` — the embedded EPSG registry's binary format and a
  decoder proved against a byte-level specification;
- `registry` — lookups over the decoded registry (the last record with a
  code wins), operation candidates for a CRS pair, grid usage of
  concatenated operations, operation metadata and `authority:code` parsing;
- `registry_build` — what the registry generator computes: method and
  format codes, byte encodings, the normalized digest payload of the source
  database, code tables and the command line;
- `registry_encode` — the records the generator writes, their fix-ups
  (sorted area codes, grid resource ids and areas) and the byte layout of
  the registry file;
- `grid` — grid resource limits, names and cache keys, the integer
  framing of NTv2 and GTX grids, GeoTIFF decoding (through
  `geotiff-reader`) and structure checks, and which nested subgrid samples
  a point;
- `sha256` — SHA-256 proved against the FIPS 180-4 definition;
- `operation`, `error`, `text` — shared vocabulary, errors and text helpers.

`app/` is ordinary Rust around the library: floating-point interpretation
of the raw bits the library carries, grid sampling, file-system and
database access, and error types implementing `std::error::Error`.
`tests/` exercises the library.
