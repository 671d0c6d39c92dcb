# SatFire

Programs for working with GOES-16/17 Fire Detection Characteristics files: `findfire` groups
fire pixels into clusters and stores them in a database, `connectfire` connects clusters over
time into fires, and `showfires`, `currentfires` and `singlefire` export clusters and fires as
KML.

## Layout

- `src/` is the library, verified with Verus: satellite and sector names, scan times from file
  names, the grouping of fire pixels into clusters, the Hilbert curve, fire codes, the
  bookkeeping of fires (staleness, draining, ordering), the decisions of the programs (which
  archive directories to walk, which images are already processed, how clusters are grouped by
  time step and by hour, when fires are merged), the binary format of stored pixels, and the
  text of KML documents.
- `tests/` exercises the library.
- `app/` holds the programs: command lines, threads, the SQLite databases, the NetCDF reader,
  and everything that computes with floating point numbers (pixel geometry, centroids,
  statistics), which the library does not hold.

Times are seconds since the Unix epoch, UTC. Pixel measurements are stored as the bit
patterns of IEEE 754 doubles, little-endian.
