# gtfs-bin

Compiles GTFS transit data into one flat, position-linked binary image, and
reads such images back. The library is written in Verus: every public
function under `src/` carries a contract, and the verifier proves every
function against the contracts of what it calls.

## Layout

- `src/models/` — the records of the image (stops, routes, trips, stop
  times, services, shapes, transfers, trip patterns), their fixed-width
  encodings, dates, times, delays and the packed text builder.
- `src/compiler/` — from a feed held as plain values (`compiler::feed`) to
  the tables: identifiers resolved to positions, texts deduplicated, stop
  times ordered by trip and sequence, services turned into a day mask,
  trip patterns grouped by the stops they call at. `compiler::network`
  states what the compiled network holds of the feed (`network_of`) and
  proves that the written bytes read back to it.
- `src/consumer/` — reading an image back (`parse_network`) and the
  queries over it; `consumer::valid::queryable` is what every query relies
  on and what every compiled image meets.
- `src/rt/` — realtime updates laid over a network.
- `src/text_map.rs`, `src/sorting.rs`, `src/bits.rs`, `src/codec.rs` —
  the text-keyed map, sorting, the bit mask and word encoding underneath.
- `app/` — the command-line program: reading GTFS with `gtfs-structures`,
  writing and memory-mapping files.
