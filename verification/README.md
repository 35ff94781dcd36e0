# osm_nominatim

The verified core of an OpenStreetMap to Nominatim place converter, written
in Verus.

- `src/country.rs` — countries by ISO 3166 code: parsing a two-letter code
  (through `iso3166-static`), and choosing the country among the region ids
  that a boundary lookup returns.
- `src/text.rs` — joining multi-valued OSM tag values with `;`.
- `src/util.rs` — title-casing street and place names.
- `src/unicode.rs` — std's Unicode case mappings (named results, stated
  exactly on ASCII) and its whitespace test (stated exactly).
- `src/osm/indexing.rs` — which administrative boundaries and streets get
  indexed, with which node coordinates.
- `src/osm/pass4.rs` — which nodes, ways and relations the point-of-interest
  pass records, and what it hands to the entity converter.

The OSM code is generic over the coordinate type, so the library holds no
floating-point values. `app/` holds the rest: reading PBF files with
`osmpbf`, the UTM projection with `proj`, the boundary lookup with
`country-boundaries`, centroids, and the hand-off to the indexes and the
converter.
