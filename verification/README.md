# atomic_lib

A verified core for Atomic Data stores.

- `src/resource.rs`: a resource as an ordered list of property/value pairs, each property once.
- `src/storelike.rs`: the `Storelike` trait. Implementations provide four methods
  (add atoms, replace a resource, get a resource, list all resources); the
  trait provides the queries: properties, classes, shortname lookups, AD3 and
  JSON serialisation, triple pattern fragments, paths, deltas and collections.
  Every provided method is specified over the store's resources and what the
  store answers for subjects it does not hold.
- `src/store.rs`: an in-memory implementation.
- `src/parse.rs`, `src/client.rs`: reading AD3 text and keeping the atoms of one subject.
- `src/json.rs`: the calls into serde_json, with their contracts, and the compact
  text serde_json writes for an array of strings.
- `src/laws.rs`: properties across operations (read after write, for plain and
  for typed resources; last atom wins; adding an atom, or applying a list of atoms, twice; shortname and URL
  round trips; queries return exactly the matching atoms; deltas; doubled
  spaces in paths).
- `app/`: fetching and posting over HTTP with ureq, and serde copies of `Property`,
  `Class` and `DataType`.
- `src/resources.rs`: resources whose values are read by datatype, and how values are written back as text.
