# trow

The housekeeping of a container registry, verified with Verus.

- `src/configuration.rs`: what the configuration file means, and which credentials are used for a
  proxied repository.
- `src/repositories/`: the rows of the manifest tables (`models`), the queries over them
  (`manifest_repository`), which manifests are worth keeping (`retention`), and that collecting
  the others over and over comes to an end (`sweep`).
- `src/services/`: what a garbage collection pass deletes (`gc_service`) and in what order
  (`gc_run`).
- `src/text.rs`, `src/sequences.rs`: what the others need of strings and sequences.
- `app/`: serde, SQLite, files, clocks and logs. It reads rows, asks the library what to do with
  them, and does it.

Proof functions whose names begin with `law_` state what holds of the library as a whole.

The one thing believed without proof is that the `size` crate shows the same number of bytes always
in the same way.
