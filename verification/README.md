# fxfs

The verified core of a log-structured filesystem, written in Verus.

- `src/` is the library.  Its functions are verified against their contracts, apart from small wrappers
  around other crates, whose doc comments say what is taken on trust.
  - Locks and transactions: `lock_keys`, `lock_manager`, `lock_grants` (which requests have been granted
    a lock), `transaction`.
  - Records and their order: `object_record`, `lexicographic`, `journal`, `guid`, `errors`.
  - Object stores: `object_store` (what operations add to transactions), `store_info` (object IDs),
    `store_open` (opening objects), `store_journal` (applying and writing mutations), `store_lock`
    (locking and unlocking), `encrypted_mutations`, `attributes`, `trim`.
  - `versions`: records of earlier versions of the format, and their conversion.
  - `super_block`: the super-blocks of the root parent store.  `root_volume`: the volumes.
  - The server: `node` (the node cache), `file` (the state of open files), `volume`, `refault`.
  - Devices: `format` (telling formats apart), `fs_config` (how filesystems are started),
    `fake_device` (a device in memory).
  - Tools: `ops`, `golden`, `text`.
- `tests/` runs the library on concrete values.
- `app/` is what surrounds the library: tasks that wait, atomic state, files, and the loops around
  trees, allocators, crypt services, super-blocks, volumes and images.

Operations that wait, or that need records from a tree, are steps: the library decides, the caller
waits or reads and calls the next step with what came of it.
