# fieldchain

A tamper-evident chain of field-form submissions. Each submission directory
(a `submission.xml` plus media files) is hashed into a chain record:

- H0 = SHA-256(XML bytes ‖ "instance_id:unix_seconds" ‖ installation salt)
- H1 = SHA-256(H0 ‖ wavehash of the chain's head)
- wavehash = SHA-256(day ‖ tick ‖ H1 ‖ media hashes in path order)

where (day, tick) comes from a persistent counter that only ever increments.

## Layout

- `src/` — the verified library (Verus): hashing (`hash`), XML validation
  and instance-id extraction (`xml`), chain checking and row encoding
  (`chain`), the counter (`timing`), configuration and salt (`config`),
  SAF/ODK access rules (`saf`), the watcher's decisions (`watcher`, `order`),
  package checks and metadata (`package`), and the restart supervisor
  (`phoenix`).
- `app/` — the program around it: file system, SQLite store, file
  watching, ZIP writing, async supervision and the command line.
- `tests/` — tests of the library on concrete values.
