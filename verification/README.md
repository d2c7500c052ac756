# dialog-artifacts

A store of artifacts: facts of the form "the attribute `the` of the entity `of` is
`is`". Each artifact is stored in an ordered index under three keys, so that it is
found by entity, by attribute and by value. Instructions that assert and retract
artifacts are committed as one; a commit that fails leaves the store where it was,
and every commit makes a revision that the store can be set back to.

- `src/` is the verified library. The operations of the store are processes that
  put one request at a time to the block storage and the index. Each process has an
  exact contract, and `src/laws/` states and proves what the processes do to the
  surroundings as a whole.
- `app/` runs the processes over an asynchronous storage and index.
- `tests/` runs them over a storage and an index in memory.
