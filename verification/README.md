# essential_server

The core of the Essential server, written in Verus: the logic that decides
what the server stores, reads back, hands out and builds, with its behaviour
stated in contracts and proved.

## Layout

- `src/` — the verified library.
  - `json`, `blob`, `values` — reading rqlite responses: query results, rows,
    hex blobs and the words, hashes and bytes they hold; contracts and blocks
    grouped and ordered by id.
  - `decode` — predicates, signatures and solution sets out of stored blobs.
  - `content` — content addresses, hashes and stored encodings of
    predicates, signatures and solution sets.
  - `program` — state read programs read from their bytecode, and the
    operations of them that the VM runs.
  - `sql` — the statements the storage sends, with their arguments, in order.
  - `contract` — predicates ordered by content address; contract addresses.
  - `keys` — the key after a key, and reading ranges of keys.
  - `streams` — paging through data for subscriptions.
  - `vm` — the state read VM: its stack, memory, repeat counters, control
    flow and gas, and the run of a program's synchronous operations (the
    constraint set's ALU, predicate, cryptographic, stack, total control
    flow and temporary memory operations among them) up to a halt, a yield,
    a failure or a state read that the caller performs.
  - `block` — block numbers and times, and the bookkeeping of the solutions
    a block keeps and fails.
  - `transition` — the writes a block builds up, the post state of a
    solution, and keeping or failing a solution by its checked result.
  - `solution`, `outcome`, `query` — checks before execution and the
    decision on a submitted solution, reported outcomes, and the order of
    the runs of a query of state reads and the recording of its reads.
- `tests/` — tests run against the compiled library.
- `app/` — a command-line server over rqlite: HTTP, the block-building loop
  and subscription waiting, built on the library.

The SQL statements themselves are read at run time from the directory given
by `--sql-dir`; each statement names its file.
