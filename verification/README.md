# ai-memory

Rules of a memory server that several operators share, written in Verus: who a
request is from, what it may do, which rows it owns and sees, how retrieval
candidates are put to a judging model and its reply is read, and what the
maintenance commands do next. Every function of `src/` states its behaviour in
a contract that Verus proves; nothing in it is trusted beyond `vstd`. The
promises that span several functions stand beside them as `law_*` proof
functions.

| Path | What stands there |
|---|---|
| `src/text.rs` | white space, trimming, splitting, decimal and hexadecimal notation |
| `src/actor.rs` | actors, identity keys, storage keys, path segments |
| `src/authz.rs` | tiers, capabilities, refusals |
| `src/admission.rs` | the admission-chain skip header |
| `src/ownership.rs` | owner filters and owner stamps |
| `src/float32.rs` | binary32 numbers by bit pattern, the clamp into the unit range |
| `src/reranker.rs` | the reranking request and the reading of its reply |
| `src/reset.rs` | when a reset may run, and what becomes of each directory |
| `src/watch.rs` | the order of the watcher's steps |
| `tests/` | what the library does on concrete values |
| `app/` | files, processes, signals and wire formats around the library |
