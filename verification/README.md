# panops-core

The core of a local-first meeting recorder: transcript types, two-track
speaker merging, topic segmentation, screenshot anchoring, the speaker
attribution check, prompt rendering and chunking, the notes pipeline, an
in-memory meeting registry and per-meeting store, and the fakes and
conformance checks that adapters are held to.

- `src/` is the library, written in Verus, and the verifier checks all
  of it. Most contracts fix a function's result exactly; the notes
  pipeline's contract speaks of the answers the model gave to the requests
  it was sent. The `Storage` and `MeetingStore` ports leave their
  behaviour to each adapter, so each port names the steps an adapter may
  take (`Storage::step`, `MeetingStore::step`), which the in-memory
  adapters define exactly. Each conformance suite records the adapter's
  calls and answers as steps from the adapter it was given, split by
  check; each check's calls are fixed whatever the answers, and the suite
  is `Ok` exactly when every check passed on its own steps. A fresh
  in-memory meeting store is proved to pass its suite.
  The laws that span
  several operations (a created meeting reads back, deletes cascade, listings are ordered,
  timestamps round-trip, chunking and segmentation keep every segment once
  and in order, and more) are public proof functions.
- `tests/` exercises the library on concrete values.
- `app/` holds what touches the outside world: serde shapes of the
  library's types, the ports whose signatures carry float samples or paths,
  and the fake adapters and conformance suites that read and write files.
