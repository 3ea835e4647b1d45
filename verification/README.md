# true_code

The core of a terminal coding agent, written in Verus: every function under
`src/` carries a `requires`/`ensures` contract that Verus proves.

What is proved covers the agent's rules and data: the permission modes and
approval of effects, the proof panel and its verdict, the edit and patch
logic, the streaming decoders of both provider protocols, the learning
profile, the terminal interface's state machine, hooks, checkpoints and the
configuration. Laws that relate several functions stand as public proof
functions beside the code they speak of (their names begin with `lemma_`).

Calls into outside crates (`serde_json`, `regex`, `globset`, `similar`,
`keyring`) go through small trusted wrappers whose doc comments say what
their contracts claim.

Layout:

- `src/` — the verified library.
- `tests/` — ordinary Rust tests run against the compiled library.
- `app/` — the program around it: terminal drawing, the event loop, HTTP,
  files and processes, which hand plain values to the library and back.

Verify with Verus on the crate root `src/lib.rs`; the tests run with
`cargo test`.
