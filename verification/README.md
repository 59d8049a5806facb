# sigil

The decisions of a local approval daemon, verified with Verus.

A command that a rule matches runs only after a person has approved it, on a paired
phone or another approving factor. An approval may open a window: for a while, the same
tree of processes may run whatever the rule matches without asking again. Sealed values
that a rule injects are opened for the one run, or kept in memory for as long as the
window lasts.

## Layout

- `src/` is the library. All of it is verified but for the few small functions that call
  other crates, which are named below.
  - `config`: rules, sources, how an invocation is matched, and the label that a consent
    surface shows for a rule.
  - `lease`: who is calling (the chain of ancestors and what was measured of them), the key
    that a window is filed under, and the store of open windows.
  - `keystore`, `keystore_seal`, `keystore_macos`: where the daemon keeps its own blobs, the
    wrapped form of that store, and the marker that keeps it from being downgraded.
  - `daemon`: what a request comes to. `plan` decides before anyone is asked, `fulfil`
    carries a gated run through step by step, `vault` opens a wrapped store, `sealing`
    seals values, `reload` ends the windows that a config change moved, `ssh` gates
    signatures, and `laws` states what holds of all of it.
  - `factor`, `instance`, `policy`, `private_file`, and the small foundations below them
    (`text`, `bytes`, `lists`, `shelf`, `path`, `clock`, `secrets`, `encoding`).
- `app/` is the program around it: files, sockets, processes and the JSON on disk.
- `tests/` runs the library on concrete values.

Work that touches the world is done outside: the library is told what came of it and says
what to do next. What it takes from other crates on trust (a digest, base64, JSON, random
ids, the clock, wiping memory) stands behind small functions whose comments say what is
claimed.
