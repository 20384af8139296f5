# agent-mux

Terminals, tabs and diffs of coding agents, shown in a terminal multiplexer. The
library under `src/` is verified with Verus: every function states what it
returns, and the laws that relate several functions stand beside them as public
proof functions.

- `git_review`: unified diffs, their limits, the lines to collapse, and the git
  commands that produce them.
- `orca_mux`: orca hosts. The layouts of their tabs, the relay and its frames,
  the runtime on this machine, hosts over ssh, and the domain that keeps the
  screen and the hub in step.
- `paseo_client`: the paseo daemon. Pairing offers, the encrypted channel,
  terminal frames, messages, and the requests that wait for answers.
- `paseo_mux`: paseo terminals as panes.
- `config`: what the user may set.
- `text`, `bytes`, `json`, `shell`, `order`, `collections`: what the others are
  built on.

What comes from outside crates and from std without a specification is declared
where it is used, with the contract that the proofs rest on.

`app/` holds the sockets, processes, timers and locks around the library, and the
arithmetic on floating-point ratios. `tests/` runs the library.
