# Homeostat

A household regulator: a house is a repository of TOML manifests, and the
core validates it, plans it against the running world, and supervises its
units over a Zenoh bus.

- `src/` is the library. Everything the core decides stands there with its
  contract, and Verus proves it: the key space, validation, zone and template
  expansion, grant resolution, the plan and its walk, live parameters, the
  supervision state machine, the apply engine, and the MCP protocol with its
  HTTP connection.
- `tests/` runs the library on concrete houses and messages.
- `app/` is the `homeostat` command around it: argument handling, files, git,
  processes, sockets, bus sessions, and the serde forms of what is read and
  sent.

What the library takes on trust from other crates is marked
`external_body` beside the wrapper that makes the call, in `json`, `floats`,
`tomlvalue`, `content`, `scan` and `supervisor::serve`.
