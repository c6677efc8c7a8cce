# codex-plus-core

The decision logic of Codex++ — its launcher, helper, mobile relay and
manager — as a Verus library: each function states in its contract what it
returns, and Verus proves the code against it.

- `src/` is the verified library. The mobile relay (`relay`, `rooms`,
  `relay_status`, `crypto`), the helper and host sides (`helper`, `host`,
  `mobile`, `sessions`, `http`), the launcher's plans and retry rules
  (`launcher`), the manager's payloads and configuration text
  (`manager`, `relay_text`), and the Zed remote registry (`zed`, `registry`,
  `remote_state`, `paths`), over shared text, JSON and encoding helpers.
  Public proof functions named `law_*` state properties that span calls.
- `tests/` runs the library on concrete values.
- `app/` is the mobile relay server: sockets, the async runtime and JSON
  (de)serialisation around the library.
