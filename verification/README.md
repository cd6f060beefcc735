# kairos

Verified core of the Kairos tooling, written in Verus.

- `src/` — the library, every function verified against its contract:
  - the workforce soak driver's logic: configuration and duration parsing,
    latency statistics and percentiles, the continuous assertions and the
    breach ledger, the run outcome and exit code, board discovery, tenant
    isolation snapshots and verdicts, the operation mix and its generator,
    the agent-session checks and the password-grant token cache;
  - the web client's logic: capability gating and grant composition, glob
    matching, board view models, drop effects and board powers, the
    repository lens, live-update reconnects, encodings, sign-in checks,
    the activity feed and item history, request bodies, and the markdown
    editor's toolbar and conflict flow.
- `tests/` — tests on concrete values, run against the compiled library.
- `app/` — the soak driver program: command line, configuration files,
  HTTP and WebSocket I/O, the async orchestration and the JSON report. It
  holds no rule of its own; every decision comes from the library.
