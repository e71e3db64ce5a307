# wakeup

The core of a `caffeinate`-compatible keep-awake tool, verified with Verus.

- `src/lib.rs`: `AssertionKind` and `AssertionRequest`.
- `src/backend/`: `BackendError`, kind labels, and what each platform
  (Linux systemd-logind, macOS IOKit, Windows Power Requests, anything else)
  can hold and how it reports what it cannot.
- `src/session.rs`: `Session`, the held assertions and the hold policies as
  step functions (clock reading in, sleep duration out), with their laws.
- `src/cli.rs`: command-line parsing, the mapping of flags onto assertion
  requests, the `-u` default release and the hold mode, with their laws.
- `src/process.rs`: process liveness and command exit codes.
- `app/`: the program: operating system calls (FFI, `systemd-inhibit`),
  the clock, sleeping, and the command line's I/O.
