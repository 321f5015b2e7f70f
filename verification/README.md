# lazy

`lazy` starts development servers when they receive traffic. A local proxy
gives each registered service a URL and asks the service's runner to start
its command on the first request.

The crate is a library verified with Verus, and a thin program around it.

- `src/` is the verified library:
  - `text` — text helpers and their specifications;
  - `command` — framework detection and the command line and environment of
    a development server;
  - `daemon` — host routing (suffix and xip), HTTP request parsing, the
    service registry (registration, port choice, start and stop, runner
    reports), the status table, JSON and page;
  - `runner` — what a runner registers, how it waits for the daemon and its
    server, and its reaction to each daemon message and child event;
  - `ipc`, `listener`, `state`, `cli` — the control messages, the choice of
    a systemd socket, the state directory and control-socket checks, and the
    command-line defaults.
- `app/` is the program: argument parsing, sockets, TLS, timers, the child
  process and the JSON encoding of the control messages.
- `tests/` exercises the library on concrete values.
