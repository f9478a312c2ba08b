# ashell

The logic of a terminal client for local shells, SSH and serial connections, written in
Verus. The contracts of the library's functions are proved.

- `src/` is the library: sessions and the configuration, its encryption and recovery, the
  command history, the output of remote probes, the course and the authentication of an SSH
  session, panes and tabs, remote files, and what each part of the window shows.
- `tests/` runs the library on concrete values, with the crates that it calls.
- `app/` surrounds the library with what it leaves open: files, sockets, pseudo-terminals,
  threads and floating-point positions. A window toolkit embeds it through the trait
  `front::Front`.

The workspace is a state machine. A call changes the state and appends what is to be done
outside to `Workspace::effects`; `front::Desk` does that in order. What the library believes
of the crates that it calls stands in the doc comments of its `external_body` functions.
