# mneme

Session persistence for terminal processes. A program runs under a server of its own; terminals
attach to it over a Unix socket, are shown the recent output, and detach again while the program
runs on.

- `src/` is the library: everything that is decided rather than done. Every function has a
  contract, and Verus proves it.
  - `ring`: the circular buffer of recent output.
  - `protocol`: packets and their bytes.
  - `session`: what a server does about output, clients and the end of its child;
    `session_laws`: what holds over any course of such events.
  - `outbox`: the order in which packets go to one client.
  - `server`: a server's arguments, greetings, and what it runs.
  - `client`: the handshake, the detach key, and what an attached client does.
  - `socket`: session names, the socket directory, locks.
  - `cli`: the command line and what is printed.
  - `transfer`: how whole transfers are made of single reads and writes.
  - `text`: strings and decimal numbers.
- `app/` is the program around it: system calls, descriptors, tasks.
- `tests/` runs the library.

The library trusts five functions: `String::push`, `String::from_utf8`,
`String::from_utf8_lossy`, `rustix::fs::FileType::from_raw_mode` and `rustix::process::Pid::from_raw`. Their contracts stand
beside the declarations.
