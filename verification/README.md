# mdns

Multicast DNS service discovery, with the decisions verified by Verus.

- `src/` is the library: service names, C strings and TXT data (`text`), the replies of DNS-SD
  (`dnssd`), polling (`poll`), the course of a DNS-SD discovery (`browse`, `macos`), responses
  (`response`, `net`) and discovery requests with their response filter (`discover`). It makes no
  system call: each step says what is to be done, and is told the outcome.
- `app/` performs those steps: sockets, tasks and streams (`discover`), and the calls of
  `dns_sd.h` (`macos`).
- `tests/` runs the library on concrete values.

The multicast socket itself is left to implementations of the traits in `app/raw.rs`.
