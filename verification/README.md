# rekker

A byte pipe over TCP, UDP or TLS with receive operations in the style of
exploit-development tools: `recv`, `recvn`, `recvline`, `recvuntil`,
`recvall`, `send`, `sendline`, `sendlineafter`.

- `src/` is the verified library: the receive buffer and the decision of
  every receive and send (`pipe`, `scan`), address normalisation and TLS
  server names (`address`), timeouts (`duration`), the scripting-facing UDP
  pipe and input conversion (`binding`), and interactive sessions (`session`).
- `app/` drives the sockets, the threads of interactive sessions and the
  Python bindings, and asks the library what to do at each step.
