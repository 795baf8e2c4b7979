# escutcheon

Port knocking for SSH. `knock-ssh` knocks a host's configured port sequence
(and that of any ProxyJump hosts) before running `ssh`; `knock-sshd` watches
the wire for those sequences and opens the SSH port to a source that completes
one, closing it again after a while.

- `src/` is the verified library: the client's configuration and decisions
  (`config`, `ssh_client`, `ttl`, `knock`), the daemon's state machine over a
  `dashmap::DashMap` of per-source progress (`sshd`, `knock_table`), the
  firewall commands (`firewall`), frame parsing (`packet`), and the text
  helpers they share (`text`, `seqtext`, `decimal`).
- `app/` holds the two programs: argument parsing, configuration files,
  sockets, packet capture, processes and timers.
- `tests/` exercises the library on concrete values.
