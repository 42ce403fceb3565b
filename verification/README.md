# OpenShell compute drivers

Drivers that run OpenShell sandboxes, and the steps that bring the gateway up. The
logic is verified with [Verus](https://github.com/verus-lang/verus): contracts say
what its functions return, and laws say what holds across them.

## Drivers

- **LXD** (`src/lxd/`): a sandbox is an instance of the LXD daemon, which is spoken
  to over its REST API on a Unix socket.
- **SSH** (`src/ssh.rs`): the supervisor is copied to a remote host and started there.
- **Local** (`src/local.rs`): the supervisor is a child process on this host.

SSH and local sandboxes are kept in one kind of registry (`src/registry.rs`).
Values that go into shell commands are quoted by `src/shell.rs`, which also models how
a shell reads them back.
`src/bootstrap/` installs the gateway on a cluster, `src/podman.rs` prepares Podman.

## Layout

- `src/` decides and computes. It does no I/O but for asking whether a path exists.
  A task that has to wait for something is a machine: it names the next request,
  command or action, and takes the outcome.
- `app/` performs what the library asks for: it talks to sockets, runs commands,
  applies objects to the cluster, and keeps the watch streams going.
- `tests/` runs the library on concrete values.

## What is trusted

The contracts of the wrappers in `src/json.rs`, `src/platform.rs`,
`src/bootstrap/apply.rs` and of `String::push` in `src/text.rs` are believed without
proof. Each names the function that it stands for and says what is claimed of it.
