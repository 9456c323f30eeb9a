# base_sys

Memory mappings, arenas and message tubes for Linux and macOS, verified with Verus.

Nothing in the library enters the kernel. An operation is a value that awaits the reply to one
system call: starting it gives a step, and each reply gives the next step, until the operation is
over. That way every decision (which calls are made, with which arguments, and what each reply
means) stands in verified code, and whoever drives an operation only makes the calls.

- `src/operation.rs`, `src/syscall.rs`: operations, system calls and their replies.
- `src/linux`, `src/macos`: what each system does its own way: aligned mappings, and messages in
  packets or in a stream.
- `src/unix`: mappings, arenas, builders and tubes, and what holds of them as a whole.
- `src/address_space.rs`: what the calls do to the address space, which the laws speak of.
- `src/wire.rs`: the length that stands before a message in a stream.
- `app`: makes the calls on a running system, with that system's numbers for flags and advice, and
  owns the memory and the sockets.
