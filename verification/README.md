# zed_lock

Decision core for kernel-backed local locking, verified with Verus.

The operating system's descriptor lock is the only authority over ownership.
Around it stand decisions that have to be right whatever the file system, the
kernel and other threads answer. They are made here, on plain values.

- `vetting`, `rendezvous`, `policy`, `sddl`: which path may serve as a lock file.
  An opening is a chain of steps; a file is handed out only after every check.
- `request`, `manager`, `guard`: what becomes of one acquisition, which events
  tell of it, and what a release undoes.
- `order`, `lockset`: the hierarchy of locks, for one thread and for lock sets.
- `reserved`, `limiter`: reentry of a process, and the cap on background waiters.
- `waiter`: who gets the result of a background acquisition.
- `owner`, `event`, `error`, `span`, `path`, `text`: the values that these speak of.

`app/` makes the system calls and runs the threads.

Proof functions named `law_..` state what holds of the library as a whole: an
opened file has been vetted, a release undoes its acquisition, a lock set is
released in reverse, threads that keep to the hierarchy do not deadlock, a
receiver that went away gets nothing.
