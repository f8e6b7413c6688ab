# raw_linux

A verified model of the pieces of a libc-free Linux runtime and of the small
utilities built on it (`cat`, `echo`, `sleep`, `false`, a loader).

- `src/startup.rs`: the initial process stack (argument count and pointers,
  environment, auxiliary vector) as a sequence of words plus the memory that
  holds the strings; `Args`, `InitArgsMut` and `EnvAndAux` read it.
- `src/cstr.rs`: NUL-terminated strings in that memory.
- `src/sys.rs`: file descriptors, the `write_all` loop as a state machine,
  `BorrowedBuf`, and the arguments of `openat` and `nanosleep`.
- `src/echo.rs`, `src/cat.rs`, `src/sleep.rs`, `src/loader.rs`: what each
  utility decides, proved against its specification.
- `app/lib.rs`: the system calls themselves and the utilities' main loops,
  which perform what the library decides.
