# net_helper

Rings of packets shared with a network interface through netmap, verified with Verus.

- `src/` is the library. `netmap` turns the name of an interface into a request and finds the rings
  of an open interface, `ring` sends and receives on them, `tokio_async` makes the decisions of
  asynchronous reads and writes, `fallback` passes packets within the process, and `traffic` makes
  a stream of test packets. `ring_laws` and the functions named `law_*` elsewhere state what holds
  of several operations together.
- `tests/` runs the library on concrete rings.
- `app/` is the program around it: it opens the interface, maps the shared memory and makes the
  system calls, and offers the rings to a Tokio runtime.

The library never touches a device. It works on a copy of each ring (`RingBlock`) and on the memory
of the packet buffers; a function that needs a system call hands back which one to make.
