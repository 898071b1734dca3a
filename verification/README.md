# hermit_kernel

The time keeping and memory management logic of a unikernel, verified with Verus.

- `src/` is the library. It computes and decides, and its contracts say what.
  - `align`, `addresses`, `page_range`, `range_list`: rounding, addresses, page ranges and lists of
    free ranges.
  - `e820`, `physicalmem`: which physical memory is usable, and its allocator.
  - `mman`: the memory management system calls.
  - `calendar`, `rtc`, `kvmclock`, `systemtime`: the clocks, and the time since the UNIX epoch.
- `app/` reads ports, model specific registers, processor identification and page tables, keeps
  the global state, and carries out what the library decides.
- `tests/` runs the library.

Where reading hardware alternates with decisions, the library has a step function: it takes how
far the reading has come and what was read last, and returns what to read next. The functions
named `law_*` prove what holds over several steps or calls.
