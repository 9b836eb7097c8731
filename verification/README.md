# RustyOS

A small x86-64 kernel booted by Limine, split in two:

- `src/` is the `rustyos` library, verified with Verus: the frame bitmap,
  the four-level page tables, the kernel and libc heaps, process creation
  and ELF loading, the round-robin scheduler, system call and interrupt
  dispatch, the descriptor tables, the interrupt controllers and timers as
  the values written to them, the framebuffer console, and the mount table.
  Each public function states its result in its contract; the `law_*`
  proof functions state properties that relate several operations.
- `app/` is the kernel program around it: the Limine requests, port and
  MSR instructions, the interrupt and system call entry stubs, the writes
  of page tables and loaded pages into physical memory, and `kmain`.
- `tests/` runs the library on concrete values.

The library's state is a model of the machine's: page tables are kept as
tables by physical address and written out by the program, and the heaps
are kept as their lists of block headers together with their bytes (so
that an allocation can be shown to hand out zeroed memory).  The kernel
state's invariant includes that every page table lives in a frame marked
used, and that the tables form levels, trees below the top level, with
every address space at the top; from it the laws show that a mapping
translates as asked and leaves every other page's translation alone.
