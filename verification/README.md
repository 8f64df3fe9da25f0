# smallishtalk

A Smalltalk virtual machine whose heap, collectors, interpreter, scheduler,
primitives, images and profiler are verified with Verus.

- `src/` is the library. The machine's state has a mathematical view
  (`VmView`, and `Machine` for a view together with the registers); every
  operation says which view it leaves behind, or which fault it stops with
  and what the machine is then. `graph`, `survival`, `sliding`, `remembered`,
  `walks`, `reload`, `symbols`, `room`, `soundness`, `booting`, `loading`,
  `upkeep`, `activation`, `safepoints`, `spawning`, `steps`, `instructions`,
  `queues`, `installs`, `inline_caches`, `names` and `laws` hold what the
  operations have in common: new and loaded machines are sound; stores,
  allocations, frames, growing stacks, new processes, process switches, sends
  and simple instructions keep them so; a sound machine can be collected;
  collections and images keep the object graph and the tables, and collections
  keep nothing else; old objects that point young are remembered; walks find
  what was allocated; queues keep their order; what is installed is found; send
  sites remember what a search finds; and no two names are the same.
- `app/` is the program around it: options, files, clocks, floating point and
  the window.
- `tests/` runs the library.

Objects live in the machine's own address space, so compiled code is kept and
patched, but not run, by this crate. Floating-point arithmetic, files and
clocks are requests that the machine hands to its host.
