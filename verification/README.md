# munux kernel logic, verified

`src/` is a Verus library holding the decisions of a small x86_64 kernel:
keyboard decoding, the physical frame allocator, 4-level page tables over a
model of physical memory, the kernel heap's first-fit allocator, pipes, pseudo-terminals, descriptor tables, epoll,
signals, the virtual filesystem with ramfs, procfs and an ext2 driver (read,
create, remove), the IDE transfer checks, ELF program loading plans, MNX and
ELF64 relocatable (`.ko`) module images, the module table and the Linux-style driver helpers (locks, IRQ lines, PCI binding).

Every function states its result in `requires`/`ensures` over spec functions,
and the laws that span several calls are public proof functions next to the
code they are about.

`tests/` runs the library on concrete values; `app/` is a hosted boot that
wires the pieces together (console, memory, paging, filesystem image, module
loading, the shell's first exec) with the I/O the library leaves out.
