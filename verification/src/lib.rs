//! munux kernel logic: keyboard decoding, physical frame allocation, pipes,
//! pseudo-terminals, file-descriptor tables, the virtual filesystem layer,
//! an ext2 reader, module image parsing and the network responder.

pub mod keycode;
pub mod pmm;
pub mod heap;
pub mod kheap;
pub mod ring;
pub mod pipe;
pub mod termios;
pub mod pty;
pub mod vcore;
pub mod text;
pub mod ramfs;
pub mod vfs;
pub mod ext2;
pub mod ext2_write;
pub mod ext2_remove;
pub mod vops;
pub mod path;
pub mod procfs;
pub mod console;
pub mod kbd;
pub mod fd;
pub mod elf;
pub mod elf_ino;
pub mod gdt;
pub mod idt;
pub mod exceptions;
pub mod timer;
pub mod signal;
pub mod poll;
pub mod epoll;
pub mod export;
pub mod mnx;
pub mod module;
pub mod blockdev;
pub mod ide;
pub mod panic_save;
pub mod net;
pub mod kpi_sync;
pub mod kpi_irq;
pub mod kpi_pci;
pub mod paging;
pub mod elfrel;
