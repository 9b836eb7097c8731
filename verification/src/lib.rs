//! RustyOS kernel logic: allocators, paging, scheduling, loaders and the
//! small hardware encodings around them, as verified Verus code.
pub mod heap;
pub mod trap;
pub mod process;
pub mod scheduler;
pub mod frames;
pub mod paging;
pub mod font;
pub mod framebuffer;
pub mod elf;
pub mod syscall;
pub mod pic;
pub mod interrupts;
pub mod gdt;
pub mod time;
pub mod libc;
pub mod vfs;
pub mod kbox;
pub mod serial;
pub mod kernel;
pub mod vmm;
pub mod user;
pub mod text;
