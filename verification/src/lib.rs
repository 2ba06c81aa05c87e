//! The verified core of a small freestanding kernel: a buddy-system heap
//! over one contiguous region of memory, together with the pure decision
//! logic of the kernel's console, keyboard and bus drivers.

pub mod blocks;
pub mod heap;
pub mod integration;
pub mod interrupts;
pub mod keyboard;
pub mod math;
pub mod pci;
pub mod pic;
pub mod region;
pub mod vga;
