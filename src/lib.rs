//! Console core of a small single-tasking kernel: the scancode queue and key
//! decoder, a text-mode screen model with cursor and scrolling, and a
//! line-editing shell with history and a command table.

pub mod constants;
pub mod vga_buffer;
pub mod keyboard;
pub mod shell;
pub mod interrupts;
