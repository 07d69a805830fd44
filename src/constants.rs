use vstd::prelude::*;

verus! {

/// Rows of the text-mode display.
pub const BUFFER_HEIGHT: usize = 25;

/// Columns of the text-mode display.
pub const BUFFER_WIDTH: usize = 80;

/// Physical address of the text-mode display memory.
pub const BUFFER_ADDR: usize = 0xb8000;

/// PS/2 keyboard data port.
pub const KEYBOARD_DATA_PORT: u16 = 0x60;

/// PS/2 keyboard status/command port.
pub const KEYBOARD_STATUS_COMMAND_PORT: u16 = 0x64;

/// Status register bit: the controller's output buffer holds a byte.
pub const STATUS_OUTPUT_BUFFER_FULL: u8 = 0x01;

/// Command byte that makes the keyboard controller pulse the CPU reset line.
pub const CMD_RESET_CPU: u8 = 0xFE;

/// First vector of the primary interrupt controller after remapping.
pub const PIC_1_OFFSET: u8 = 32;

/// First vector of the secondary interrupt controller after remapping.
pub const PIC_2_OFFSET: u8 = 40;

/// Data port of the primary interrupt controller (its interrupt mask).
pub const PIC_1_DATA_PORT: u16 = 0x21;

} // verus!
