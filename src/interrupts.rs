use vstd::prelude::*;
use crate::constants::{PIC_1_OFFSET, PIC_2_OFFSET};

verus! {

/// Hardware interrupt lines of the two chained controllers, in line order;
/// after remapping, lines 0-7 sit at `PIC_1_OFFSET` and lines 8-15 at
/// `PIC_2_OFFSET`.
#[derive(Clone, Copy, PartialEq, Eq, Structural, Debug)]
pub enum InterruptIndex {
    Timer,
    Keyboard,
    Cascade,
    COM2,
    COM1,
    LPT2,
    FloppyDisk,
    LPT1,
    RTC,
    ACPI,
    Available1,
    Available2,
    Mouse,
    CoProcessor,
    PrimaryATA,
    SecondaryATA,
}

impl InterruptIndex {
    /// The controller line (0-15).
    pub open spec fn spec_line(self) -> u8 {
        match self {
            InterruptIndex::Timer => 0,
            InterruptIndex::Keyboard => 1,
            InterruptIndex::Cascade => 2,
            InterruptIndex::COM2 => 3,
            InterruptIndex::COM1 => 4,
            InterruptIndex::LPT2 => 5,
            InterruptIndex::FloppyDisk => 6,
            InterruptIndex::LPT1 => 7,
            InterruptIndex::RTC => 8,
            InterruptIndex::ACPI => 9,
            InterruptIndex::Available1 => 10,
            InterruptIndex::Available2 => 11,
            InterruptIndex::Mouse => 12,
            InterruptIndex::CoProcessor => 13,
            InterruptIndex::PrimaryATA => 14,
            InterruptIndex::SecondaryATA => 15,
        }
    }

    /// The interrupt vector of the line after remapping.
    pub open spec fn spec_vector(self) -> u8 {
        let line = self.spec_line();
        if line < 8 {
            (PIC_1_OFFSET + line) as u8
        } else {
            (PIC_2_OFFSET + line - 8) as u8
        }
    }

    pub fn as_u8(self) -> (r: u8)
        ensures
            r == self.spec_vector(),
    {
        match self {
            InterruptIndex::Timer => PIC_1_OFFSET,
            InterruptIndex::Keyboard => PIC_1_OFFSET + 1,
            InterruptIndex::Cascade => PIC_1_OFFSET + 2,
            InterruptIndex::COM2 => PIC_1_OFFSET + 3,
            InterruptIndex::COM1 => PIC_1_OFFSET + 4,
            InterruptIndex::LPT2 => PIC_1_OFFSET + 5,
            InterruptIndex::FloppyDisk => PIC_1_OFFSET + 6,
            InterruptIndex::LPT1 => PIC_1_OFFSET + 7,
            InterruptIndex::RTC => PIC_2_OFFSET,
            InterruptIndex::ACPI => PIC_2_OFFSET + 1,
            InterruptIndex::Available1 => PIC_2_OFFSET + 2,
            InterruptIndex::Available2 => PIC_2_OFFSET + 3,
            InterruptIndex::Mouse => PIC_2_OFFSET + 4,
            InterruptIndex::CoProcessor => PIC_2_OFFSET + 5,
            InterruptIndex::PrimaryATA => PIC_2_OFFSET + 6,
            InterruptIndex::SecondaryATA => PIC_2_OFFSET + 7,
        }
    }

    pub fn as_usize(self) -> (r: usize)
        ensures
            r == self.spec_vector(),
    {
        self.as_u8() as usize
    }
}

/// Interrupt mask for the primary controller in armed mode: every line
/// masked (bit set) but the timer's line 0.
pub fn timer_only_mask() -> (r: u8)
    ensures
        r == 0xfe,
        forall|line: u8| line < 8 ==> (r & (1u8 << line) == 0 <==> line == InterruptIndex::Timer.spec_line()),
{
    let r: u8 = 0xfe;
    assert(forall|line: u8| line < 8 ==> (r & (1u8 << line) == 0 <==> line == 0)) by (bit_vector)
        requires
            r == 0xfe,
    ;
    r
}

} // verus!
