//! Vector offsets of the two chained legacy interrupt controllers.
use vstd::prelude::*;

verus! {

/// First interrupt vector of the primary controller.
pub const PIC_1_OFFSET: u8 = 32;

/// First interrupt vector of the secondary controller, right after the primary's eight.
pub const PIC_2_OFFSET: u8 = 40;

/// Base vectors for the primary and the secondary controller.
#[derive(Clone, Copy, Debug, PartialEq, Eq, Structural)]
pub struct PicOffsets {
    pub primary: u8,
    pub secondary: u8,
}

impl PicOffsets {
    /// The secondary controller's vectors follow the primary's eight, and
    /// neither overlaps the 32 vectors the processor reserves for exceptions.
    pub open spec fn wf(self) -> bool {
        &&& self.primary >= 32
        &&& self.secondary == self.primary + 8
    }
}

/// Interrupt-controller bring-up: yields the fixed remapping offsets. The
/// hardware itself is left untouched, so interrupts stay masked.
pub fn init() -> (r: PicOffsets)
    ensures
        r.wf(),
        r.primary == PIC_1_OFFSET,
        r.secondary == PIC_2_OFFSET,
{
    PicOffsets { primary: PIC_1_OFFSET, secondary: PIC_1_OFFSET + 8 }
}

} // verus!
