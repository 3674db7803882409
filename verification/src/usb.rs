//! USB descriptors, as far as the harnesses read them.

use vstd::prelude::*;

verus! {

/// USB vendor of the device.
pub const PASSPORT_VID: u16 = 0x1307;

/// USB product of the device.
pub const PASSPORT_PID: u16 = 0x0165;

/// How an endpoint moves its data.
#[derive(Clone, Copy, Debug, PartialEq, Eq, Structural)]
pub enum TransferType {
    Control,
    Isochronous,
    Bulk,
    Interrupt,
}

} // verus!
