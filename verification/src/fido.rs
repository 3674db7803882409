//! Finding the device's FIDO interface.

use crate::usb::{PASSPORT_PID, PASSPORT_VID};
use vstd::prelude::*;

verus! {

/// What to run against.
pub struct Args {
    /// Run against the hosted simulator, which has no HID transport yet.
    pub hosted: bool,
}

/// Why there is no device to drive.
#[derive(Clone, Copy, Debug, PartialEq, Eq, Structural)]
pub enum FidoError {
    /// The hosted simulator was asked for.
    Hosted,
    /// No HID device has the device's numbers.
    NoDevice,
}

/// A HID device, as far as the search reads it.
#[derive(Clone, Copy, Debug, PartialEq, Eq, Structural)]
pub struct HidDevice {
    pub vendor_id: u16,
    pub product_id: u16,
}

/// Refuses what cannot be run against, before any device is looked for.
pub fn check_target(args: &Args) -> (out: Result<(), FidoError>)
    ensures
        out == (if args.hosted {
            Err(FidoError::Hosted)
        } else {
            Ok::<(), FidoError>(())
        }),
{
    if args.hosted {
        Err(FidoError::Hosted)
    } else {
        Ok(())
    }
}

/// The HID device is the one that is looked for.
pub open spec fn is_passport(device: HidDevice) -> bool {
    device.vendor_id == PASSPORT_VID && device.product_id == PASSPORT_PID
}

/// Position of the first HID device that is the one looked for.
pub fn find_device(devices: &Vec<HidDevice>) -> (out: Result<usize, FidoError>)
    ensures
        match out {
            Ok(at) => {
                &&& at < devices@.len()
                &&& is_passport(devices@[at as int])
                &&& forall|i: int| 0 <= i < at ==> !is_passport(#[trigger] devices@[i])
            },
            Err(e) => {
                &&& e == FidoError::NoDevice
                &&& forall|i: int| 0 <= i < devices@.len() ==> !is_passport(#[trigger] devices@[i])
            },
        },
{
    let mut at: usize = 0;
    while at < devices.len()
        invariant
            at <= devices@.len(),
            forall|i: int| 0 <= i < at ==> !is_passport(#[trigger] devices@[i]),
        decreases devices@.len() - at,
    {
        if devices[at].vendor_id == PASSPORT_VID && devices[at].product_id == PASSPORT_PID {
            return Ok(at);
        }
        at += 1;
    }
    Err(FidoError::NoDevice)
}

/// The device is known by its two numbers: vendor 1307 and product 0165.
pub proof fn law_known_by_numbers(device: HidDevice)
    ensures
        is_passport(device) <==> device.vendor_id == 0x1307 && device.product_id == 0x0165,
{
}

} // verus!
