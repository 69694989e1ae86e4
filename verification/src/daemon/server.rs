//! The daemon that runs with access to the hardware: which USB HID devices
//! it takes for keyboard controllers.

use vstd::prelude::*;

verus! {

/// The USB vendor id of System76.
pub const SYSTEM76_VENDOR_ID: u16 = 0x3384;

/// The USB product id of the launch_1 keyboard.
pub const LAUNCH_1_PRODUCT_ID: u16 = 0x0001;

/// The HID interface over which the launch_1 controller is reached.
pub const LAUNCH_1_EC_INTERFACE: i32 = 1;

/// Whether a USB HID device is the embedded controller of a launch_1
/// keyboard: its vendor and product, on the controller's interface.
pub fn is_launch_hid_ec(vendor_id: u16, product_id: u16, interface_number: i32) -> (b: bool)
    ensures
        b == (vendor_id == 0x3384 && product_id == 0x0001 && interface_number == 1),
{
    vendor_id == SYSTEM76_VENDOR_ID && product_id == LAUNCH_1_PRODUCT_ID && interface_number == LAUNCH_1_EC_INTERFACE
}

} // verus!
