//! Foundation Lab: the rules behind the device and QuantumLink test harnesses.

pub mod backend;
pub mod ccid_inspect;
pub mod fido;
pub mod hexadecimal;
pub mod logs;
pub mod piv;
pub mod relay;
pub mod text;
pub mod usb;
