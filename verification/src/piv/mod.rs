//! Driving the device's PIV applet: SELECT, GET DATA, GENERAL AUTHENTICATE, and the check of
//! the signature against the key in the device's certificate.

pub mod apdu;
pub mod keys;
pub mod session;
pub mod tlv;
