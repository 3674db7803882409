//! Timeouts of the link.

use vstd::prelude::*;

verus! {

/// How long the session may take to come up, in seconds.
pub const ESTABLISH_TIMEOUT_SECS: u64 = 30;

/// How long the peer's bundle may take to arrive after pairing, in seconds.
pub const BUNDLE_TIMEOUT_SECS: u64 = 3;

/// A deadline that is never reached: a hundred years of 365 days, in seconds.
pub const PARKED_SECS: u64 = 3_153_600_000;

/// Timeouts of the session, in seconds. Zero switches one off.
#[derive(Clone, Copy, Debug, PartialEq, Eq, Structural)]
pub struct LinkConfig {
    pub handshake_timeout_secs: u64,
    pub session_record_retransmit_timeout_secs: u64,
    pub session_keepalive_interval_secs: u64,
    pub session_peer_timeout_secs: u64,
}

/// The timeouts for a link that runs over Bluetooth: no keepalive, and no limit on the peer's
/// silence.
pub fn ble_config() -> (config: LinkConfig)
    ensures
        config == (LinkConfig {
            handshake_timeout_secs: 10,
            session_record_retransmit_timeout_secs: 2,
            session_keepalive_interval_secs: 0,
            session_peer_timeout_secs: 0,
        }),
{
    LinkConfig {
        handshake_timeout_secs: 10,
        session_record_retransmit_timeout_secs: 2,
        session_keepalive_interval_secs: 0,
        session_peer_timeout_secs: 0,
    }
}

/// The session may take thirty seconds to come up and the bundle three to arrive; a parked
/// deadline is a hundred years away.
pub proof fn law_waits()
    ensures
        ESTABLISH_TIMEOUT_SECS == 30,
        BUNDLE_TIMEOUT_SECS == 3,
        PARKED_SECS == 60 * 60 * 24 * 365 * 100,
{
}

} // verus!
