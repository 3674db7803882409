//! The state of the link to the peer.

use vstd::prelude::*;

verus! {

/// The state of the link, as far as it is looked at.
#[derive(Clone, Copy, Debug, PartialEq, Eq, Structural)]
pub enum PeerStatus {
    /// The session is up.
    Connected,
    /// This side has started a handshake.
    Initiator,
    /// Any other state.
    Other,
}

/// What is told of a change of state.
#[derive(Clone, Copy, Debug, PartialEq, Eq, Structural)]
pub struct StatusChanged {
    pub state: PeerStatus,
    /// The transport is in use.
    pub bt_connected: bool,
    /// The peer's identifier is known.
    pub peer_known: bool,
}

/// What is told of a change to `state`, with the peer's identifier if it is known.
pub fn status_changed(peer: Option<[u8; 16]>, state: PeerStatus) -> (event: StatusChanged)
    ensures
        event.state == state,
        event.bt_connected == (state == PeerStatus::Connected || state == PeerStatus::Initiator),
        event.peer_known == (peer is Some),
{
    StatusChanged {
        state,
        bt_connected: state == PeerStatus::Connected || state == PeerStatus::Initiator,
        peer_known: peer.is_some(),
    }
}

/// What came in while waiting for a state.
#[derive(Clone, Copy, Debug, PartialEq, Eq, Structural)]
pub enum StatusEvent {
    /// The link changed to this state.
    Status(PeerStatus),
    /// No more changes will come.
    Closed,
    /// The time is up.
    TimedOut,
}

/// Where the wait for a state stands.
#[derive(Clone, Copy, Debug, PartialEq, Eq, Structural)]
pub enum Wait {
    /// Keep waiting.
    Waiting,
    /// The state is reached.
    Reached,
    /// The state can no longer be reached.
    Closed,
    /// The state was not reached in time.
    TimedOut,
}

/// The wait for `target` after one event.
pub open spec fn wait_after(target: PeerStatus, event: StatusEvent) -> Wait {
    match event {
        StatusEvent::Status(status) => if status == target {
            Wait::Reached
        } else {
            Wait::Waiting
        },
        StatusEvent::Closed => Wait::Closed,
        StatusEvent::TimedOut => Wait::TimedOut,
    }
}

/// One event of the wait for `target`: other states are passed over.
pub fn await_status(target: PeerStatus, event: StatusEvent) -> (wait: Wait)
    ensures
        wait == wait_after(target, event),
{
    match event {
        StatusEvent::Status(status) => if status == target {
            Wait::Reached
        } else {
            Wait::Waiting
        },
        StatusEvent::Closed => Wait::Closed,
        StatusEvent::TimedOut => Wait::TimedOut,
    }
}

/// The wait for `target` over a run of events: it ends with the first event that ends it.
pub open spec fn wait_over(target: PeerStatus, events: Seq<StatusEvent>) -> Wait
    decreases events.len(),
{
    if events.len() == 0 {
        Wait::Waiting
    } else {
        match wait_after(target, events.first()) {
            Wait::Waiting => wait_over(target, events.drop_first()),
            ended => ended,
        }
    }
}

/// The event at `n` brings the state, and all before it bring other changes of state or the
/// same one.
pub open spec fn comes_at(target: PeerStatus, events: Seq<StatusEvent>, n: int) -> bool {
    &&& 0 <= n < events.len()
    &&& events[n] == StatusEvent::Status(target)
    &&& forall|i: int| 0 <= i < n ==> #[trigger] events[i] is Status
}

/// The wait succeeds exactly when the state comes before the end of the changes and before
/// the time is up.
pub proof fn law_reached(target: PeerStatus, events: Seq<StatusEvent>)
    ensures
        wait_over(target, events) == Wait::Reached <==> exists|n: int| comes_at(target, events, n),
    decreases events.len(),
{
    if events.len() > 0 {
        let rest = events.drop_first();
        law_reached(target, rest);
        if wait_over(target, events) == Wait::Reached {
            if events[0] == StatusEvent::Status(target) {
                assert(comes_at(target, events, 0));
            } else {
                let n = choose|n: int| comes_at(target, rest, n);
                assert forall|i: int| 0 <= i < n + 1 implies #[trigger] events[i] is Status by {
                    if i > 0 {
                        assert(rest[i - 1] is Status);
                    }
                }
                assert(comes_at(target, events, n + 1));
            }
        }
        if exists|n: int| comes_at(target, events, n) {
            let n = choose|n: int| comes_at(target, events, n);
            if n > 0 && events[0] != StatusEvent::Status(target) {
                assert(events[0] is Status);
                assert forall|i: int| 0 <= i < n - 1 implies #[trigger] rest[i] is Status by {
                    assert(events[i + 1] is Status);
                }
                assert(comes_at(target, rest, n - 1));
            }
        }
    }
}

/// Of the changes of state only the wanted one ends a wait; the end of the changes ends it as
/// closed, and the end of the time as timed out.
pub proof fn law_waiting(target: PeerStatus, status: PeerStatus)
    ensures
        wait_after(target, StatusEvent::Status(target)) == Wait::Reached,
        status != target ==> wait_after(target, StatusEvent::Status(status)) == Wait::Waiting,
        wait_after(target, StatusEvent::Closed) == Wait::Closed,
        wait_after(target, StatusEvent::TimedOut) == Wait::TimedOut,
{
}

} // verus!
