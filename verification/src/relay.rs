//! The relay between a backend and the device's bridge.
//!
//! The relay forwards bytes and never looks inside them. What it decides is which
//! connections it joins: a backend that connects gets a connection to the device's bridge, or
//! is dropped where the bridge cannot be reached. There is one link at a time: the next backend
//! is accepted once the link at hand has ended, as the bridge takes a single relay.

use vstd::prelude::*;

verus! {

/// Where backends connect.
pub fn backend_listen() -> (address: &'static str)
    ensures
        address@ == "127.0.0.1:8766"@,
{
    "127.0.0.1:8766"
}

/// Where the device's bridge listens.
pub fn device_bridge() -> (address: &'static str)
    ensures
        address@ == "127.0.0.1:8765"@,
{
    "127.0.0.1:8765"
}

/// Where the relay stands.
#[derive(Clone, Copy, Debug, PartialEq, Eq, Structural)]
pub enum Phase {
    /// Waiting for a backend.
    Accepting,
    /// A backend has connected: dialing the device's bridge for it.
    Dialing,
    /// Bytes are forwarded between the backend and the bridge.
    Linked,
}

/// What happened.
#[derive(Clone, Copy, Debug, PartialEq, Eq, Structural)]
pub enum Event {
    /// No backend could be accepted.
    AcceptFailed,
    BackendConnected,
    /// The device's bridge cannot be reached.
    BridgeUnreachable,
    BridgeConnected,
    /// Either side has closed the link, or it broke.
    LinkEnded,
}

/// What to do with the backend that has connected.
#[derive(Clone, Copy, Debug, PartialEq, Eq, Structural)]
pub enum Effect {
    /// Nothing yet.
    Nothing,
    /// Close its connection.
    DropBackend,
    /// Forward bytes both ways until the link ends.
    Forward,
}

/// The relay.
#[derive(Clone, Copy, Debug, PartialEq, Eq, Structural)]
pub struct Relay {
    pub phase: Phase,
}

impl Relay {
    /// A relay that waits for its first backend.
    pub open spec fn start() -> Relay {
        Relay { phase: Phase::Accepting }
    }

    /// The event is one that the phase waits for.
    pub open spec fn accepts(self, event: Event) -> bool {
        match self.phase {
            Phase::Accepting => event is AcceptFailed || event is BackendConnected,
            Phase::Dialing => event is BridgeUnreachable || event is BridgeConnected,
            Phase::Linked => event is LinkEnded,
        }
    }

    /// The relay after an event.
    pub open spec fn after(self, event: Event) -> Relay {
        Relay {
            phase: match event {
                Event::AcceptFailed => Phase::Accepting,
                Event::BackendConnected => Phase::Dialing,
                Event::BridgeUnreachable => Phase::Accepting,
                Event::BridgeConnected => Phase::Linked,
                Event::LinkEnded => Phase::Accepting,
            },
        }
    }

    /// What an event asks for.
    pub open spec fn effect(event: Event) -> Effect {
        match event {
            Event::AcceptFailed => Effect::Nothing,
            Event::BackendConnected => Effect::Nothing,
            Event::BridgeUnreachable => Effect::DropBackend,
            Event::BridgeConnected => Effect::Forward,
            Event::LinkEnded => Effect::Nothing,
        }
    }

    /// A relay that waits for its first backend.
    pub fn new() -> (relay: Relay)
        ensures
            relay == Relay::start(),
    {
        Relay { phase: Phase::Accepting }
    }

    /// Takes in what happened.
    pub fn step(&mut self, event: Event) -> (effect: Effect)
        requires
            old(self).accepts(event),
        ensures
            *final(self) == old(self).after(event),
            effect == Relay::effect(event),
    {
        match event {
            Event::AcceptFailed => {
                self.phase = Phase::Accepting;
                Effect::Nothing
            },
            Event::BackendConnected => {
                self.phase = Phase::Dialing;
                Effect::Nothing
            },
            Event::BridgeUnreachable => {
                self.phase = Phase::Accepting;
                Effect::DropBackend
            },
            Event::BridgeConnected => {
                self.phase = Phase::Linked;
                Effect::Forward
            },
            Event::LinkEnded => {
                self.phase = Phase::Accepting;
                Effect::Nothing
            },
        }
    }
}

/// The relay after a list of events.
pub open spec fn after_events(relay: Relay, events: Seq<Event>) -> Relay
    decreases events.len(),
{
    if events.len() == 0 {
        relay
    } else {
        after_events(relay, events.drop_last()).after(events.last())
    }
}

/// Every event is one that the relay waits for when it comes.
pub open spec fn accepts_all(relay: Relay, events: Seq<Event>) -> bool
    decreases events.len(),
{
    events.len() > 0 ==> {
        &&& accepts_all(relay, events.drop_last())
        &&& after_events(relay, events.drop_last()).accepts(events.last())
    }
}

/// How many of the events are this one.
pub open spec fn count(events: Seq<Event>, event: Event) -> nat {
    events.filter(|e: Event| e == event).len()
}

/// Counting one more event.
proof fn lemma_count(events: Seq<Event>, event: Event)
    requires
        events.len() > 0,
    ensures
        count(events, event) == count(events.drop_last(), event) + if events.last() == event {
            1nat
        } else {
            0nat
        },
{
    reveal(Seq::filter);
}

/// One, while this holds.
pub open spec fn one_while(holds: bool) -> nat {
    if holds {
        1
    } else {
        0
    }
}

/// Every backend that has connected is accounted for: it has been linked, or dropped, or its
/// connection to the bridge is being made.
pub proof fn law_backends_accounted_for(events: Seq<Event>)
    requires
        accepts_all(Relay::start(), events),
    ensures
        count(events, Event::BackendConnected) == count(events, Event::BridgeConnected) + count(
            events,
            Event::BridgeUnreachable,
        ) + one_while(after_events(Relay::start(), events).phase == Phase::Dialing),
    decreases events.len(),
{
    if events.len() > 0 {
        law_backends_accounted_for(events.drop_last());
        lemma_count(events, Event::BackendConnected);
        lemma_count(events, Event::BridgeConnected);
        lemma_count(events, Event::BridgeUnreachable);
    } else {
        reveal(Seq::filter);
    }
}

/// One link at a time: every link that was made has ended, but for one while the relay is
/// linked.
pub proof fn law_one_link(events: Seq<Event>)
    requires
        accepts_all(Relay::start(), events),
    ensures
        count(events, Event::BridgeConnected) == count(events, Event::LinkEnded) + one_while(
            after_events(Relay::start(), events).phase == Phase::Linked,
        ),
    decreases events.len(),
{
    if events.len() > 0 {
        law_one_link(events.drop_last());
        lemma_count(events, Event::BridgeConnected);
        lemma_count(events, Event::LinkEnded);
    } else {
        reveal(Seq::filter);
    }
}

/// While a link runs no backend is accepted and no bridge dialed: all that can come is its end,
/// and after it the relay waits for the next backend.
pub proof fn law_link_runs_to_its_end(relay: Relay, event: Event)
    requires
        relay.phase == Phase::Linked,
        relay.accepts(event),
    ensures
        event == Event::LinkEnded,
        relay.after(event) == Relay::start(),
{
}

/// What the relay waits for, and what comes of it: a backend that connects has the bridge dialed
/// for it; it is dropped where the bridge cannot be reached, and forwarded where it can; nothing
/// else is done with it. A failed accept is passed over.
pub proof fn law_steps(relay: Relay, event: Event)
    ensures
        Relay::start().phase == Phase::Accepting,
        relay.phase == Phase::Accepting ==> (relay.accepts(event) <==> event == Event::AcceptFailed
            || event == Event::BackendConnected),
        relay.phase == Phase::Dialing ==> (relay.accepts(event) <==> event
            == Event::BridgeUnreachable || event == Event::BridgeConnected),
        relay.phase == Phase::Linked ==> (relay.accepts(event) <==> event == Event::LinkEnded),
        relay.after(Event::AcceptFailed).phase == Phase::Accepting,
        relay.after(Event::BackendConnected).phase == Phase::Dialing,
        relay.after(Event::BridgeUnreachable).phase == Phase::Accepting,
        relay.after(Event::BridgeConnected).phase == Phase::Linked,
        relay.after(Event::LinkEnded).phase == Phase::Accepting,
        Relay::effect(event) == Effect::Forward <==> event == Event::BridgeConnected,
        Relay::effect(event) == Effect::DropBackend <==> event == Event::BridgeUnreachable,
{
}

} // verus!
