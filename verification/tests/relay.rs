//! The relay's decisions.

use fl::relay::{backend_listen, device_bridge, Effect, Event, Phase, Relay};

#[test]
fn addresses() {
    assert_eq!(backend_listen(), "127.0.0.1:8766");
    assert_eq!(device_bridge(), "127.0.0.1:8765");
}

#[test]
fn backend_is_forwarded_once_the_bridge_is_reached() {
    let mut relay = Relay::new();
    assert_eq!(relay.step(Event::BackendConnected), Effect::Nothing);
    assert_eq!(relay.phase, Phase::Dialing);
    assert_eq!(relay.step(Event::BridgeConnected), Effect::Forward);
    assert_eq!(relay.phase, Phase::Linked);
}

#[test]
fn next_backend_is_accepted_once_the_link_has_ended() {
    let mut relay = Relay::new();
    relay.step(Event::BackendConnected);
    relay.step(Event::BridgeConnected);
    assert_ne!(relay.phase, Phase::Accepting);
    assert_eq!(relay.step(Event::LinkEnded), Effect::Nothing);
    assert_eq!(relay, Relay::new());
    assert_eq!(relay.step(Event::BackendConnected), Effect::Nothing);
    assert_eq!(relay.step(Event::BridgeConnected), Effect::Forward);
}

#[test]
fn backend_is_dropped_where_the_bridge_is_not_reached() {
    let mut relay = Relay::new();
    relay.step(Event::BackendConnected);
    assert_eq!(relay.step(Event::BridgeUnreachable), Effect::DropBackend);
    assert_eq!(relay.phase, Phase::Accepting);
}

#[test]
fn failed_accept_is_passed_over() {
    let mut relay = Relay::new();
    assert_eq!(relay.step(Event::AcceptFailed), Effect::Nothing);
    assert_eq!(relay, Relay::new());
}
