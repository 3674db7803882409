//! One run of the backend, from dialing to its end.
//!
//! The machine decides what comes next; dialing, files, the handshake and the requests are
//! done around it. Where there is a state file the backend reconnects to the peer it knows,
//! with no token; where there is none it pairs with the token's device and keeps the peer's
//! bundle for the next run. Then it either serves the device's requests or makes two of its
//! own: an echo, then a benchmark.

use crate::backend::invite::{InviteError, PairingInvite};
use crate::backend::state_file;
use vstd::prelude::*;

verus! {

/// How the session is opened.
#[derive(Clone, Copy, Debug, PartialEq, Eq, Structural)]
pub enum Mode {
    /// The IK handshake, with a peer that is known.
    Reconnect,
    /// The XX handshake, with a peer to get to know.
    Pair,
}

impl Mode {
    /// The name of what is done.
    pub fn label(self) -> (label: &'static str)
        ensures
            self == Mode::Reconnect ==> label@ == "IK reconnect"@,
            self == Mode::Pair ==> label@ == "XX pairing"@,
    {
        match self {
            Mode::Reconnect => "IK reconnect",
            Mode::Pair => "XX pairing",
        }
    }
}

/// How a run ends.
#[derive(Clone, Copy, Debug, PartialEq, Eq)]
pub enum Outcome {
    /// The peer's address cannot be reached.
    CannotReach,
    /// The identity cannot be loaded or made.
    NoIdentity,
    /// Pairing needs a token.
    NoToken,
    /// The token is no invite.
    BadInvite(InviteError),
    /// The session did not come up in time.
    NotEstablished,
    /// The changes of state ended before the session came up.
    StatusGone,
    /// The state file cannot be written.
    CannotSave,
    /// The echo request failed.
    EchoFailed,
    /// The device's echo is another message.
    EchoMismatch,
    /// Both requests have been made.
    Done,
    /// The session ended while serving.
    SessionGone,
}

impl Outcome {
    /// The exit status of a run that ends in order. The other outcomes are faults that the
    /// program stops at.
    pub fn exit_status(self) -> (status: Option<u8>)
        ensures
            status == (match self {
                Outcome::Done => Some(0u8),
                Outcome::SessionGone => Some(0u8),
                Outcome::NotEstablished => Some(1u8),
                Outcome::EchoFailed => Some(1u8),
                _ => None,
            }),
    {
        match self {
            Outcome::Done => Some(0),
            Outcome::SessionGone => Some(0),
            Outcome::NotEstablished => Some(1),
            Outcome::EchoFailed => Some(1),
            _ => None,
        }
    }
}

/// Where a run stands.
#[derive(Clone, Copy, Debug, PartialEq, Eq)]
pub enum Phase {
    /// Dialing the peer.
    Dialing,
    /// Loading or making the identity.
    Preparing,
    /// Starting the runtime and the transport.
    Launching,
    /// Reading the token.
    ReadingInvite,
    /// Starting the handshake with the peer that is known.
    Reconnecting,
    /// Starting the handshake with the invite's device.
    Pairing(PairingInvite),
    /// Waiting for the session to come up.
    Handshaking,
    /// Waiting for the bundle of the peer just paired with.
    AwaitingBundle,
    /// Writing the state file.
    Saving,
    /// Waiting for a request of the device.
    Serving,
    /// Handing a request of the device to its handler.
    Routing,
    /// Asking the device for an echo.
    Echoing,
    /// Asking the device for benchmark bytes.
    Benchmarking,
    Over(Outcome),
}

/// What happened.
#[derive(Clone, Copy, Debug, PartialEq, Eq)]
pub enum Event {
    Dialed,
    DialFailed,
    IdentityReady,
    IdentityFailed,
    Launched,
    Invite(Result<PairingInvite, InviteError>),
    /// The handshake has been started.
    Opened,
    /// The session is up.
    Established,
    /// The session is not up and the time is over.
    TimedOut,
    /// No more changes of state will come.
    StatusClosed,
    /// The peer's bundle has arrived.
    Bundle,
    /// The peer's bundle has not arrived.
    NoBundle,
    Saved,
    SaveFailed,
    /// The device has opened a stream.
    Inbound,
    /// The device's stream has been given to a handler, or dropped for want of one.
    Routed,
    /// No more streams will come.
    InboundClosed,
    /// The device has answered the echo request.
    Echoed { matches: bool },
    EchoFailed,
    /// The benchmark is over, complete or not.
    BenchmarkOver,
}

/// What to do next.
#[derive(Clone, Copy, Debug, PartialEq, Eq)]
pub enum Action {
    Dial,
    /// Load the identity and the peer's bundle from the state file.
    LoadState,
    /// Make a fresh identity.
    GenerateIdentity,
    Launch,
    ReadInvite,
    /// Bind the peer that is known and connect to it.
    Reconnect,
    /// Start pairing with this invite.
    StartPairing(PairingInvite),
    AwaitConnected,
    AwaitBundle,
    SaveState,
    AwaitInbound,
    RouteInbound,
    RunEcho,
    RunBenchmark,
    End(Outcome),
}

/// One run of the backend.
#[derive(Clone, Copy, Debug, PartialEq, Eq)]
pub struct Session {
    pub mode: Mode,
    /// A token was given.
    pub has_token: bool,
    /// Serve the device's requests.
    pub serve: bool,
    pub phase: Phase,
}

impl Session {
    /// A run at its start.
    pub open spec fn start(state_exists: bool, has_token: bool, serve: bool) -> Session {
        Session {
            mode: if state_exists {
                Mode::Reconnect
            } else {
                Mode::Pair
            },
            has_token,
            serve,
            phase: Phase::Dialing,
        }
    }

    /// The event is one that the phase waits for.
    pub open spec fn accepts(self, event: Event) -> bool {
        match self.phase {
            Phase::Dialing => event is Dialed || event is DialFailed,
            Phase::Preparing => event is IdentityReady || event is IdentityFailed,
            Phase::Launching => event is Launched,
            Phase::ReadingInvite => event is Invite,
            Phase::Reconnecting => event is Opened,
            Phase::Pairing(_) => event is Opened,
            Phase::Handshaking => event is Established || event is TimedOut || event
                is StatusClosed,
            Phase::AwaitingBundle => event is Bundle || event is NoBundle,
            Phase::Saving => event is Saved || event is SaveFailed,
            Phase::Serving => event is Inbound || event is InboundClosed,
            Phase::Routing => event is Routed,
            Phase::Echoing => event is Echoed || event is EchoFailed,
            Phase::Benchmarking => event is BenchmarkOver,
            Phase::Over(_) => false,
        }
    }

    /// What is done with a session that is up.
    pub open spec fn work(self) -> Phase {
        if self.serve {
            Phase::Serving
        } else {
            Phase::Echoing
        }
    }

    /// The phase after an event.
    pub open spec fn phase_after(self, event: Event) -> Phase {
        match event {
            Event::Dialed => Phase::Preparing,
            Event::DialFailed => Phase::Over(Outcome::CannotReach),
            Event::IdentityReady => Phase::Launching,
            Event::IdentityFailed => Phase::Over(Outcome::NoIdentity),
            Event::Launched => if self.mode == Mode::Reconnect {
                Phase::Reconnecting
            } else if self.has_token {
                Phase::ReadingInvite
            } else {
                Phase::Over(Outcome::NoToken)
            },
            Event::Invite(Ok(invite)) => Phase::Pairing(invite),
            Event::Invite(Err(e)) => Phase::Over(Outcome::BadInvite(e)),
            Event::Opened => Phase::Handshaking,
            Event::Established => if self.mode == Mode::Pair {
                Phase::AwaitingBundle
            } else {
                self.work()
            },
            Event::TimedOut => Phase::Over(Outcome::NotEstablished),
            Event::StatusClosed => Phase::Over(Outcome::StatusGone),
            Event::Bundle => Phase::Saving,
            Event::NoBundle => self.work(),
            Event::Saved => self.work(),
            Event::SaveFailed => Phase::Over(Outcome::CannotSave),
            Event::Inbound => Phase::Routing,
            Event::Routed => Phase::Serving,
            Event::InboundClosed => Phase::Over(Outcome::SessionGone),
            Event::Echoed { matches } => if matches {
                Phase::Benchmarking
            } else {
                Phase::Over(Outcome::EchoMismatch)
            },
            Event::EchoFailed => Phase::Over(Outcome::EchoFailed),
            Event::BenchmarkOver => Phase::Over(Outcome::Done),
        }
    }

    /// The run after an event.
    pub open spec fn after(self, event: Event) -> Session {
        Session { phase: self.phase_after(event), ..self }
    }

    /// What the phase asks for.
    pub open spec fn wanted(self) -> Action {
        match self.phase {
            Phase::Dialing => Action::Dial,
            Phase::Preparing => if self.mode == Mode::Reconnect {
                Action::LoadState
            } else {
                Action::GenerateIdentity
            },
            Phase::Launching => Action::Launch,
            Phase::ReadingInvite => Action::ReadInvite,
            Phase::Reconnecting => Action::Reconnect,
            Phase::Pairing(invite) => Action::StartPairing(invite),
            Phase::Handshaking => Action::AwaitConnected,
            Phase::AwaitingBundle => Action::AwaitBundle,
            Phase::Saving => Action::SaveState,
            Phase::Serving => Action::AwaitInbound,
            Phase::Routing => Action::RouteInbound,
            Phase::Echoing => Action::RunEcho,
            Phase::Benchmarking => Action::RunBenchmark,
            Phase::Over(outcome) => Action::End(outcome),
        }
    }

    /// A run at its start: the presence of the state file selects the mode.
    pub fn new(state_exists: bool, has_token: bool, serve: bool) -> (session: Session)
        ensures
            session == Session::start(state_exists, has_token, serve),
    {
        let mode = if state_exists {
            Mode::Reconnect
        } else {
            Mode::Pair
        };
        Session { mode, has_token, serve, phase: Phase::Dialing }
    }

    /// What to do next.
    pub fn action(&self) -> (action: Action)
        ensures
            action == self.wanted(),
    {
        match self.phase {
            Phase::Dialing => Action::Dial,
            Phase::Preparing => match self.mode {
                Mode::Reconnect => Action::LoadState,
                Mode::Pair => Action::GenerateIdentity,
            },
            Phase::Launching => Action::Launch,
            Phase::ReadingInvite => Action::ReadInvite,
            Phase::Reconnecting => Action::Reconnect,
            Phase::Pairing(invite) => Action::StartPairing(invite),
            Phase::Handshaking => Action::AwaitConnected,
            Phase::AwaitingBundle => Action::AwaitBundle,
            Phase::Saving => Action::SaveState,
            Phase::Serving => Action::AwaitInbound,
            Phase::Routing => Action::RouteInbound,
            Phase::Echoing => Action::RunEcho,
            Phase::Benchmarking => Action::RunBenchmark,
            Phase::Over(outcome) => Action::End(outcome),
        }
    }

    /// What is done with a session that is up.
    fn start_work(&self) -> (phase: Phase)
        ensures
            phase == self.work(),
    {
        if self.serve {
            Phase::Serving
        } else {
            Phase::Echoing
        }
    }

    /// Takes in what happened.
    pub fn step(&mut self, event: Event)
        requires
            old(self).accepts(event),
        ensures
            *final(self) == old(self).after(event),
    {
        let next = match event {
            Event::Dialed => Phase::Preparing,
            Event::DialFailed => Phase::Over(Outcome::CannotReach),
            Event::IdentityReady => Phase::Launching,
            Event::IdentityFailed => Phase::Over(Outcome::NoIdentity),
            Event::Launched => match self.mode {
                Mode::Reconnect => Phase::Reconnecting,
                Mode::Pair => if self.has_token {
                    Phase::ReadingInvite
                } else {
                    Phase::Over(Outcome::NoToken)
                },
            },
            Event::Invite(Ok(invite)) => Phase::Pairing(invite),
            Event::Invite(Err(e)) => Phase::Over(Outcome::BadInvite(e)),
            Event::Opened => Phase::Handshaking,
            Event::Established => match self.mode {
                Mode::Pair => Phase::AwaitingBundle,
                Mode::Reconnect => self.start_work(),
            },
            Event::TimedOut => Phase::Over(Outcome::NotEstablished),
            Event::StatusClosed => Phase::Over(Outcome::StatusGone),
            Event::Bundle => Phase::Saving,
            Event::NoBundle => self.start_work(),
            Event::Saved => self.start_work(),
            Event::SaveFailed => Phase::Over(Outcome::CannotSave),
            Event::Inbound => Phase::Routing,
            Event::Routed => Phase::Serving,
            Event::InboundClosed => Phase::Over(Outcome::SessionGone),
            Event::Echoed { matches } => if matches {
                Phase::Benchmarking
            } else {
                Phase::Over(Outcome::EchoMismatch)
            },
            Event::EchoFailed => Phase::Over(Outcome::EchoFailed),
            Event::BenchmarkOver => Phase::Over(Outcome::Done),
        };
        self.phase = next;
    }
}

/// A run after a list of events.
pub open spec fn after_events(session: Session, events: Seq<Event>) -> Session
    decreases events.len(),
{
    if events.len() == 0 {
        session
    } else {
        after_events(session, events.drop_last()).after(events.last())
    }
}

/// Every event is one that the run waits for when it comes.
pub open spec fn accepts_all(session: Session, events: Seq<Event>) -> bool
    decreases events.len(),
{
    events.len() > 0 ==> {
        &&& accepts_all(session, events.drop_last())
        &&& after_events(session, events.drop_last()).accepts(events.last())
    }
}

/// What a phase tells of the run that led to it.
spec fn explained(session: Session, events: Seq<Event>) -> bool {
    let up = events.contains(Event::Established);
    &&& match session.phase {
        Phase::ReadingInvite => session.mode == Mode::Pair && session.has_token && !up,
        Phase::Pairing(invite) => {
            &&& session.mode == Mode::Pair
            &&& session.has_token
            &&& events.contains(Event::Invite(Ok(invite)))
            &&& !up
        },
        Phase::Reconnecting => session.mode == Mode::Reconnect && !up,
        Phase::Handshaking => {
            &&& session.mode == Mode::Pair ==> session.has_token
            &&& !up
        },
        Phase::AwaitingBundle => session.mode == Mode::Pair && session.has_token && up,
        Phase::Saving => {
            &&& session.mode == Mode::Pair
            &&& session.has_token
            &&& up
            &&& events.contains(Event::Bundle)
        },
        Phase::Serving => session.serve && up,
        Phase::Routing => session.serve && up,
        Phase::Echoing => !session.serve && up,
        Phase::Benchmarking => {
            &&& !session.serve
            &&& up
            &&& events.contains(Event::Echoed { matches: true })
        },
        Phase::Over(Outcome::Done) => {
            &&& !session.serve
            &&& up
            &&& events.contains(Event::Echoed { matches: true })
            &&& events.contains(Event::BenchmarkOver)
        },
        Phase::Over(Outcome::NoToken) => session.mode == Mode::Pair && !session.has_token,
        Phase::Over(Outcome::BadInvite(_)) => session.mode == Mode::Pair && session.has_token,
        Phase::Over(Outcome::CannotSave) => session.mode == Mode::Pair && up,
        Phase::Over(Outcome::SessionGone) => session.serve && up,
        Phase::Over(Outcome::EchoFailed) => !session.serve && up,
        Phase::Over(Outcome::EchoMismatch) => !session.serve && up,
        Phase::Over(_) => !up,
        _ => !up,
    }
}

/// One more event keeps those before it.
proof fn lemma_contains_more(events: Seq<Event>, e: Event)
    requires
        events.len() > 0,
    ensures
        events.contains(e) <==> events.drop_last().contains(e) || events.last() == e,
{
    let before = events.drop_last();
    if before.contains(e) {
        let i = choose|i: int| 0 <= i < before.len() && before[i] == e;
        assert(events[i] == e);
    }
    if events.last() == e {
        assert(events[events.len() - 1] == e);
    }
    if events.contains(e) && events.last() != e {
        let i = choose|i: int| 0 <= i < events.len() && events[i] == e;
        assert(before[i] == e);
    }
}

/// Every phase is explained by the run that led to it, and the mode, the token and the kind
/// of work never change.
proof fn lemma_explained(start: Session, events: Seq<Event>)
    requires
        start.phase == Phase::Dialing,
        accepts_all(start, events),
    ensures
        explained(after_events(start, events), events),
        after_events(start, events).mode == start.mode,
        after_events(start, events).has_token == start.has_token,
        after_events(start, events).serve == start.serve,
    decreases events.len(),
{
    if events.len() > 0 {
        let before = events.drop_last();
        lemma_explained(start, before);
        lemma_contains_more(events, Event::Established);
        lemma_contains_more(events, Event::Bundle);
        lemma_contains_more(events, Event::Echoed { matches: true });
        lemma_contains_more(events, Event::BenchmarkOver);
        if let Event::Invite(Ok(invite)) = events.last() {
            lemma_contains_more(events, Event::Invite(Ok(invite)));
        }
    }
}

/// The state file selects the mode: with one the run loads it and reconnects, and reads no
/// token; without one it makes an identity and pairs, for which it needs a token.
pub proof fn law_mode_by_state_file(
    state_exists: bool,
    has_token: bool,
    serve: bool,
    events: Seq<Event>,
)
    requires
        accepts_all(Session::start(state_exists, has_token, serve), events),
    ensures
        ({
            let now = after_events(Session::start(state_exists, has_token, serve), events);
            &&& now.wanted() == Action::LoadState ==> state_exists
            &&& now.wanted() == Action::Reconnect ==> state_exists
            &&& now.wanted() == Action::GenerateIdentity ==> !state_exists
            &&& now.wanted() == Action::ReadInvite ==> !state_exists && has_token
            &&& now.wanted() is StartPairing ==> !state_exists && has_token && events.contains(
                Event::Invite(Ok(now.wanted()->StartPairing_0)),
            )
            &&& now.phase == Phase::Over(Outcome::NoToken) ==> !state_exists && !has_token
            &&& now.phase == Phase::Handshaking && !state_exists ==> has_token
        }),
{
    lemma_explained(Session::start(state_exists, has_token, serve), events);
}

/// A run that reconnects goes on as it would whether or not a token was given.
pub proof fn law_reconnect_needs_no_token(serve: bool, events: Seq<Event>)
    ensures
        after_events(Session::start(true, true, serve), events).phase == after_events(
            Session::start(true, false, serve),
            events,
        ).phase,
        after_events(Session::start(true, true, serve), events).wanted() == after_events(
            Session::start(true, false, serve),
            events,
        ).wanted(),
        accepts_all(Session::start(true, true, serve), events) <==> accepts_all(
            Session::start(true, false, serve),
            events,
        ),
    decreases events.len(),
{
    if events.len() > 0 {
        law_reconnect_needs_no_token(serve, events.drop_last());
    }
    lemma_settings_stay(Session::start(true, true, serve), events);
    lemma_settings_stay(Session::start(true, false, serve), events);
    if events.len() > 0 {
        lemma_settings_stay(Session::start(true, true, serve), events.drop_last());
        lemma_settings_stay(Session::start(true, false, serve), events.drop_last());
    }
}

/// No event changes the mode, the token or the kind of work.
proof fn lemma_settings_stay(start: Session, events: Seq<Event>)
    ensures
        after_events(start, events).mode == start.mode,
        after_events(start, events).has_token == start.has_token,
        after_events(start, events).serve == start.serve,
    decreases events.len(),
{
    if events.len() > 0 {
        lemma_settings_stay(start, events.drop_last());
    }
}

/// How far a run has come that makes requests.
spec fn progress(phase: Phase) -> nat {
    match phase {
        Phase::Dialing => 0,
        Phase::Preparing => 1,
        Phase::Launching => 2,
        Phase::ReadingInvite => 3,
        Phase::Pairing(_) => 4,
        Phase::Reconnecting => 4,
        Phase::Handshaking => 5,
        Phase::AwaitingBundle => 6,
        Phase::Saving => 7,
        Phase::Serving => 8,
        Phase::Routing => 8,
        Phase::Echoing => 8,
        Phase::Benchmarking => 9,
        Phase::Over(_) => 10,
    }
}

/// A run that makes requests comes to an end: it waits for at most ten events.
pub proof fn law_requests_end(state_exists: bool, has_token: bool, events: Seq<Event>)
    requires
        accepts_all(Session::start(state_exists, has_token, false), events),
    ensures
        events.len() <= 10,
        events.len() == 10 ==> after_events(
            Session::start(state_exists, has_token, false),
            events,
        ).phase is Over,
{
    lemma_progress(Session::start(state_exists, has_token, false), events);
}

/// Each event takes such a run further.
proof fn lemma_progress(start: Session, events: Seq<Event>)
    requires
        start.phase == Phase::Dialing,
        !start.serve,
        accepts_all(start, events),
    ensures
        events.len() <= progress(after_events(start, events).phase),
        !(after_events(start, events).phase is Routing),
    decreases events.len(),
{
    if events.len() > 0 {
        lemma_progress(start, events.drop_last());
        lemma_explained(start, events.drop_last());
        lemma_explained(start, events);
    }
}

/// The state file is written only after a fresh pairing: the run started without one, the
/// session came up, and the peer's bundle has arrived.
pub proof fn law_saved_after_pairing(
    state_exists: bool,
    has_token: bool,
    serve: bool,
    events: Seq<Event>,
)
    requires
        accepts_all(Session::start(state_exists, has_token, serve), events),
        after_events(Session::start(state_exists, has_token, serve), events).wanted()
            == Action::SaveState,
    ensures
        !state_exists,
        events.contains(Event::Established),
        events.contains(Event::Bundle),
{
    lemma_explained(Session::start(state_exists, has_token, serve), events);
}

/// No request is served or made before the session is up; a run serves or makes requests,
/// never both; and the benchmark follows an echo that came back unchanged.
pub proof fn law_work_on_session(
    state_exists: bool,
    has_token: bool,
    serve: bool,
    events: Seq<Event>,
)
    requires
        accepts_all(Session::start(state_exists, has_token, serve), events),
    ensures
        ({
            let now = after_events(Session::start(state_exists, has_token, serve), events);
            let action = now.wanted();
            &&& action == Action::AwaitInbound || action == Action::RouteInbound ==> serve
                && events.contains(Event::Established)
            &&& action == Action::RunEcho || action == Action::RunBenchmark ==> !serve
                && events.contains(Event::Established)
            &&& action == Action::RunBenchmark ==> events.contains(Event::Echoed { matches: true })
            &&& now.phase == Phase::Over(Outcome::Done) ==> events.contains(
                Event::Echoed { matches: true },
            ) && events.contains(Event::BenchmarkOver)
        }),
{
    lemma_explained(Session::start(state_exists, has_token, serve), events);
}

/// How often a run has asked for its state to be saved.
pub open spec fn saves_asked(start: Session, events: Seq<Event>) -> nat
    decreases events.len(),
{
    let now: nat = if after_events(start, events).wanted() == Action::SaveState {
        1
    } else {
        0
    };
    if events.len() == 0 {
        now
    } else {
        saves_asked(start, events.drop_last()) + now
    }
}

/// How often a run has asked for pairing to be started.
pub open spec fn pairings_asked(start: Session, events: Seq<Event>) -> nat
    decreases events.len(),
{
    let now: nat = if after_events(start, events).wanted() is StartPairing {
        1
    } else {
        0
    };
    if events.len() == 0 {
        now
    } else {
        pairings_asked(start, events.drop_last()) + now
    }
}

/// The events hold an invite that could be read.
pub open spec fn has_invite(events: Seq<Event>) -> bool {
    exists|i: int| 0 <= i < events.len() && is_invite(#[trigger] events[i])
}

/// An invite that could be read.
pub open spec fn is_invite(event: Event) -> bool {
    event matches Event::Invite(Ok(_))
}

/// One more event, and whether there is an invite among them.
proof fn lemma_has_invite_more(events: Seq<Event>)
    requires
        events.len() > 0,
    ensures
        has_invite(events) <==> has_invite(events.drop_last()) || is_invite(events.last()),
{
    let before = events.drop_last();
    if has_invite(before) {
        let i = choose|i: int| 0 <= i < before.len() && is_invite(#[trigger] before[i]);
        assert(is_invite(events[i]));
    }
    if is_invite(events.last()) {
        assert(is_invite(events[events.len() - 1]));
    }
    if has_invite(events) && !is_invite(events.last()) {
        let i = choose|i: int| 0 <= i < events.len() && is_invite(#[trigger] events[i]);
        assert(is_invite(before[i]));
    }
}

/// What has been asked for up to each phase.
proof fn lemma_asked(start: Session, events: Seq<Event>)
    requires
        start.phase == Phase::Dialing,
        accepts_all(start, events),
    ensures
        ({
            let now = after_events(start, events).phase;
            let bundle = events.contains(Event::Bundle);
            let saves = saves_asked(start, events);
            let pairings = pairings_asked(start, events);
            &&& saves == if bundle {
                1nat
            } else {
                0nat
            }
            &&& pairings == if has_invite(events) {
                1nat
            } else {
                0nat
            }
            &&& progress(now) < 7 ==> !bundle
            &&& progress(now) < 4 ==> !has_invite(events)
            &&& now == Phase::Reconnecting ==> !has_invite(events)
            &&& now == Phase::Saving ==> bundle
            &&& events.contains(Event::TimedOut) <==> now == Phase::Over(Outcome::NotEstablished)
            &&& now == Phase::Over(Outcome::NotEstablished) ==> !bundle
            &&& events.contains(Event::Saved) || events.contains(Event::SaveFailed) ==> bundle
        }),
    decreases events.len(),
{
    if events.len() > 0 {
        lemma_asked(start, events.drop_last());
        lemma_contains_more(events, Event::Bundle);
        lemma_contains_more(events, Event::TimedOut);
        lemma_contains_more(events, Event::Saved);
        lemma_contains_more(events, Event::SaveFailed);
        lemma_has_invite_more(events);
    }
}

/// A bundle comes only once the session is up.
proof fn lemma_bundle_after_established(start: Session, events: Seq<Event>, n: int)
    requires
        start.phase == Phase::Dialing,
        accepts_all(start, events),
        0 <= n < events.len(),
        events[n] == Event::Bundle,
    ensures
        events.take(n).contains(Event::Established),
    decreases events.len(),
{
    let before = events.drop_last();
    if n == events.len() - 1 {
        assert(events.take(n) =~= before);
        lemma_explained(start, before);
    } else {
        lemma_bundle_after_established(start, before, n);
        assert(before.take(n) =~= events.take(n));
    }
}

/// A fresh pairing is kept: in a run that pairs, pairing is started once for an invite that could
/// be read, with that invite; and its state is saved, once, exactly where the session came up and
/// the peer's bundle arrived after it. A run in which the session does not come up in time ends
/// as not established, and nothing was to be saved.
pub proof fn law_fresh_pairing_is_kept(serve: bool, events: Seq<Event>)
    requires
        accepts_all(Session::start(false, true, serve), events),
    ensures
        ({
            let start = Session::start(false, true, serve);
            let now = after_events(start, events);
            let bundle = events.contains(Event::Bundle);
            let saves = saves_asked(start, events);
            &&& pairings_asked(start, events) == if has_invite(events) {
                1nat
            } else {
                0nat
            }
            &&& now.wanted() is StartPairing ==> events.len() > 0 && events.last() == Event::Invite(
                Ok(now.wanted()->StartPairing_0),
            )
            &&& saves <= 1
            &&& (saves == 1 <==> events.contains(Event::Established) && bundle)
            &&& (saves == 1 <==> bundle)
            &&& (forall|n: int|
                0 <= n < events.len() && #[trigger] events[n] == Event::Bundle ==> events.take(
                    n,
                ).contains(Event::Established))
            &&& (events.contains(Event::TimedOut) <==> now.phase == Phase::Over(
                Outcome::NotEstablished,
            ))
            &&& events.contains(Event::TimedOut) ==> saves == 0
            &&& events.contains(Event::Saved) || events.contains(Event::SaveFailed) ==> saves == 1
        }),
{
    let start = Session::start(false, true, serve);
    lemma_asked(start, events);
    assert forall|n: int|
        0 <= n < events.len() && #[trigger] events[n] == Event::Bundle implies events.take(
        n,
    ).contains(Event::Established) by {
        lemma_bundle_after_established(start, events, n);
    }
    if events.contains(Event::Bundle) {
        let n = choose|n: int| 0 <= n < events.len() && events[n] == Event::Bundle;
        assert(events.take(n).contains(Event::Established));
        let i = choose|i: int| 0 <= i < n && events.take(n)[i] == Event::Established;
        assert(events[i] == Event::Established);
    }
}

/// The state file after a run in which every write succeeds: written where the run has saved, and
/// as it was elsewhere.
pub open spec fn file_after(
    before: Option<Seq<u8>>,
    events: Seq<Event>,
    identity: Seq<u8>,
    bundle: Seq<u8>,
) -> Option<Seq<u8>> {
    if events.contains(Event::Saved) {
        Some(state_file::state_bytes(identity, bundle))
    } else {
        before
    }
}

/// What a fresh pairing leaves for the next run: where it has saved, the next run reconnects, and
/// loads the identity and the bundle of this one; where it was never asked to save, there is no
/// state file and the next run pairs again.
pub proof fn law_next_run_reconnects(
    serve: bool,
    events: Seq<Event>,
    identity: Seq<u8>,
    bundle: Seq<u8>,
    next_has_token: bool,
    next_serve: bool,
)
    requires
        accepts_all(Session::start(false, true, serve), events),
        identity.len() <= u32::MAX,
    ensures
        ({
            let file = file_after(None, events, identity, bundle);
            let next = Session::start(file is Some, next_has_token, next_serve);
            &&& events.contains(Event::Saved) ==> {
                &&& next.mode == Mode::Reconnect
                &&& file is Some
                &&& state_file::state_parts(file->0) == Ok::<
                    (Seq<u8>, Seq<u8>),
                    state_file::StateError,
                >((identity, bundle))
            }
            &&& saves_asked(Session::start(false, true, serve), events) == 0 ==> {
                &&& file is None
                &&& next.mode == Mode::Pair
            }
        }),
{
    law_fresh_pairing_is_kept(serve, events);
    state_file::law_state_read_back(identity, bundle);
}

/// A run starts by dialing; the state file alone selects its mode, and what was asked for is kept.
pub proof fn law_run_starts(state_exists: bool, has_token: bool, serve: bool)
    ensures
        ({
            let start = Session::start(state_exists, has_token, serve);
            &&& start.wanted() == Action::Dial
            &&& state_exists ==> start.mode == Mode::Reconnect
            &&& !state_exists ==> start.mode == Mode::Pair
            &&& start.has_token == has_token
            &&& start.serve == serve
        }),
{
}

/// What a run waits for are the outcomes of what it asks for, and nothing once it is over.
pub proof fn law_run_accepts(run: Session, event: Event)
    ensures
        run.accepts(event) <==> match run.wanted() {
            Action::Dial => event == Event::Dialed || event == Event::DialFailed,
            Action::LoadState | Action::GenerateIdentity => event == Event::IdentityReady || event
                == Event::IdentityFailed,
            Action::Launch => event == Event::Launched,
            Action::ReadInvite => event is Invite,
            Action::Reconnect | Action::StartPairing(_) => event == Event::Opened,
            Action::AwaitConnected => event == Event::Established || event == Event::TimedOut
                || event == Event::StatusClosed,
            Action::AwaitBundle => event == Event::Bundle || event == Event::NoBundle,
            Action::SaveState => event == Event::Saved || event == Event::SaveFailed,
            Action::AwaitInbound => event == Event::Inbound || event == Event::InboundClosed,
            Action::RouteInbound => event == Event::Routed,
            Action::RunEcho => event is Echoed || event == Event::EchoFailed,
            Action::RunBenchmark => event == Event::BenchmarkOver,
            Action::End(_) => false,
        },
{
}

/// A run goes on from what succeeds: it dials, has its identity, starts the runtime, opens the
/// session in its mode and waits for it. No event changes its mode or what was asked for.
pub proof fn law_run_opens(run: Session, event: Event)
    requires
        run.accepts(event),
    ensures
        ({
            let next = run.after(event);
            &&& next.mode == run.mode && next.has_token == run.has_token && next.serve == run.serve
            &&& event == Event::Dialed ==> next.wanted() == (if run.mode == Mode::Reconnect {
                Action::LoadState
            } else {
                Action::GenerateIdentity
            })
            &&& event == Event::IdentityReady ==> next.wanted() == Action::Launch
            &&& event == Event::Launched && run.mode == Mode::Reconnect ==> next.wanted()
                == Action::Reconnect
            &&& event == Event::Launched && run.mode == Mode::Pair && run.has_token
                ==> next.wanted() == Action::ReadInvite
            &&& event matches Event::Invite(Ok(invite)) ==> next.wanted() == Action::StartPairing(
                invite,
            )
            &&& event == Event::Opened ==> next.wanted() == Action::AwaitConnected
        }),
{
}

/// Once the session is up, a run that reconnects goes to work at once; one that pairs waits for the
/// bundle, saves it where it comes, and goes to work whether or not it came. The work of a run
/// that serves is to wait for the device's requests; that of any other is the echo.
pub proof fn law_session_up_leads_to_work(run: Session, event: Event)
    requires
        run.accepts(event),
    ensures
        ({
            let next = run.after(event);
            let work = if run.serve {
                Action::AwaitInbound
            } else {
                Action::RunEcho
            };
            &&& event == Event::Established && run.mode == Mode::Reconnect ==> next.wanted() == work
            &&& event == Event::Established && run.mode == Mode::Pair ==> next.wanted()
                == Action::AwaitBundle
            &&& event == Event::Bundle ==> next.wanted() == Action::SaveState
            &&& event == Event::NoBundle ==> next.wanted() == work
            &&& event == Event::Saved ==> next.wanted() == work
            &&& event == Event::Inbound ==> next.wanted() == Action::RouteInbound
            &&& event == Event::Routed ==> next.wanted() == Action::AwaitInbound
            &&& event == (Event::Echoed { matches: true }) ==> next.wanted()
                == Action::RunBenchmark
            &&& event == Event::BenchmarkOver ==> next.wanted() == Action::End(Outcome::Done)
        }),
{
}

/// From every start: in an accepted run whose last event says that the session is up, and where it
/// pairs that the bundle is saved or will not come, the next thing asked for is the echo, or, in
/// a run that serves, the device's next request.
pub proof fn law_work_follows_session(
    state_exists: bool,
    has_token: bool,
    serve: bool,
    events: Seq<Event>,
)
    requires
        accepts_all(Session::start(state_exists, has_token, serve), events),
        events.len() > 0,
        (state_exists && events.last() == Event::Established) || events.last() == Event::Saved
            || events.last() == Event::NoBundle,
    ensures
        after_events(Session::start(state_exists, has_token, serve), events).wanted() == (
        if serve {
            Action::AwaitInbound
        } else {
            Action::RunEcho
        }),
{
    lemma_settings_stay(Session::start(state_exists, has_token, serve), events.drop_last());
}

/// A fault ends a run with its own outcome.
pub proof fn law_faults_end_run(run: Session, event: Event)
    requires
        run.accepts(event),
    ensures
        ({
            let next = run.after(event).wanted();
            &&& event == Event::DialFailed ==> next == Action::End(Outcome::CannotReach)
            &&& event == Event::IdentityFailed ==> next == Action::End(Outcome::NoIdentity)
            &&& event == Event::Launched && run.mode == Mode::Pair && !run.has_token ==> next
                == Action::End(Outcome::NoToken)
            &&& event matches Event::Invite(Err(e)) ==> next == Action::End(Outcome::BadInvite(e))
            &&& event == Event::TimedOut ==> next == Action::End(Outcome::NotEstablished)
            &&& event == Event::StatusClosed ==> next == Action::End(Outcome::StatusGone)
            &&& event == Event::SaveFailed ==> next == Action::End(Outcome::CannotSave)
            &&& event == Event::EchoFailed ==> next == Action::End(Outcome::EchoFailed)
            &&& event == (Event::Echoed { matches: false }) ==> next == Action::End(
                Outcome::EchoMismatch,
            )
            &&& event == Event::InboundClosed ==> next == Action::End(Outcome::SessionGone)
        }),
{
}

/// A run ends only for a reason: each outcome is that of the last event.
pub proof fn law_outcomes_have_reasons(
    state_exists: bool,
    has_token: bool,
    serve: bool,
    events: Seq<Event>,
)
    requires
        accepts_all(Session::start(state_exists, has_token, serve), events),
        after_events(Session::start(state_exists, has_token, serve), events).wanted() is End,
    ensures
        events.len() > 0,
        match after_events(Session::start(state_exists, has_token, serve), events).wanted()->End_0 {
            Outcome::CannotReach => events.last() == Event::DialFailed,
            Outcome::NoIdentity => events.last() == Event::IdentityFailed,
            Outcome::NoToken => events.last() == Event::Launched && !state_exists && !has_token,
            Outcome::BadInvite(e) => events.last() == Event::Invite(Err(e)),
            Outcome::NotEstablished => events.last() == Event::TimedOut,
            Outcome::StatusGone => events.last() == Event::StatusClosed,
            Outcome::CannotSave => events.last() == Event::SaveFailed,
            Outcome::EchoFailed => events.last() == Event::EchoFailed,
            Outcome::EchoMismatch => events.last() == (Event::Echoed { matches: false }),
            Outcome::Done => events.last() == Event::BenchmarkOver,
            Outcome::SessionGone => events.last() == Event::InboundClosed,
        },
{
    if events.len() > 0 {
        lemma_settings_stay(Session::start(state_exists, has_token, serve), events.drop_last());
    }
}

} // verus!
