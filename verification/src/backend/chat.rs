//! Echo and chat: the messages that are reflected, acknowledged and pushed, and where the
//! pushed ones come from.

use crate::text;
use vstd::prelude::*;

verus! {

/// The service that the chat routes belong to: `chat`, padded with zeros.
pub const CHAT_SERVICE: [u8; 16] = [0x63, 0x68, 0x61, 0x74, 0, 0, 0, 0, 0, 0, 0, 0, 0, 0, 0, 0];

/// Route of `ChatSend` within the chat service.
pub const CHAT_SEND_ROUTE: u32 = 100;

/// Route of `ChatPush` within the chat service.
pub const CHAT_PUSH_ROUTE: u32 = 101;

/// Where lines to push to the device are taken in.
pub fn chat_input_address() -> (address: &'static str)
    ensures
        address@ == "127.0.0.1:9999"@,
{
    "127.0.0.1:9999"
}

/// A chat message from the device, sent as a request.
pub struct ChatSend;

impl ChatSend {
    /// The route's number within the chat service.
    pub fn route(&self) -> (route: u32)
        ensures
            route == CHAT_SEND_ROUTE,
    {
        CHAT_SEND_ROUTE
    }

    /// The acknowledgement of a message: the message itself.
    pub fn acknowledge(&self, message: &String) -> (reply: String)
        ensures
            reply@ == message@,
    {
        message.clone()
    }
}

/// A chat message to the device, sent as a notification.
pub struct ChatPush;

impl ChatPush {
    /// The route's number within the chat service.
    pub fn route(&self) -> (route: u32)
        ensures
            route == CHAT_PUSH_ROUTE,
    {
        CHAT_PUSH_ROUTE
    }

    /// The message to push for an input line: none for an empty line.
    pub fn message_for(&self, line: String) -> (message: Option<String>)
        ensures
            match message {
                Some(text) => text@ == line@ && line@.len() > 0,
                None => line@.len() == 0,
            },
    {
        if line.as_str().is_empty() {
            None
        } else {
            Some(line)
        }
    }
}

/// Where the chat input stands.
#[derive(Clone, Copy, Debug, PartialEq, Eq, Structural)]
pub enum InputPhase {
    /// Taking the address to listen on.
    Binding,
    /// Waiting for a connection.
    Accepting,
    /// The address cannot be had.
    Closed,
}

/// What happened to the chat input.
#[derive(Clone, Copy, Debug, PartialEq, Eq, Structural)]
pub enum InputEvent {
    Bound,
    BindFailed,
    Accepted,
    AcceptFailed,
}

/// The chat input: the connections whose lines are pushed to the device.
#[derive(Clone, Copy, Debug, PartialEq, Eq, Structural)]
pub struct ChatInput {
    pub phase: InputPhase,
}

impl ChatInput {
    /// Nothing listened on yet.
    pub open spec fn start() -> ChatInput {
        ChatInput { phase: InputPhase::Binding }
    }

    /// The event is one that the phase waits for.
    pub open spec fn accepts(self, event: InputEvent) -> bool {
        match self.phase {
            InputPhase::Binding => event is Bound || event is BindFailed,
            InputPhase::Accepting => event is Accepted || event is AcceptFailed,
            InputPhase::Closed => false,
        }
    }

    /// The chat input after an event: once it listens it goes on listening.
    pub open spec fn after(self, event: InputEvent) -> ChatInput {
        ChatInput {
            phase: if event is BindFailed {
                InputPhase::Closed
            } else {
                InputPhase::Accepting
            },
        }
    }

    /// Nothing listened on yet.
    pub fn new() -> (input: ChatInput)
        ensures
            input == ChatInput::start(),
    {
        ChatInput { phase: InputPhase::Binding }
    }

    /// Takes in what happened. Tells whether there is a connection whose lines are to be
    /// pushed.
    pub fn step(&mut self, event: InputEvent) -> (serve: bool)
        requires
            old(self).accepts(event),
        ensures
            *final(self) == old(self).after(event),
            serve == (event is Accepted),
    {
        match event {
            InputEvent::Bound => {
                self.phase = InputPhase::Accepting;
                false
            },
            InputEvent::BindFailed => {
                self.phase = InputPhase::Closed;
                false
            },
            InputEvent::Accepted => {
                self.phase = InputPhase::Accepting;
                true
            },
            InputEvent::AcceptFailed => {
                self.phase = InputPhase::Accepting;
                false
            },
        }
    }
}

/// A chat input that listens never stops listening.
pub proof fn law_input_stays_open(input: ChatInput, event: InputEvent)
    requires
        input.phase == InputPhase::Accepting,
        input.accepts(event),
    ensures
        input.after(event).phase == InputPhase::Accepting,
{
}

/// The reply to an echo request: the same message.
pub fn echo_reply(message: &String) -> (reply: String)
    ensures
        reply@ == message@,
{
    message.clone()
}

/// The message that this side asks the device to echo.
pub fn echo_message() -> (message: &'static str)
    ensures
        message@ == "hello from the backend over QL v2"@,
{
    "hello from the backend over QL v2"
}

/// Does the device's reply repeat the message it was sent?
pub fn echo_matches(sent: &str, reply: &str) -> (same: bool)
    ensures
        same == (sent@ == reply@),
{
    text::same(sent, reply)
}

/// What the chat input waits for, and what comes of it: it takes its address once, and from then on
/// waits for connections, whether or not one could be accepted; without its address it is closed.
pub proof fn law_input_steps(input: ChatInput, event: InputEvent)
    ensures
        ChatInput::start().phase == InputPhase::Binding,
        input.phase == InputPhase::Binding ==> (input.accepts(event) <==> event
            == InputEvent::Bound || event == InputEvent::BindFailed),
        input.phase == InputPhase::Accepting ==> (input.accepts(event) <==> event
            == InputEvent::Accepted || event == InputEvent::AcceptFailed),
        input.phase == InputPhase::Closed ==> !input.accepts(event),
        input.after(InputEvent::Bound).phase == InputPhase::Accepting,
        input.after(InputEvent::Accepted).phase == InputPhase::Accepting,
        input.after(InputEvent::AcceptFailed).phase == InputPhase::Accepting,
        input.after(InputEvent::BindFailed).phase == InputPhase::Closed,
{
}

/// The chat service is named by the letters of `chat` and twelve zeros; its two routes are 100 and
/// 101.
pub proof fn law_chat_routes()
    ensures
        CHAT_SERVICE@.take(4) == seq![0x63u8, 0x68, 0x61, 0x74],
        forall|i: int| 4 <= i < 16 ==> #[trigger] CHAT_SERVICE@[i] == 0,
        CHAT_SEND_ROUTE == 100,
        CHAT_PUSH_ROUTE == 101,
{
    assert(CHAT_SERVICE@.take(4) =~= seq![0x63u8, 0x68, 0x61, 0x74]);
}

} // verus!
