//! The machines of the backend.

use fl::backend::benchmark::{
    zero_payload, ChunkCursor, ReceiveEnd, ReceiveEvent, ReceivePhase, Receiving,
};
use fl::backend::bridge::{
    End, Inbound, InboundAction, InboundEvent, Outbound, OutboundAction, OutboundEvent,
};
use fl::backend::chat::{
    chat_input_address, echo_matches, echo_message, echo_reply, ChatInput, ChatPush, ChatSend,
    InputEvent, InputPhase, CHAT_SERVICE,
};
use fl::backend::config::{ble_config, PARKED_SECS};
use fl::backend::framing::encode_frame;
use fl::backend::invite::{InviteError, PairingInvite};
use fl::backend::session::{Action, Event, Mode, Outcome, Session};
use fl::backend::state_file::{encode_state, split_state};
use fl::backend::status::{await_status, status_changed, PeerStatus, StatusEvent, Wait};
use fl::backend::transfer::{Kind, Step, Transfer, TransferEnd};

const INVITE: PairingInvite = PairingInvite { qid: [1; 16], token: [2; 16] };

fn run(mut session: Session, events: &[Event]) -> Vec<Action> {
    let mut actions: Vec<Action> = vec![session.action()];
    for event in events {
        session.step(*event);
        actions.push(session.action());
    }
    actions
}

#[test]
fn fresh_pairing_then_requests() {
    let events = [
        Event::Dialed,
        Event::IdentityReady,
        Event::Launched,
        Event::Invite(Ok(INVITE)),
        Event::Opened,
        Event::Established,
        Event::Bundle,
        Event::Saved,
        Event::Echoed { matches: true },
        Event::BenchmarkOver,
    ];
    assert_eq!(
        run(Session::new(false, true, false), &events),
        [
            Action::Dial,
            Action::GenerateIdentity,
            Action::Launch,
            Action::ReadInvite,
            Action::StartPairing(INVITE),
            Action::AwaitConnected,
            Action::AwaitBundle,
            Action::SaveState,
            Action::RunEcho,
            Action::RunBenchmark,
            Action::End(Outcome::Done),
        ]
    );
}

#[test]
fn reconnecting_needs_no_token_and_saves_nothing() {
    let events = [
        Event::Dialed,
        Event::IdentityReady,
        Event::Launched,
        Event::Opened,
        Event::Established,
        Event::Inbound,
        Event::Routed,
        Event::InboundClosed,
    ];
    assert_eq!(
        run(Session::new(true, false, true), &events),
        [
            Action::Dial,
            Action::LoadState,
            Action::Launch,
            Action::Reconnect,
            Action::AwaitConnected,
            Action::AwaitInbound,
            Action::RouteInbound,
            Action::AwaitInbound,
            Action::End(Outcome::SessionGone),
        ]
    );
}

fn last(session: Session, events: &[Event]) -> Action {
    *run(session, events).last().unwrap()
}

#[test]
fn run_ends_at_each_failure() {
    let pair = Session::new(false, true, false);
    let up = [
        Event::Dialed,
        Event::IdentityReady,
        Event::Launched,
        Event::Invite(Ok(INVITE)),
        Event::Opened,
    ];
    let after = |more: &[Event]| last(pair, &[&up[..], more].concat());
    let end = |outcome: Outcome| Action::End(outcome);
    assert_eq!(last(pair, &[Event::DialFailed]), end(Outcome::CannotReach));
    assert_eq!(last(pair, &[Event::Dialed, Event::IdentityFailed]), end(Outcome::NoIdentity));
    assert_eq!(last(Session::new(false, false, false), &up[..3]), end(Outcome::NoToken));
    let bad = InviteError::Version { version: 2 };
    assert_eq!(
        last(pair, &[&up[..3], &[Event::Invite(Err(bad))]].concat()),
        end(Outcome::BadInvite(bad))
    );
    assert_eq!(after(&[Event::TimedOut]), end(Outcome::NotEstablished));
    assert_eq!(after(&[Event::StatusClosed]), end(Outcome::StatusGone));
    assert_eq!(
        after(&[Event::Established, Event::Bundle, Event::SaveFailed]),
        end(Outcome::CannotSave)
    );
    assert_eq!(
        after(&[Event::Established, Event::NoBundle, Event::EchoFailed]),
        end(Outcome::EchoFailed)
    );
    assert_eq!(
        after(&[Event::Established, Event::NoBundle, Event::Echoed { matches: false }]),
        end(Outcome::EchoMismatch)
    );
}

#[test]
fn missing_bundle_does_not_end_the_run() {
    let events = [
        Event::Dialed,
        Event::IdentityReady,
        Event::Launched,
        Event::Invite(Ok(INVITE)),
        Event::Opened,
        Event::Established,
        Event::NoBundle,
    ];
    assert_eq!(last(Session::new(false, true, true), &events), Action::AwaitInbound);
    assert_eq!(last(Session::new(false, true, false), &events), Action::RunEcho);
}

#[test]
fn reconnecting_ignores_a_token() {
    let events = [Event::Dialed, Event::IdentityReady, Event::Launched, Event::Opened, Event::TimedOut];
    assert_eq!(
        run(Session::new(true, true, false), &events),
        run(Session::new(true, false, false), &events)
    );
    assert_eq!(
        last(Session::new(true, false, false), &events),
        Action::End(Outcome::NotEstablished)
    );
}

#[test]
fn bundle_is_saved_exactly_once() {
    let events = [
        Event::Dialed,
        Event::IdentityReady,
        Event::Launched,
        Event::Invite(Ok(INVITE)),
        Event::Opened,
        Event::Established,
        Event::Bundle,
        Event::Saved,
        Event::Inbound,
        Event::Routed,
        Event::InboundClosed,
    ];
    let actions = run(Session::new(false, true, true), &events);
    assert_eq!(actions.iter().filter(|a| **a == Action::SaveState).count(), 1);
    assert_eq!(actions.iter().filter(|a| **a == Action::StartPairing(INVITE)).count(), 1);
    let late = run(Session::new(false, true, true), &[&events[..5], &[Event::TimedOut]].concat());
    assert!(!late.contains(&Action::SaveState));
}

#[test]
fn saved_state_is_loaded_by_the_next_run() {
    let file = encode_state(b"identity", b"bundle");
    let next = run(Session::new(true, false, false), &[Event::Dialed]);
    assert_eq!(next, [Action::Dial, Action::LoadState]);
    assert_eq!(split_state(&file), Ok((&b"identity"[..], &b"bundle"[..])));
}

#[test]
fn exit_statuses() {
    assert_eq!(Outcome::Done.exit_status(), Some(0));
    assert_eq!(Outcome::SessionGone.exit_status(), Some(0));
    assert_eq!(Outcome::NotEstablished.exit_status(), Some(1));
    assert_eq!(Outcome::EchoFailed.exit_status(), Some(1));
    assert_eq!(Outcome::EchoMismatch.exit_status(), None);
    assert_eq!(Outcome::CannotReach.exit_status(), None);
}

#[test]
fn mode_labels() {
    assert_eq!(Session::new(true, false, false).mode.label(), "IK reconnect");
    assert_eq!(Mode::Pair.label(), "XX pairing");
}

#[test]
fn timeouts() {
    let config = ble_config();
    assert_eq!(config.handshake_timeout_secs, 10);
    assert_eq!(config.session_record_retransmit_timeout_secs, 2);
    assert_eq!(config.session_keepalive_interval_secs, 0);
    assert_eq!(config.session_peer_timeout_secs, 0);
    assert_eq!(PARKED_SECS, 60 * 60 * 24 * 365 * 100);
}

#[test]
fn waiting_for_a_state() {
    let target = PeerStatus::Connected;
    assert_eq!(await_status(target, StatusEvent::Status(PeerStatus::Initiator)), Wait::Waiting);
    assert_eq!(await_status(target, StatusEvent::Status(PeerStatus::Other)), Wait::Waiting);
    assert_eq!(await_status(target, StatusEvent::Status(PeerStatus::Connected)), Wait::Reached);
    assert_eq!(await_status(target, StatusEvent::Closed), Wait::Closed);
    assert_eq!(await_status(target, StatusEvent::TimedOut), Wait::TimedOut);
}

#[test]
fn changes_of_state() {
    let event = status_changed(Some([0; 16]), PeerStatus::Initiator);
    assert_eq!((event.bt_connected, event.peer_known), (true, true));
    let event = status_changed(None, PeerStatus::Other);
    assert_eq!((event.bt_connected, event.peer_known), (false, false));
    assert!(status_changed(None, PeerStatus::Connected).bt_connected);
}

#[test]
fn record_goes_out_chunk_by_chunk() {
    let mut bridge = Outbound::new();
    assert_eq!(bridge.action(), OutboundAction::TakeRecord);
    bridge.step(OutboundEvent::Record { chunks: 2 });
    assert_eq!(bridge.action(), OutboundAction::WriteFrame { index: 0 });
    bridge.step(OutboundEvent::Written);
    assert_eq!(bridge.action(), OutboundAction::WriteFrame { index: 1 });
    bridge.step(OutboundEvent::Written);
    assert_eq!(bridge.action(), OutboundAction::TakeRecord);
    bridge.step(OutboundEvent::Record { chunks: 0 });
    assert_eq!(bridge.action(), OutboundAction::TakeRecord);
    assert_eq!((bridge.records, bridge.frames), (2, 2));
    bridge.step(OutboundEvent::Closed);
    assert_eq!(bridge.action(), OutboundAction::End(End::NoMoreRecords));
}

#[test]
fn records_make_one_stream() {
    let records: [Vec<&[u8]>; 3] = [vec![b"a", b"bc"], vec![], vec![b"", b"def"]];
    let mut bridge = Outbound::new();
    let mut stream: Vec<u8> = Vec::new();
    for record in &records {
        bridge.step(OutboundEvent::Record { chunks: record.len() });
        while let OutboundAction::WriteFrame { index } = bridge.action() {
            stream.extend(encode_frame(record[index]));
            bridge.step(OutboundEvent::Written);
        }
    }
    assert_eq!(stream, b"\0\0\0\x01a\0\0\0\x02bc\0\0\0\0\0\0\0\x03def");
    assert_eq!((bridge.records, bridge.frames), (3, 4));
}

#[test]
fn failed_write_ends_the_outbound_direction() {
    let mut bridge = Outbound::new();
    bridge.step(OutboundEvent::Record { chunks: 2 });
    bridge.step(OutboundEvent::WriteFailed);
    assert_eq!(bridge.action(), OutboundAction::End(End::WriteFailed));
}

#[test]
fn frames_come_in_and_are_counted() {
    let mut bridge = Inbound::new();
    bridge.step(Inbound::length_event(&[0, 0, 1, 0]));
    assert_eq!(bridge.action(), InboundAction::ReadChunk { len: 256 });
    bridge.step(InboundEvent::Chunk);
    bridge.step(InboundEvent::Malformed);
    assert_eq!(bridge.action(), InboundAction::ReadLength);
    bridge.step(InboundEvent::Length { len: 1 });
    bridge.step(InboundEvent::Chunk);
    bridge.step(InboundEvent::Decoded);
    assert_eq!(bridge.action(), InboundAction::JoinChunk);
    bridge.step(InboundEvent::Incomplete);
    bridge.step(InboundEvent::Length { len: 1 });
    bridge.step(InboundEvent::Chunk);
    bridge.step(InboundEvent::Decoded);
    bridge.step(InboundEvent::Complete);
    assert_eq!(bridge.action(), InboundAction::DeliverRecord);
    bridge.step(InboundEvent::Delivered);
    assert_eq!(
        (bridge.frames, bridge.decoded, bridge.errs, bridge.records),
        (3, 2, 1, 1)
    );
}

#[test]
fn stream_is_read_chunk_by_chunk() {
    let chunks: [&[u8]; 4] = [b"one", b"", b"bad", b"four"];
    let mut stream: Vec<u8> = Vec::new();
    for chunk in chunks {
        stream.extend(encode_frame(chunk));
    }
    stream.extend_from_slice(&[0, 0]);
    let mut bridge = Inbound::new();
    let mut at: usize = 0;
    let mut read: Vec<&[u8]> = Vec::new();
    let mut joined: Vec<&[u8]> = Vec::new();
    loop {
        let event = match bridge.action() {
            InboundAction::ReadLength => match stream.get(at..at + 4) {
                Some(bytes) => {
                    at += 4;
                    Inbound::length_event(&bytes.try_into().unwrap())
                }
                None => InboundEvent::ReadFailed,
            },
            InboundAction::ReadChunk { len } => {
                read.push(&stream[at..at + len as usize]);
                at += len as usize;
                InboundEvent::Chunk
            }
            InboundAction::DecodeChunk => {
                if read.last() == Some(&&b"bad"[..]) {
                    InboundEvent::Malformed
                } else {
                    InboundEvent::Decoded
                }
            }
            InboundAction::JoinChunk => {
                joined.push(read[read.len() - 1]);
                InboundEvent::Incomplete
            }
            InboundAction::DeliverRecord => InboundEvent::Delivered,
            InboundAction::End(end) => {
                assert_eq!(end, End::PeerClosed);
                break;
            }
        };
        bridge.step(event);
    }
    assert_eq!(read, chunks);
    assert_eq!(joined, [&b"one"[..], b"", b"four"]);
    assert_eq!((bridge.frames, bridge.decoded, bridge.errs), (4, 3, 1));
}

#[test]
fn inbound_direction_ends() {
    let mut bridge = Inbound::new();
    bridge.step(InboundEvent::ReadFailed);
    assert_eq!(bridge.action(), InboundAction::End(End::PeerClosed));
    let mut bridge = Inbound::new();
    bridge.step(InboundEvent::Length { len: 9 });
    bridge.step(InboundEvent::ReadFailed);
    assert_eq!(bridge.action(), InboundAction::End(End::Truncated));
    let mut bridge = Inbound::new();
    bridge.step(InboundEvent::Length { len: 9 });
    bridge.step(InboundEvent::Chunk);
    bridge.step(InboundEvent::Decoded);
    bridge.step(InboundEvent::Complete);
    bridge.step(InboundEvent::NotDelivered);
    assert_eq!(bridge.action(), InboundAction::End(End::ReceiverGone));
}

#[test]
fn payload_is_cut_into_chunks() {
    let payload: Vec<u8> = (0..10000usize).map(|i| i as u8).collect();
    let mut cursor = ChunkCursor::new(payload.len());
    let mut sent: Vec<u8> = Vec::new();
    let mut sizes: Vec<usize> = Vec::new();
    while let Some(chunk) = cursor.next_chunk(&payload) {
        assert_eq!(cursor.offset(), sent.len());
        assert_eq!(chunk.len(), cursor.next_len());
        assert_eq!(cursor.next_zeros().unwrap().len(), chunk.len());
        sizes.push(chunk.len());
        sent.extend_from_slice(chunk);
        cursor.advance();
    }
    assert_eq!(sizes, [4096, 4096, 1808]);
    assert_eq!(sent, payload);
    assert_eq!(cursor.next_zeros(), None);
    assert_eq!(zero_payload(3), [0, 0, 0]);
}

#[test]
fn subscription_sends_all_and_closes() {
    let mut transfer = Transfer::new(Kind::Subscription, 5000);
    assert_eq!(transfer.step, Step::Body);
    transfer.advance(true);
    assert_eq!((transfer.step, transfer.cursor.remaining), (Step::Body, 904));
    transfer.advance(true);
    assert_eq!(transfer.step, Step::Finish);
    transfer.advance(true);
    assert_eq!(transfer.step, Step::Over(TransferEnd::Complete));
    assert_eq!(Transfer::new(Kind::Subscription, 0).step, Step::Finish);
}

#[test]
fn download_has_a_header_and_one_part() {
    let mut transfer = Transfer::new(Kind::Download, 1);
    let mut steps: Vec<Step> = vec![transfer.step];
    while !matches!(transfer.step, Step::Over(_)) {
        transfer.advance(true);
        steps.push(transfer.step);
    }
    assert_eq!(
        steps,
        [
            Step::Header,
            Step::StartPart,
            Step::Body,
            Step::FinishPart,
            Step::Finish,
            Step::Over(TransferEnd::Complete),
        ]
    );
}

#[test]
fn transfer_takes_a_step_for_each_chunk_and_those_around_them() {
    for (kind, total, expected) in [
        (Kind::Subscription, 0usize, 1usize),
        (Kind::Subscription, 4096, 2),
        (Kind::Subscription, 4097, 3),
        (Kind::Download, 0, 4),
        (Kind::Download, 8192, 6),
        (Kind::Download, 8193, 7),
    ] {
        let mut transfer = Transfer::new(kind, total);
        let mut steps: usize = 0;
        while !matches!(transfer.step, Step::Over(_)) {
            transfer.advance(true);
            steps += 1;
        }
        assert_eq!(transfer.step, Step::Over(TransferEnd::Complete));
        assert_eq!(steps, expected);
    }
}

#[test]
fn transfer_ends_at_the_first_failure() {
    let ends = [
        TransferEnd::HeaderFailed,
        TransferEnd::StartPartFailed,
        TransferEnd::BodyFailed { sent: 0 },
        TransferEnd::BodyFailed { sent: 4096 },
        TransferEnd::FinishPartFailed,
        TransferEnd::FinishFailed,
    ];
    for (good, end) in ends.iter().enumerate() {
        let mut transfer = Transfer::new(Kind::Download, 5000);
        for _ in 0..good {
            transfer.advance(true);
        }
        transfer.advance(false);
        assert_eq!(transfer.step, Step::Over(*end));
    }
}

#[test]
fn received_bytes_are_counted() {
    let mut receiving = Receiving::new();
    receiving.step(ReceiveEvent::Subscribed);
    receiving.step(ReceiveEvent::Chunk { len: 4096 });
    receiving.step(ReceiveEvent::Chunk { len: 4 });
    receiving.step(ReceiveEvent::StreamEnd);
    assert_eq!(receiving.phase, ReceivePhase::Over(ReceiveEnd::Complete));
    assert_eq!(receiving.received, 4100);
}

#[test]
fn receiving_may_fail() {
    let mut receiving = Receiving::new();
    receiving.step(ReceiveEvent::SubscribeFailed);
    assert_eq!(receiving.phase, ReceivePhase::Over(ReceiveEnd::SubscribeFailed));
    let mut receiving = Receiving::new();
    receiving.step(ReceiveEvent::Subscribed);
    receiving.step(ReceiveEvent::Chunk { len: 9 });
    receiving.step(ReceiveEvent::StreamError);
    assert_eq!(receiving.phase, ReceivePhase::Over(ReceiveEnd::StreamError));
    assert_eq!(receiving.received, 9);
}

#[test]
fn echo_repeats_the_message() {
    let message = echo_message().to_string();
    assert_eq!(message, "hello from the backend over QL v2");
    assert!(echo_matches(&message, &echo_reply(&message)));
    assert!(!echo_matches(&message, "hello"));
}

#[test]
fn chat_routes() {
    assert_eq!(&CHAT_SERVICE[..5], b"chat\0");
    assert_eq!((ChatSend.route(), ChatPush.route()), (100, 101));
    assert_eq!(ChatSend.acknowledge(&"hi".to_string()), "hi");
    assert_eq!(ChatPush.message_for("hi".to_string()), Some("hi".to_string()));
    assert_eq!(ChatPush.message_for(String::new()), None);
}

#[test]
fn chat_input_listens_on() {
    assert_eq!(chat_input_address(), "127.0.0.1:9999");
    let mut input = ChatInput::new();
    assert!(!input.step(InputEvent::Bound));
    assert!(!input.step(InputEvent::AcceptFailed));
    assert!(input.step(InputEvent::Accepted));
    assert_eq!(input.phase, InputPhase::Accepting);
    let mut input = ChatInput::new();
    assert!(!input.step(InputEvent::BindFailed));
    assert_eq!(input.phase, InputPhase::Closed);
}
