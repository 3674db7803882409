//! Following the device's log.

use fl::logs::{
    find_log_endpoint, line_for, Action, Args, DebugEndpoint, DebugInterface, LogFollower,
    READ_CHUNK,
};
use fl::usb::TransferType;

fn follower(filter: Option<&str>, limit: Option<usize>) -> LogFollower {
    LogFollower::new(Args { filter: filter.map(|f| f.to_string()), limit, timeout: None })
}

fn streaming(filter: Option<&str>, limit: Option<usize>) -> LogFollower {
    let mut f = follower(filter, limit);
    assert_eq!(f.next_action(false), Action::Connect);
    f.connected();
    assert_eq!(f.next_action(false), Action::Read);
    f
}

#[test]
fn records_become_lines() {
    let mut f = streaming(None, None);
    assert_eq!(f.received(b"\x01one\x1etwo\r\n\x1e"), ["one", "two"]);
}

#[test]
fn record_may_span_frames() {
    let mut f = streaming(None, None);
    assert!(f.received(b"\x01on").is_empty());
    assert_eq!(f.received(b"\x01e\x1etw"), ["one"]);
    assert_eq!(f.received(b"\x01o\x1e"), ["two"]);
}

#[test]
fn cutting_into_frames_does_not_matter() {
    let log = b"one\x1etwo\r\n\x1e\x1ethree\x1efour";
    for at in 0..log.len() {
        let mut f = streaming(None, None);
        let mut lines = f.received(&[&b"\x01"[..], &log[..at]].concat());
        lines.extend(f.received(&[&b"\x01"[..], &log[at..]].concat()));
        assert_eq!(lines, ["one", "two", "three"]);
    }
}

#[test]
fn log_spans_frames_reads_and_other_frames() {
    let mut f = streaming(None, None);
    let mut full: Vec<u8> = vec![b'a'; READ_CHUNK];
    full[0] = 0x01;
    full[5] = 0x1e;
    let mut other: Vec<u8> = vec![b'x'; READ_CHUNK];
    other[0] = 0x02;
    let mut lines: Vec<String> = Vec::new();
    for read in [&b"\x01be"[..], &other, b"\x1e", &full, b"z", b"\x03\x1e", b"", b"\x01!\x1e"] {
        lines.extend(f.received(read));
    }
    assert_eq!(lines.len(), 2);
    assert_eq!(lines[0], "beaaaa");
    assert_eq!(lines[1], format!("{}z!", "a".repeat(READ_CHUNK - 6)));
}

#[test]
fn frame_may_span_reads() {
    let mut f = streaming(None, None);
    let mut full: Vec<u8> = vec![b'a'; READ_CHUNK];
    full[0] = 0x01;
    assert!(f.received(&full).is_empty());
    let lines = f.received(b"b\x1e");
    assert_eq!(lines.len(), 1);
    assert_eq!(lines[0].len(), READ_CHUNK);
    assert!(lines[0].ends_with("ab"));
}

#[test]
fn empty_read_ends_a_frame() {
    let mut f = streaming(None, None);
    let mut full: Vec<u8> = vec![b'a'; READ_CHUNK];
    full[0] = 0x01;
    full[READ_CHUNK - 1] = 0x1e;
    assert!(f.received(&full).is_empty());
    assert_eq!(f.received(&[]).len(), 1);
    assert!(f.received(&[]).is_empty());
}

#[test]
fn other_frames_are_ignored() {
    let mut f = streaming(None, None);
    assert!(f.received(b"\x01on").is_empty());
    assert!(f.received(b"\x02xx\x1e").is_empty());
    assert_eq!(f.received(b"\x01e\x1e"), ["one"]);
}

#[test]
fn empty_lines_are_not_printed() {
    let mut f = streaming(None, None);
    assert_eq!(f.received(b"\x01\x1e\r\n\x1e \x1e"), [" "]);
}

#[test]
fn filter_keeps_matching_lines() {
    let mut f = streaming(Some("ccid"), None);
    assert_eq!(f.received(b"\x01usb up\x1eccid: on\x1eCCID\x1e"), ["ccid: on"]);
}

#[test]
fn limit_stops_after_that_many_lines() {
    let mut f = streaming(Some("x"), Some(2));
    assert_eq!(f.received(b"\x01x1\x1ey\x1e"), ["x1"]);
    assert_eq!(f.next_action(false), Action::Read);
    assert_eq!(f.received(b"\x01x2\x1ex3\x1e"), ["x2"]);
    assert_eq!(f.next_action(false), Action::Stop);
}

#[test]
fn limit_of_zero_prints_nothing() {
    assert_eq!(follower(None, Some(0)).next_action(false), Action::Stop);
}

#[test]
fn deadline_stops() {
    assert_eq!(follower(None, None).next_action(true), Action::Stop);
    assert_eq!(streaming(None, None).next_action(true), Action::Stop);
}

#[test]
fn wait_is_announced_once() {
    let mut f = follower(None, None);
    assert!(f.connect_failed());
    assert!(!f.connect_failed());
    f.connected();
    f.lost();
    assert_eq!(f.next_action(false), Action::Connect);
    assert!(f.connect_failed());
}

#[test]
fn reconnecting_drops_what_was_left() {
    let mut f = streaming(None, None);
    assert!(f.received(b"\x01old").is_empty());
    f.lost();
    f.connected();
    assert_eq!(f.received(b"\x01new\x1e"), ["new"]);
}

#[test]
fn reconnecting_keeps_the_limit() {
    let mut f = streaming(None, Some(2));
    assert_eq!(f.received(b"\x01a\x1e"), ["a"]);
    f.lost();
    f.connected();
    assert_eq!(f.received(b"\x01b\x1ec\x1e"), ["b"]);
    assert_eq!(f.next_action(false), Action::Stop);
}

#[test]
fn connections_are_read_each_by_itself() {
    let mut f = streaming(Some("a"), Some(3));
    let mut full: Vec<u8> = vec![b'a'; READ_CHUNK];
    full[0] = 0x01;
    let mut lines = f.received(b"\x01a1\x1ea-open");
    assert!(f.received(&full).is_empty());
    f.lost();
    assert!(f.connect_failed());
    assert!(!f.connect_failed());
    f.connected();
    lines.extend(f.received(b"\x01b\x1ea2\x1e"));
    f.lost();
    f.connected();
    lines.extend(f.received(b"\x01-tail a3\x1ea4\x1e"));
    assert_eq!(lines, ["a1", "a2", "-tail a3"]);
    assert_eq!(f.next_action(false), Action::Stop);
}

#[test]
fn bytes_that_are_not_utf8_are_replaced() {
    let mut f = streaming(None, None);
    assert_eq!(f.received(b"\x01a\xffb\x1e"), ["a\u{fffd}b"]);
    assert_eq!(f.received("\u{1}gr\u{f6}\u{df}e\u{1e}".as_bytes()), ["gr\u{f6}\u{df}e"]);
}

#[test]
fn line_for_a_text() {
    assert_eq!(line_for("a\r\n", &None), Some("a".to_string()));
    assert_eq!(line_for("\n", &None), None);
    assert_eq!(line_for("abc", &Some("bc".to_string())), Some("abc".to_string()));
    assert_eq!(line_for("abc", &Some("bd".to_string())), None);
}

fn endpoint(address: u8, transfer_type: TransferType, inbound: bool) -> DebugEndpoint {
    DebugEndpoint { address, transfer_type, inbound }
}

#[test]
fn log_endpoint_is_the_last_bulk_in_of_a_vendor_interface() {
    let settings = vec![
        DebugInterface {
            number: 0,
            class: 0x0b,
            endpoints: vec![endpoint(0x81, TransferType::Bulk, true)],
        },
        DebugInterface {
            number: 1,
            class: 0xff,
            endpoints: vec![
                endpoint(0x02, TransferType::Bulk, false),
                endpoint(0x82, TransferType::Bulk, true),
                endpoint(0x83, TransferType::Bulk, true),
                endpoint(0x84, TransferType::Interrupt, true),
            ],
        },
        DebugInterface {
            number: 2,
            class: 0x03,
            endpoints: vec![endpoint(0x85, TransferType::Bulk, true)],
        },
    ];
    assert_eq!(find_log_endpoint(&settings), Some((1, 0x83)));
    assert_eq!(find_log_endpoint(&vec![]), None);
}
