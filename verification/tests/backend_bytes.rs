//! Command line, invites, frames and the state file.

use fl::backend::args::{parse_args, ArgError, Flag, Options};
use fl::backend::framing::{encode_frame, length_prefix, read_length};
use fl::backend::invite::{parse_invite, read_invite, InviteError, PairingInvite};
use fl::backend::state_file::{encode_state, split_state, StateError};
use fl::hexadecimal::HexError;

fn words(line: &str) -> Vec<String> {
    line.split_whitespace().map(|word| word.to_string()).collect()
}

fn defaults() -> Options {
    Options {
        peer: "127.0.0.1:8766".to_string(),
        token: None,
        bench_len: 262144,
        state_path: "/tmp/ql-link-lab-peer.state".to_string(),
        serve: false,
        mcp_addr: None,
        auto_reply: false,
    }
}

#[test]
fn args_default() {
    assert_eq!(parse_args(&vec![], false), Ok(defaults()));
}

#[test]
fn args_all_options() {
    let line = "--connect-to 127.0.0.1:8765 --token ab --state /tmp/s --serve --bench-bytes 1024";
    let expected = Options {
        peer: "127.0.0.1:8765".to_string(),
        token: Some("ab".to_string()),
        bench_len: 1024,
        state_path: "/tmp/s".to_string(),
        serve: true,
        ..defaults()
    };
    assert_eq!(parse_args(&words(line), false), Ok(expected));
}

#[test]
fn args_last_setting_counts() {
    let parsed = parse_args(&words("--token a --token b"), false).unwrap();
    assert_eq!(parsed.token, Some("b".to_string()));
}

#[test]
fn args_value_may_look_like_an_option() {
    let parsed = parse_args(&words("--token --serve"), false).unwrap();
    assert_eq!(parsed.token, Some("--serve".to_string()));
    assert!(!parsed.serve);
}

#[test]
fn args_missing_values() {
    for (word, flag) in [
        ("--connect-to", Flag::ConnectTo),
        ("--token", Flag::Token),
        ("--state", Flag::State),
        ("--bench-bytes", Flag::BenchBytes),
    ] {
        assert_eq!(parse_args(&words(word), false), Err(ArgError::MissingValue(flag)));
    }
}

#[test]
fn args_bench_bytes_must_be_a_u32() {
    assert_eq!(parse_args(&words("--bench-bytes 4294967296"), false), Err(ArgError::NotU32));
    assert_eq!(parse_args(&words("--bench-bytes many"), false), Err(ArgError::NotU32));
}

#[test]
fn args_unknown() {
    assert_eq!(
        parse_args(&words("--serve --sevre"), false),
        Err(ArgError::Unknown("--sevre".to_string()))
    );
}

#[test]
fn args_of_the_tool_server() {
    assert_eq!(
        parse_args(&words("--mcp"), false),
        Err(ArgError::Unknown("--mcp".to_string()))
    );
    let parsed = parse_args(&words("--auto-reply --mcp"), true).unwrap();
    assert_eq!(parsed.mcp_addr, Some("127.0.0.1:8780".to_string()));
    assert!(parsed.auto_reply);
    let parsed = parse_args(&words("--mcp 127.0.0.1:1 --serve"), true).unwrap();
    assert_eq!(parsed.mcp_addr, Some("127.0.0.1:1".to_string()));
    assert!(parsed.serve);
}

const BARE: &str = "01000102030405060708090a0b0c0d0e0f101112131415161718191a1b1c1d1e1f";

fn invite() -> PairingInvite {
    PairingInvite {
        qid: std::array::from_fn(|i| i as u8),
        token: std::array::from_fn(|i| i as u8 + 16),
    }
}

#[test]
fn invite_bare_and_as_qr_text() {
    assert_eq!(parse_invite(BARE), Ok(invite()));
    assert_eq!(parse_invite(&format!("12:34:56:78:9A:BC:{BARE}")), Ok(invite()));
    assert_eq!(parse_invite(&format!("12:34: {BARE}\n")), Ok(invite()));
    assert_eq!(parse_invite(&BARE.to_uppercase()), Ok(invite()));
    let mixed = BARE.replace("0a", "0A").replace("1f", "1F");
    assert_eq!(parse_invite(&format!("\t\u{2003}{mixed} \r\n")), Ok(invite()));
    assert_eq!(parse_invite(&format!("12:34:\t{mixed}\u{a0}")), Ok(invite()));
}

#[test]
fn invite_must_be_hexadecimal() {
    assert_eq!(parse_invite("012"), Err(InviteError::NotHex(HexError::OddLength)));
    assert_eq!(
        parse_invite("01x2"),
        Err(InviteError::NotHex(HexError::InvalidHexCharacter { c: 'x', index: 2 }))
    );
}

#[test]
fn invite_must_have_its_size() {
    assert_eq!(parse_invite(""), Err(InviteError::Length { found: 0 }));
    assert_eq!(parse_invite("0102"), Err(InviteError::Length { found: 2 }));
    assert_eq!(parse_invite(&format!("{BARE}00")), Err(InviteError::Length { found: 34 }));
}

#[test]
fn invite_must_have_its_version() {
    let other = format!("02{}", &BARE[2..]);
    assert_eq!(parse_invite(&other), Err(InviteError::Version { version: 2 }));
}

#[test]
fn invite_from_bytes() {
    let mut bytes: Vec<u8> = vec![1];
    bytes.extend(0u8..32);
    assert_eq!(read_invite(&bytes), Ok(invite()));
    assert_eq!(read_invite(&vec![1]), Err(InviteError::Length { found: 1 }));
}

#[test]
fn length_prefix_is_big_endian() {
    assert_eq!(length_prefix(0x01020304), [1, 2, 3, 4]);
    assert_eq!(read_length(&[1, 2, 3, 4]), 0x01020304);
    assert_eq!(read_length(&length_prefix(70000)), 70000);
    assert_eq!(read_length(&[0xff; 4]), u32::MAX);
}

#[test]
fn frame_is_length_and_chunk() {
    assert_eq!(encode_frame(&[7, 8]), [0, 0, 0, 2, 7, 8]);
    assert_eq!(encode_frame(&[]), [0, 0, 0, 0]);
}

#[test]
fn frames_are_read_back_from_a_stream() {
    let chunks: [&[u8]; 3] = [b"one", b"", b"three"];
    let mut stream: Vec<u8> = Vec::new();
    for chunk in chunks {
        stream.extend(encode_frame(chunk));
    }
    let mut left: &[u8] = &stream;
    for chunk in chunks {
        let len: usize = read_length(&left[..4].try_into().unwrap()) as usize;
        assert_eq!(&left[4..4 + len], chunk);
        left = &left[4 + len..];
    }
    assert!(left.is_empty());
}

#[test]
fn state_file_reads_back() {
    let file = encode_state(b"identity", b"bundle");
    assert_eq!(file[..4], [0, 0, 0, 8]);
    assert_eq!(split_state(&file), Ok((&b"identity"[..], &b"bundle"[..])));
    assert_eq!(split_state(&encode_state(b"", b"")), Ok((&b""[..], &b""[..])));
}

#[test]
fn state_file_truncated() {
    assert_eq!(split_state(&[0, 0, 0]), Err(StateError::NoLength));
    assert_eq!(
        split_state(&[0, 0, 0, 3, 1, 2]),
        Err(StateError::Truncated { need: 7, got: 6 })
    );
    assert_eq!(
        split_state(&[0xff, 0xff, 0xff, 0xff]),
        Err(StateError::Truncated { need: 4294967299, got: 4 })
    );
}
