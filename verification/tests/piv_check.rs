//! Keys, certificates, signatures and the whole check.

use fl::piv::apdu::challenge;
use fl::piv::session::{
    certificate_in_object, certificate_key_bytes, pubkey_from_cert_object, select_reader,
    signature_from_auth, signature_in_response, Args, PivError, PivSession, ReaderError, Signature,
    Stage, VerifyingKey,
};
use fl::piv::tlv::TlvError;
use p256::ecdsa::signature::hazmat::PrehashSigner;
use p256::ecdsa::SigningKey;

fn tlv(tag: u8, value: &[u8]) -> Vec<u8> {
    let mut out: Vec<u8> = vec![tag];
    let len: usize = value.len();
    if len < 0x80 {
        out.push(len as u8);
    } else if len < 0x100 {
        out.extend_from_slice(&[0x81, len as u8]);
    } else {
        out.extend_from_slice(&[0x82, (len >> 8) as u8, len as u8]);
    }
    out.extend_from_slice(value);
    out
}

fn sequence(parts: &[&[u8]]) -> Vec<u8> {
    tlv(0x30, &parts.concat())
}

/// A self-issued certificate around this bit string: the count of unused bits, then the bytes.
fn certificate(key_bits: &[u8]) -> Vec<u8> {
    let ecdsa_with_sha256 = sequence(&[&[0x06, 0x08, 0x2a, 0x86, 0x48, 0xce, 0x3d, 0x04, 0x03, 0x02]]);
    let ec_key_p256 = sequence(&[
        &[0x06, 0x07, 0x2a, 0x86, 0x48, 0xce, 0x3d, 0x02, 0x01],
        &[0x06, 0x08, 0x2a, 0x86, 0x48, 0xce, 0x3d, 0x03, 0x01, 0x07],
    ]);
    let name = sequence(&[]);
    let from = tlv(0x17, b"260101000000Z");
    let to = tlv(0x17, b"360101000000Z");
    let tbs = sequence(&[
        &tlv(0xa0, &[0x02, 0x01, 0x02]),
        &[0x02, 0x01, 0x01],
        &ecdsa_with_sha256,
        &name,
        &sequence(&[&from, &to]),
        &name,
        &sequence(&[&ec_key_p256, &tlv(0x03, key_bits)]),
    ]);
    sequence(&[&tbs, &ecdsa_with_sha256, &tlv(0x03, &[0x00, 0x30, 0x00])])
}

fn signing_key() -> SigningKey {
    SigningKey::from_slice(&[0x17; 32]).unwrap()
}

fn public_key() -> Vec<u8> {
    signing_key().verifying_key().to_encoded_point(false).as_bytes().to_vec()
}

fn certificate_with_key(key: &[u8]) -> Vec<u8> {
    certificate(&[&[0x00], key].concat())
}

fn object(der: &[u8]) -> Vec<u8> {
    tlv(0x53, &[tlv(0x70, der), tlv(0x71, &[0x00]), tlv(0xfe, &[])].concat())
}

fn signed() -> p256::ecdsa::Signature {
    signing_key().sign_prehash(&challenge()).unwrap()
}

fn auth(signature: &[u8]) -> Vec<u8> {
    tlv(0x7c, &tlv(0x82, signature))
}

#[test]
fn select_reader_takes_the_first_by_default() {
    let names = vec!["Yubico".to_string(), "Passport Prime".to_string()];
    assert_eq!(select_reader(&names, &Args { reader: None }), Ok(0));
}

#[test]
fn select_reader_by_part_of_its_name() {
    let names = vec!["Yubico".to_string(), "Passport Prime 0".to_string(), "Prime 1".to_string()];
    assert_eq!(select_reader(&names, &Args { reader: Some("Prime".to_string()) }), Ok(1));
    assert_eq!(
        select_reader(&names, &Args { reader: Some("prime".to_string()) }),
        Err(ReaderError::NoMatch)
    );
}

#[test]
fn select_reader_without_readers() {
    assert_eq!(select_reader(&vec![], &Args { reader: None }), Err(ReaderError::NoReader));
    assert_eq!(
        select_reader(&vec![], &Args { reader: Some("x".to_string()) }),
        Err(ReaderError::NoReader)
    );
}

#[test]
fn certificate_is_found_in_the_object() {
    assert_eq!(certificate_in_object(&object(b"der")), Ok(&b"der"[..]));
    assert_eq!(
        certificate_in_object(&tlv(0x7c, b"")),
        Err(PivError::Tlv(TlvError::UnexpectedTag { expected: 0x53, found: 0x7c }))
    );
    let longer = [object(b"der"), vec![0x00]].concat();
    assert_eq!(
        certificate_in_object(&longer),
        Err(PivError::Tlv(TlvError::Trailing { left: 1 }))
    );
    assert_eq!(certificate_in_object(&[0x53]), Err(PivError::Tlv(TlvError::Truncated)));
    assert_eq!(
        certificate_in_object(&tlv(0x53, &tlv(0x71, &[0]))),
        Err(PivError::NoCertificate)
    );
}

#[test]
fn certificate_key_bytes_for_each_outcome() {
    assert_eq!(certificate_key_bytes(Some(Some(vec![4, 5]))), Ok(vec![4, 5]));
    assert_eq!(certificate_key_bytes(Some(None)), Err(PivError::KeyNotByteAligned));
    assert_eq!(certificate_key_bytes(None), Err(PivError::BadCertificate));
}

#[test]
fn key_is_read_from_a_certificate() {
    let key = pubkey_from_cert_object(&object(&certificate_with_key(&public_key())));
    let signature = Signature::from_der(signed().to_der().as_bytes()).unwrap();
    assert!(key.is_ok());
    assert!(key.ok().unwrap().verify_prehash(&challenge(), &signature));
}

#[test]
fn key_in_compressed_form_is_read_too() {
    let compressed = signing_key().verifying_key().to_encoded_point(true).as_bytes().to_vec();
    assert_eq!(compressed.len(), 33);
    let key = pubkey_from_cert_object(&object(&certificate_with_key(&compressed)));
    let signature = signature_from_auth(&auth(&signed().to_bytes())).ok().unwrap();
    assert!(key.ok().unwrap().verify_prehash(&challenge(), &signature));
}

#[test]
fn key_errors() {
    let error = |der: &[u8]| pubkey_from_cert_object(&object(der)).err();
    assert_eq!(error(b"no certificate"), Some(PivError::BadCertificate));
    assert_eq!(error(&certificate(&[0x04, 0xaa, 0xf0])), Some(PivError::KeyNotByteAligned));
    assert_eq!(error(&certificate_with_key(&[0x04; 65])), Some(PivError::BadKey));
    assert_eq!(error(&certificate_with_key(&[])), Some(PivError::BadKey));
    assert_eq!(pubkey_from_cert_object(&[]).err(), Some(PivError::Tlv(TlvError::Truncated)));
}

#[test]
fn signature_bytes_are_found_in_the_response() {
    assert_eq!(signature_in_response(&auth(b"sig")), Ok(&b"sig"[..]));
    assert_eq!(
        signature_in_response(&tlv(0x53, b"")),
        Err(PivError::Tlv(TlvError::UnexpectedTag { expected: 0x7c, found: 0x53 }))
    );
    assert_eq!(
        signature_in_response(&tlv(0x7c, &tlv(0x81, b"x"))),
        Err(PivError::NoSignature)
    );
}

#[test]
fn raw_and_der_signatures_are_the_same_signature() {
    let raw = signature_from_auth(&auth(&signed().to_bytes())).ok().unwrap();
    let der = signature_from_auth(&auth(signed().to_der().as_bytes())).ok().unwrap();
    assert_eq!(raw.to_bytes(), signed().to_bytes().to_vec());
    assert_eq!(der.to_bytes(), raw.to_bytes());
    assert_eq!(raw.to_bytes().len(), 64);
}

#[test]
fn signature_scalars_must_be_in_range() {
    let order = "ffffffff00000000ffffffffffffffffbce6faada7179e84f3b9cac2fc632551";
    let n: [u8; 32] = hex::decode(order).unwrap().try_into().unwrap();
    let mut below: [u8; 32] = n;
    below[31] -= 1;
    let one: [u8; 32] = std::array::from_fn(|i| if i == 31 { 1 } else { 0 });
    let pair = |r: &[u8; 32], s: &[u8; 32]| -> [u8; 64] {
        let mut out = [0u8; 64];
        out[..32].copy_from_slice(r);
        out[32..].copy_from_slice(s);
        out
    };
    assert!(Signature::from_bytes(&pair(&one, &one)).is_some());
    assert!(Signature::from_bytes(&pair(&below, &below)).is_some());
    assert!(Signature::from_bytes(&pair(&n, &one)).is_none());
    assert!(Signature::from_bytes(&pair(&one, &n)).is_none());
    assert!(Signature::from_bytes(&pair(&[0; 32], &one)).is_none());
    assert!(Signature::from_bytes(&pair(&one, &[0; 32])).is_none());
    assert_eq!(
        signature_from_auth(&auth(&pair(&n, &one))).err(),
        Some(PivError::BadRawSignature)
    );
    assert_eq!(signature_from_auth(&auth(b"short")).err(), Some(PivError::BadDerSignature));
}

#[test]
fn signature_of_another_message_does_not_verify() {
    let key = VerifyingKey::from_sec1_bytes(public_key()).unwrap();
    let signature = signature_from_auth(&auth(&signed().to_bytes())).ok().unwrap();
    let mut other = challenge();
    other[0] ^= 1;
    assert!(key.verify_prehash(&challenge(), &signature));
    assert!(!key.verify_prehash(&other, &signature));
    assert!(!key.verify_prehash(&[], &signature));
}

#[test]
fn stages_send_their_commands() {
    assert_eq!(Stage::SelectPiv.label(), "SELECT PIV");
    assert_eq!(Stage::SelectPiv.command().unwrap()[..5], [0x00, 0xa4, 0x04, 0x00, 0x09]);
    assert_eq!(
        Stage::GetChuid.command().unwrap(),
        [0x00, 0xcb, 0x3f, 0xff, 0x05, 0x5c, 0x03, 0x5f, 0xc1, 0x02, 0x00]
    );
    assert_eq!(Stage::GetCertificate.command().unwrap()[9], 0x05);
    assert_eq!(Stage::GetCertificate.label(), "GET DATA cert 9A");
    assert_eq!(Stage::Authenticate.command().unwrap().len(), 44);
    assert_eq!(Stage::Passed.command(), None);
}

fn up_to_authentication() -> PivSession {
    let mut session = PivSession::new();
    assert_eq!(session.stage(), Stage::SelectPiv);
    assert_eq!(session.expect_ok(&[0x61], 0x9000), Ok(()));
    assert_eq!(session.stage(), Stage::GetChuid);
    assert_eq!(session.expect_ok(&[], 0x9000), Ok(()));
    assert_eq!(session.stage(), Stage::GetCertificate);
    let answer = object(&certificate_with_key(&public_key()));
    assert_eq!(session.expect_ok(&answer, 0x9000), Ok(()));
    assert_eq!(session.stage(), Stage::Authenticate);
    session
}

#[test]
fn full_check_passes_with_a_signature_of_the_challenge() {
    let mut session = up_to_authentication();
    assert_eq!(session.expect_ok(&auth(&signed().to_bytes()), 0x9000), Ok(()));
    assert_eq!(session.stage(), Stage::Passed);
}

#[test]
fn full_check_fails_with_another_signature() {
    let mut session = up_to_authentication();
    let other: p256::ecdsa::Signature = signing_key().sign_prehash(&[0x55; 32]).unwrap();
    assert_eq!(
        session.expect_ok(&auth(&other.to_bytes()), 0x9000),
        Err(PivError::SignatureMismatch)
    );
    assert_eq!(session.stage(), Stage::Authenticate);
}

#[test]
fn full_check_stops_at_another_status() {
    let mut session = PivSession::new();
    assert_eq!(
        session.expect_ok(&[], 0x6a82),
        Err(PivError::Status { stage: Stage::SelectPiv, sw: 0x6a82 })
    );
    let mut session = up_to_authentication();
    assert_eq!(
        session.expect_ok(&auth(&signed().to_bytes()), 0x6982),
        Err(PivError::Status { stage: Stage::Authenticate, sw: 0x6982 })
    );
}
