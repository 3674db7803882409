//! P-256 keys and signatures, and the X.509 certificates that carry the keys.

use vstd::prelude::*;

verus! {

/// The number that bytes write, most significant byte first.
pub open spec fn big_endian(bytes: Seq<u8>) -> nat
    decreases bytes.len(),
{
    if bytes.len() == 0 {
        0
    } else {
        big_endian(bytes.drop_last()) * 256 + bytes.last() as nat
    }
}

/// The order of the P-256 group.
pub open spec fn p256_order() -> nat {
    0xffffffff00000000ffffffffffffffffbce6faada7179e84f3b9cac2fc632551nat
}

/// A scalar that may stand in a signature.
pub open spec fn is_scalar(bytes: Seq<u8>) -> bool {
    1 <= big_endian(bytes) < p256_order()
}

/// The fixed-width form of a signature: two scalars of 32 bytes each.
pub open spec fn is_signature(bytes: Seq<u8>) -> bool {
    &&& bytes.len() == 64
    &&& is_scalar(bytes.take(32))
    &&& is_scalar(bytes.skip(32))
}

/// What `x509_cert` finds in the DER form of a certificate: nothing where it is no
/// certificate; else the subject's public key, unless that is not a whole number of bytes.
pub uninterp spec fn certificate_key(der: Seq<u8>) -> Option<Option<Seq<u8>>>;

/// Whether `p256` reads these bytes as the SEC1 form of a public key.
pub uninterp spec fn is_public_key(sec1: Seq<u8>) -> bool;

/// The fixed-width form of the signature that `p256` reads in these DER bytes, if it reads
/// one.
pub uninterp spec fn der_signature(der: Seq<u8>) -> Option<Seq<u8>>;

/// Whether `p256` accepts a signature, in fixed-width form, of a hash under a public key, in
/// SEC1 form.
pub uninterp spec fn verifies(sec1: Seq<u8>, hash: Seq<u8>, signature: Seq<u8>) -> bool;

/// The bytes inside two options.
pub open spec fn key_option(key: Option<Option<Vec<u8>>>) -> Option<Option<Seq<u8>>> {
    match key {
        Some(Some(bytes)) => Some(Some(bytes@)),
        Some(None) => Some(None),
        None => None,
    }
}

/// `x509_cert::Certificate::from_der`, then the bytes of the certificate's
/// `subject_public_key` bit string. The same DER bytes always give the same result; which,
/// is left to the name.
#[verifier::external_body]
pub(crate) fn read_certificate_key(der: &[u8]) -> (key: Option<Option<Vec<u8>>>)
    ensures
        key_option(key) == certificate_key(der@),
{
    let parsed = <x509_cert::Certificate as x509_cert::der::Decode>::from_der(der);
    parsed.ok().map(
        |cert|
            cert.tbs_certificate.subject_public_key_info.subject_public_key.as_bytes().map(
                |bytes| bytes.to_vec(),
            ),
    )
}

/// `p256::ecdsa::VerifyingKey::from_sec1_bytes`: whether it reads a key. The same bytes
/// always give the same answer; which, is left to the name.
#[verifier::external_body]
pub(crate) fn reads_as_public_key(sec1: &[u8]) -> (accepted: bool)
    ensures
        accepted == is_public_key(sec1@),
{
    p256::ecdsa::VerifyingKey::from_sec1_bytes(sec1).is_ok()
}

/// `p256::ecdsa::Signature::from_bytes`: whether both halves, read most significant byte
/// first, are at least one and below the order of the group.
#[verifier::external_body]
pub(crate) fn reads_as_signature(fixed: &[u8; 64]) -> (accepted: bool)
    ensures
        accepted == is_signature(fixed@),
{
    p256::ecdsa::Signature::from_bytes(&(*fixed).into()).is_ok()
}

/// `p256::ecdsa::Signature::from_der`, the signature then written in fixed-width form. The
/// same bytes always give the same result, and a signature that is read is a valid one;
/// which one, is left to the name.
#[verifier::external_body]
pub(crate) fn read_der_signature(der: &[u8]) -> (fixed: Option<Vec<u8>>)
    ensures
        match fixed {
            Some(bytes) => der_signature(der@) == Some(bytes@) && is_signature(bytes@),
            None => der_signature(der@) is None,
        },
{
    p256::ecdsa::Signature::from_der(der).ok().map(|signature| signature.to_vec())
}

/// `verify_prehash` of `p256::ecdsa::VerifyingKey`, on the key that `from_sec1_bytes` reads
/// and the signature that `from_slice` reads. The same bytes always give the same answer;
/// which, is left to the name.
#[verifier::external_body]
pub(crate) fn accepts_signature(sec1: &[u8], hash: &[u8], fixed: &[u8]) -> (accepted: bool)
    requires
        is_public_key(sec1@),
        is_signature(fixed@),
    ensures
        accepted == verifies(sec1@, hash@, fixed@),
{
    let key = p256::ecdsa::VerifyingKey::from_sec1_bytes(sec1);
    let signature = p256::ecdsa::Signature::from_slice(fixed);
    match (key, signature) {
        (Ok(key), Ok(signature)) =>
            p256::ecdsa::signature::hazmat::PrehashVerifier::verify_prehash(
                &key, hash, &signature,
            ).is_ok(),
        _ => false,
    }
}

/// The bytes are those of the vector, where there is one.
pub proof fn law_key_option(key: Vec<u8>)
    ensures
        key_option(Some(Some(key))) == Some(Some(key@)),
        key_option(Some(None)) == Some(None::<Seq<u8>>),
        key_option(None) is None,
{
}

/// A signature is two numbers of thirty-two bytes each, highest byte first, both at least one and
/// below the order of the group.
pub proof fn law_signature_range(r: Seq<u8>, s: Seq<u8>, bytes: Seq<u8>, b: u8)
    ensures
        is_signature(bytes) ==> bytes.len() == 64,
        r.len() == 32 && s.len() == 32 ==> (is_signature(r + s) <==> 1 <= big_endian(r)
            < 0xffffffff00000000ffffffffffffffffbce6faada7179e84f3b9cac2fc632551nat && 1
            <= big_endian(s) < 0xffffffff00000000ffffffffffffffffbce6faada7179e84f3b9cac2fc632551nat),
        big_endian(Seq::empty()) == 0,
        big_endian(bytes.push(b)) == 256 * big_endian(bytes) + b,
{
    if r.len() == 32 && s.len() == 32 {
        assert((r + s).take(32) =~= r);
        assert((r + s).skip(32) =~= s);
    }
    assert(bytes.push(b).drop_last() =~= bytes);
}

} // verus!
