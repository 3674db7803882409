//! The PIV check from end to end: choosing the reader, the four commands, and the signature.

use crate::piv::apdu;
use crate::piv::keys;
use crate::piv::tlv;
use crate::text;
use vstd::prelude::*;

verus! {

/// Which card reader to use.
pub struct Args {
    /// Part of the reader's name (default: the first reader).
    pub reader: Option<String>,
}

/// Why no reader was chosen.
#[derive(Clone, Copy, Debug, PartialEq, Eq, Structural)]
pub enum ReaderError {
    /// There is no reader at all.
    NoReader,
    /// No reader's name contains the wanted text.
    NoMatch,
}

/// The position of the reader to use: the first one, or the first whose name contains the
/// wanted text.
pub fn select_reader(names: &Vec<String>, args: &Args) -> (out: Result<usize, ReaderError>)
    ensures
        match out {
            Ok(i) => {
                &&& i < names@.len()
                &&& args.reader is None ==> i == 0
                &&& args.reader is Some ==> text::contains_text(
                    names@[i as int]@,
                    args.reader->0@,
                )
                &&& args.reader is Some ==> forall|j: int|
                    0 <= j < i ==> !text::contains_text(
                        (#[trigger] names@[j])@,
                        args.reader->0@,
                    )
            },
            Err(ReaderError::NoReader) => names@.len() == 0,
            Err(ReaderError::NoMatch) => {
                &&& names@.len() > 0
                &&& args.reader is Some
                &&& forall|j: int|
                    0 <= j < names@.len() ==> !text::contains_text(
                        (#[trigger] names@[j])@,
                        args.reader->0@,
                    )
            },
        },
{
    if names.len() == 0 {
        return Err(ReaderError::NoReader);
    }
    match &args.reader {
        None => Ok(0),
        Some(want) => {
            let mut i: usize = 0;
            while i < names.len()
                invariant
                    i <= names@.len(),
                    args.reader == Some(*want),
                    forall|j: int|
                        0 <= j < i ==> !text::contains_text((#[trigger] names@[j])@, want@),
                decreases names@.len() - i,
            {
                if text::contains(names[i].as_str(), want.as_str()) {
                    return Ok(i);
                }
                i += 1;
            }
            Err(ReaderError::NoMatch)
        },
    }
}

/// The steps of the check, in order.
#[derive(Clone, Copy, Debug, PartialEq, Eq, Structural)]
pub enum Stage {
    SelectPiv,
    GetChuid,
    GetCertificate,
    Authenticate,
    /// All checks have passed.
    Passed,
}

/// Why the check failed.
#[derive(Clone, Copy, Debug, PartialEq, Eq, Structural)]
pub enum PivError {
    /// The card answered a command with another status word than success.
    Status { stage: Stage, sw: u16 },
    /// An object is not wrapped in the expected TLV.
    Tlv(tlv::TlvError),
    /// The certificate object holds no certificate.
    NoCertificate,
    /// The certificate cannot be parsed.
    BadCertificate,
    /// The certificate's public key is not a whole number of bytes.
    KeyNotByteAligned,
    /// The certificate's public key is no P-256 point.
    BadKey,
    /// The authentication response holds no signature.
    NoSignature,
    /// The signature has fixed-width form, but not the value of one.
    BadRawSignature,
    /// The signature is no DER signature.
    BadDerSignature,
    /// The signature does not verify against the key.
    SignatureMismatch,
}

/// A P-256 public key, in SEC1 form.
pub struct VerifyingKey {
    sec1: Vec<u8>,
}

impl View for VerifyingKey {
    type V = Seq<u8>;

    closed spec fn view(&self) -> Seq<u8> {
        self.sec1@
    }
}

/// A P-256 signature, in fixed-width form.
pub struct Signature {
    fixed: Vec<u8>,
}

impl View for Signature {
    type V = Seq<u8>;

    closed spec fn view(&self) -> Seq<u8> {
        self.fixed@
    }
}

impl VerifyingKey {
    #[verifier::type_invariant]
    spec fn inv(self) -> bool {
        keys::is_public_key(self.sec1@)
    }

    /// The key with this SEC1 form, if it is the form of one.
    pub fn from_sec1_bytes(sec1: Vec<u8>) -> (key: Option<VerifyingKey>)
        ensures
            key is Some <==> keys::is_public_key(sec1@),
            key is Some ==> key->0@ == sec1@,
    {
        if keys::reads_as_public_key(sec1.as_slice()) {
            Some(VerifyingKey { sec1 })
        } else {
            None
        }
    }

    /// Does the signature of this hash verify against the key?
    pub fn verify_prehash(&self, hash: &[u8], signature: &Signature) -> (accepted: bool)
        ensures
            accepted == keys::verifies(self@, hash@, signature@),
    {
        proof {
            use_type_invariant(self);
            use_type_invariant(signature);
        }
        keys::accepts_signature(self.sec1.as_slice(), hash, signature.fixed.as_slice())
    }
}

impl Signature {
    #[verifier::type_invariant]
    spec fn inv(self) -> bool {
        keys::is_signature(self.fixed@)
    }

    /// The signature with this fixed-width form, if both scalars are in range.
    pub fn from_bytes(fixed: &[u8; 64]) -> (signature: Option<Signature>)
        ensures
            signature is Some <==> keys::is_signature(fixed@),
            signature is Some ==> signature->0@ == fixed@,
    {
        if keys::reads_as_signature(fixed) {
            let mut bytes: Vec<u8> = Vec::new();
            bytes.extend_from_slice(fixed.as_slice());
            assert(bytes@ =~= fixed@);
            Some(Signature { fixed: bytes })
        } else {
            None
        }
    }

    /// The signature that these DER bytes write, if they write one.
    pub fn from_der(der: &[u8]) -> (signature: Option<Signature>)
        ensures
            match signature {
                Some(signature) => keys::der_signature(der@) == Some(signature@),
                None => keys::der_signature(der@) is None,
            },
    {
        match keys::read_der_signature(der) {
            Some(fixed) => Some(Signature { fixed }),
            None => None,
        }
    }

    /// Both scalars, 32 bytes each.
    pub fn to_bytes(&self) -> (bytes: Vec<u8>)
        ensures
            bytes@ == self@,
            keys::is_signature(bytes@),
    {
        proof {
            use_type_invariant(self);
        }
        let mut bytes: Vec<u8> = Vec::new();
        bytes.extend_from_slice(self.fixed.as_slice());
        assert(bytes@ =~= self.fixed@);
        bytes
    }
}

/// The DER certificate inside a PIV certificate object `53 { 70 <der> .. }`.
pub open spec fn certificate_of(object: Seq<u8>) -> Result<Seq<u8>, PivError> {
    match tlv::unwrapped(object, 0x53) {
        Ok(inner) => match tlv::tlv_value(inner, 0x70) {
            Some(der) => Ok(der),
            None => Err(PivError::NoCertificate),
        },
        Err(e) => Err(PivError::Tlv(e)),
    }
}

/// The key bytes that a parsed certificate gives.
pub open spec fn key_bytes_of(parsed: Option<Option<Seq<u8>>>) -> Result<Seq<u8>, PivError> {
    match parsed {
        Some(Some(key)) => Ok(key),
        Some(None) => Err(PivError::KeyNotByteAligned),
        None => Err(PivError::BadCertificate),
    }
}

/// The public key of a PIV certificate object.
pub open spec fn object_key(object: Seq<u8>) -> Result<Seq<u8>, PivError> {
    match certificate_of(object) {
        Ok(der) => match key_bytes_of(keys::certificate_key(der)) {
            Ok(key) => if keys::is_public_key(key) {
                Ok(key)
            } else {
                Err(PivError::BadKey)
            },
            Err(e) => Err(e),
        },
        Err(e) => Err(e),
    }
}

/// The signature bytes inside a GENERAL AUTHENTICATE response `7C { 82 <sig> }`.
pub open spec fn signature_bytes_of(response: Seq<u8>) -> Result<Seq<u8>, PivError> {
    match tlv::unwrapped(response, 0x7c) {
        Ok(inner) => match tlv::tlv_value(inner, 0x82) {
            Some(raw) => Ok(raw),
            None => Err(PivError::NoSignature),
        },
        Err(e) => Err(PivError::Tlv(e)),
    }
}

/// The signature that a GENERAL AUTHENTICATE response carries: 64 bytes are the fixed-width
/// form, any other number is DER.
pub open spec fn response_signature(response: Seq<u8>) -> Result<Seq<u8>, PivError> {
    match signature_bytes_of(response) {
        Ok(raw) => if raw.len() == 64 {
            if keys::is_signature(raw) {
                Ok(raw)
            } else {
                Err(PivError::BadRawSignature)
            }
        } else {
            match keys::der_signature(raw) {
                Some(fixed) => Ok(fixed),
                None => Err(PivError::BadDerSignature),
            }
        },
        Err(e) => Err(e),
    }
}

/// The DER certificate inside a PIV certificate object.
pub fn certificate_in_object(object: &[u8]) -> (out: Result<&[u8], PivError>)
    ensures
        match out {
            Ok(der) => certificate_of(object@) == Ok::<Seq<u8>, PivError>(der@),
            Err(e) => certificate_of(object@) == Err::<Seq<u8>, PivError>(e),
        },
{
    match tlv::unwrap_tlv(object, 0x53) {
        Ok(inner) => match tlv::find_tlv(inner, 0x70) {
            Some(der) => Ok(der),
            None => Err(PivError::NoCertificate),
        },
        Err(e) => Err(PivError::Tlv(e)),
    }
}

/// The key bytes that a parsed certificate gives.
pub fn certificate_key_bytes(parsed: Option<Option<Vec<u8>>>) -> (out: Result<Vec<u8>, PivError>)
    ensures
        match out {
            Ok(key) => key_bytes_of(keys::key_option(parsed)) == Ok::<Seq<u8>, PivError>(key@),
            Err(e) => key_bytes_of(keys::key_option(parsed)) == Err::<Seq<u8>, PivError>(e),
        },
{
    match parsed {
        Some(Some(key)) => Ok(key),
        Some(None) => Err(PivError::KeyNotByteAligned),
        None => Err(PivError::BadCertificate),
    }
}

/// Pull the X.509 certificate out of the PIV `53 { 70 <der> .. }` object and read its key.
pub fn pubkey_from_cert_object(object: &[u8]) -> (out: Result<VerifyingKey, PivError>)
    ensures
        match out {
            Ok(key) => object_key(object@) == Ok::<Seq<u8>, PivError>(key@),
            Err(e) => object_key(object@) == Err::<Seq<u8>, PivError>(e),
        },
{
    match certificate_in_object(object) {
        Ok(der) => match certificate_key_bytes(keys::read_certificate_key(der)) {
            Ok(bytes) => match VerifyingKey::from_sec1_bytes(bytes) {
                Some(key) => Ok(key),
                None => Err(PivError::BadKey),
            },
            Err(e) => Err(e),
        },
        Err(e) => Err(e),
    }
}

/// The signature bytes inside a GENERAL AUTHENTICATE response.
pub fn signature_in_response(resp: &[u8]) -> (out: Result<&[u8], PivError>)
    ensures
        match out {
            Ok(raw) => signature_bytes_of(resp@) == Ok::<Seq<u8>, PivError>(raw@),
            Err(e) => signature_bytes_of(resp@) == Err::<Seq<u8>, PivError>(e),
        },
{
    match tlv::unwrap_tlv(resp, 0x7c) {
        Ok(inner) => match tlv::find_tlv(inner, 0x82) {
            Some(raw) => Ok(raw),
            None => Err(PivError::NoSignature),
        },
        Err(e) => Err(PivError::Tlv(e)),
    }
}

/// The 64 bytes of a slice that is 64 bytes long.
fn to_fixed(raw: &[u8]) -> (fixed: [u8; 64])
    requires
        raw@.len() == 64,
    ensures
        fixed@ == raw@,
{
    let mut fixed = [0u8; 64];
    let mut i: usize = 0;
    while i < 64
        invariant
            i <= 64,
            raw@.len() == 64,
            forall|j: int| 0 <= j < i ==> fixed@[j] == raw@[j],
        decreases 64 - i,
    {
        fixed[i] = raw[i];
        i += 1;
    }
    assert(fixed@ =~= raw@);
    fixed
}

/// Read the signature from the `7C { 82 <sig> }` GENERAL AUTHENTICATE response.
///
/// The device returns a raw r||s value; a standards-strict host expects the DER form, so this
/// is one of the wire details to confirm against a reference card.
pub fn signature_from_auth(resp: &[u8]) -> (out: Result<Signature, PivError>)
    ensures
        match out {
            Ok(signature) => response_signature(resp@) == Ok::<Seq<u8>, PivError>(signature@),
            Err(e) => response_signature(resp@) == Err::<Seq<u8>, PivError>(e),
        },
{
    match signature_in_response(resp) {
        Ok(raw) => {
            if raw.len() == 64 {
                match Signature::from_bytes(&to_fixed(raw)) {
                    Some(signature) => Ok(signature),
                    None => Err(PivError::BadRawSignature),
                }
            } else {
                match Signature::from_der(raw) {
                    Some(signature) => Ok(signature),
                    None => Err(PivError::BadDerSignature),
                }
            }
        },
        Err(e) => Err(e),
    }
}

/// The challenge of the check.
pub open spec fn challenge_bytes() -> Seq<u8> {
    Seq::new(32, |i: int| (7 * i + 3) as u8)
}

/// The command of a stage.
pub open spec fn stage_command(stage: Stage) -> Option<Seq<u8>> {
    match stage {
        Stage::SelectPiv => Some(apdu::apdu_bytes(0x00, 0xa4, 0x04, 0x00, apdu::PIV_AID@)),
        Stage::GetChuid => Some(apdu::get_data_bytes(seq![0x5fu8, 0xc1, 0x02])),
        Stage::GetCertificate => Some(apdu::get_data_bytes(seq![0x5fu8, 0xc1, 0x05])),
        Stage::Authenticate => Some(apdu::auth_bytes(challenge_bytes())),
        Stage::Passed => None,
    }
}

/// The title of a stage.
pub open spec fn stage_label(stage: Stage) -> Seq<char> {
    match stage {
        Stage::SelectPiv => "SELECT PIV"@,
        Stage::GetChuid => "GET DATA CHUID"@,
        Stage::GetCertificate => "GET DATA cert 9A"@,
        Stage::Authenticate => "GENERAL AUTHENTICATE"@,
        Stage::Passed => "PIV: all checks passed."@,
    }
}

impl Stage {
    /// The command to send in this stage: none once all checks have passed.
    pub fn command(self) -> (command: Option<Vec<u8>>)
        ensures
            match command {
                Some(bytes) => stage_command(self) == Some(bytes@),
                None => stage_command(self) is None,
            },
    {
        match self {
            Stage::SelectPiv => {
                let aid = apdu::PIV_AID;
                Some(apdu::apdu(0x00, 0xa4, 0x04, 0x00, aid.as_slice()))
            },
            Stage::GetChuid => {
                let tag: [u8; 3] = [0x5f, 0xc1, 0x02];
                assert(tag@ =~= seq![0x5fu8, 0xc1, 0x02]);
                Some(apdu::get_data(tag.as_slice()))
            },
            Stage::GetCertificate => {
                let tag: [u8; 3] = [0x5f, 0xc1, 0x05];
                assert(tag@ =~= seq![0x5fu8, 0xc1, 0x05]);
                Some(apdu::get_data(tag.as_slice()))
            },
            Stage::Authenticate => {
                let challenge = apdu::challenge();
                assert(challenge@ =~= challenge_bytes());
                Some(apdu::general_authenticate(&challenge))
            },
            Stage::Passed => None,
        }
    }

    /// The title of this stage.
    pub fn label(self) -> (label: &'static str)
        ensures
            label@ == stage_label(self),
            self == Stage::SelectPiv ==> label@ == "SELECT PIV"@,
            self == Stage::GetChuid ==> label@ == "GET DATA CHUID"@,
            self == Stage::GetCertificate ==> label@ == "GET DATA cert 9A"@,
            self == Stage::Authenticate ==> label@ == "GENERAL AUTHENTICATE"@,
            self == Stage::Passed ==> label@ == "PIV: all checks passed."@,
    {
        match self {
            Stage::SelectPiv => "SELECT PIV",
            Stage::GetChuid => "GET DATA CHUID",
            Stage::GetCertificate => "GET DATA cert 9A",
            Stage::Authenticate => "GENERAL AUTHENTICATE",
            Stage::Passed => "PIV: all checks passed.",
        }
    }
}

/// How far a check has come, and the key it has read.
#[verifier::ext_equal]
pub struct SessionView {
    pub stage: Stage,
    pub key: Option<Seq<u8>>,
}

impl SessionView {
    /// The signature is only asked for once the key is known.
    pub open spec fn wf(self) -> bool {
        self.stage == Stage::Authenticate ==> self.key is Some
    }
}

/// The check after the answer to the command of its stage.
pub open spec fn after_answer(v: SessionView, data: Seq<u8>, sw: u16) -> Result<
    SessionView,
    PivError,
> {
    if sw != apdu::SW_OK {
        Err(PivError::Status { stage: v.stage, sw })
    } else {
        match v.stage {
            Stage::SelectPiv => Ok(SessionView { stage: Stage::GetChuid, ..v }),
            Stage::GetChuid => Ok(SessionView { stage: Stage::GetCertificate, ..v }),
            Stage::GetCertificate => match object_key(data) {
                Ok(key) => Ok(SessionView { stage: Stage::Authenticate, key: Some(key) }),
                Err(e) => Err(e),
            },
            Stage::Authenticate => match response_signature(data) {
                Ok(signature) => if keys::verifies(v.key->0, challenge_bytes(), signature) {
                    Ok(SessionView { stage: Stage::Passed, ..v })
                } else {
                    Err(PivError::SignatureMismatch)
                },
                Err(e) => Err(e),
            },
            Stage::Passed => Ok(v),
        }
    }
}

/// The check of one card.
pub struct PivSession {
    stage: Stage,
    key: Option<VerifyingKey>,
}

impl View for PivSession {
    type V = SessionView;

    closed spec fn view(&self) -> SessionView {
        SessionView {
            stage: self.stage,
            key: match self.key {
                Some(key) => Some(key@),
                None => None,
            },
        }
    }
}

impl PivSession {
    /// A check that has sent nothing yet.
    pub fn new() -> (session: PivSession)
        ensures
            session@ == (SessionView { stage: Stage::SelectPiv, key: None }),
            session@.wf(),
    {
        PivSession { stage: Stage::SelectPiv, key: None }
    }

    /// The stage that the check is in.
    pub fn stage(&self) -> (stage: Stage)
        ensures
            stage == self@.stage,
    {
        self.stage
    }

    /// Takes in the answer to the command of the stage: its data and its status word, which
    /// must be success. An answer that fails the check leaves it where it is.
    pub fn expect_ok(&mut self, data: &[u8], sw: u16) -> (out: Result<(), PivError>)
        requires
            old(self)@.wf(),
            old(self)@.stage != Stage::Passed,
        ensures
            match out {
                Ok(()) => after_answer(old(self)@, data@, sw) == Ok::<SessionView, PivError>(
                    final(self)@,
                ),
                Err(e) => {
                    &&& after_answer(old(self)@, data@, sw) == Err::<SessionView, PivError>(e)
                    &&& final(self)@ == old(self)@
                },
            },
            final(self)@.wf(),
    {
        if sw != apdu::SW_OK {
            return Err(PivError::Status { stage: self.stage, sw });
        }
        match self.stage {
            Stage::SelectPiv => {
                self.stage = Stage::GetChuid;
            },
            Stage::GetChuid => {
                self.stage = Stage::GetCertificate;
            },
            Stage::GetCertificate => match pubkey_from_cert_object(data) {
                Ok(key) => {
                    self.key = Some(key);
                    self.stage = Stage::Authenticate;
                },
                Err(e) => {
                    return Err(e);
                },
            },
            Stage::Authenticate => {
                let signature = match signature_from_auth(data) {
                    Ok(signature) => signature,
                    Err(e) => {
                        return Err(e);
                    },
                };
                let challenge = apdu::challenge();
                assert(challenge@ =~= challenge_bytes());
                let accepted = match &self.key {
                    Some(key) => key.verify_prehash(challenge.as_slice(), &signature),
                    None => false,
                };
                if !accepted {
                    return Err(PivError::SignatureMismatch);
                }
                self.stage = Stage::Passed;
            },
            Stage::Passed => {},
        }
        assert(after_answer(old(self)@, data@, sw)->Ok_0 =~= self@);
        Ok(())
    }
}

/// A check from its start over a run of answers. A failed answer ends it.
pub open spec fn after_answers(answers: Seq<(Seq<u8>, u16)>) -> Result<SessionView, PivError>
    decreases answers.len(),
{
    if answers.len() == 0 {
        Ok(SessionView { stage: Stage::SelectPiv, key: None })
    } else {
        match after_answers(answers.drop_last()) {
            Ok(v) => after_answer(v, answers.last().0, answers.last().1),
            Err(e) => Err(e),
        }
    }
}

/// The whole chain is checked: a check passes on its fourth answer exactly when all four
/// status words are success, the third answer holds a certificate with a readable key, and
/// the fourth a signature of the challenge that verifies against that key.
pub proof fn law_passed_means_verified(answers: Seq<(Seq<u8>, u16)>)
    requires
        answers.len() == 4,
    ensures
        (after_answers(answers) is Ok && after_answers(answers)->Ok_0.stage == Stage::Passed) <==> {
            &&& forall|i: int| 0 <= i < 4 ==> (#[trigger] answers[i]).1 == apdu::SW_OK
            &&& object_key(answers[2].0) is Ok
            &&& response_signature(answers[3].0) is Ok
            &&& keys::verifies(
                object_key(answers[2].0)->Ok_0,
                challenge_bytes(),
                response_signature(answers[3].0)->Ok_0,
            )
        },
{
    reveal_with_fuel(after_answers, 5);
    let three = answers.drop_last();
    let two = three.drop_last();
    let one = two.drop_last();
    assert(three.last() == answers[2]);
    assert(two.last() == answers[1]);
    assert(one.last() == answers[0]);
    assert(one.drop_last().len() == 0);
}

/// Fewer than four answers never pass.
pub proof fn law_no_early_pass(answers: Seq<(Seq<u8>, u16)>)
    requires
        answers.len() < 4,
    ensures
        after_answers(answers) is Ok ==> after_answers(answers)->Ok_0.stage != Stage::Passed,
{
    reveal_with_fuel(after_answers, 5);
    if answers.len() > 0 {
        let a = answers.drop_last();
        if a.len() > 0 {
            let b = a.drop_last();
            if b.len() > 0 {
                assert(b.drop_last().len() == 0);
            }
        }
    }
}

/// The data field of a command: what stands between its five header bytes and its closing zero.
pub open spec fn data_field(command: Seq<u8>) -> Seq<u8> {
    command.subrange(5, command.len() - 1)
}

/// What the first three stages ask the card for: the PIV applet, the CHUID, and the certificate of
/// slot 9A. Once all checks have passed nothing is asked.
pub proof fn law_stages_ask_for()
    ensures
        stage_command(Stage::SelectPiv) is Some,
        stage_command(Stage::GetChuid) is Some,
        stage_command(Stage::GetCertificate) is Some,
        ({
            let select = stage_command(Stage::SelectPiv)->0;
            &&& select.len() == 15
            &&& select.take(5) == seq![0x00u8, 0xa4, 0x04, 0x00, 9]
            &&& select.subrange(5, 14) == seq![
                0xa0u8,
                0x00,
                0x00,
                0x03,
                0x08,
                0x00,
                0x00,
                0x10,
                0x00,
            ]
            &&& select[14] == 0
        }),
        ({
            let chuid = stage_command(Stage::GetChuid)->0;
            &&& chuid.take(5) == seq![0x00u8, 0xcb, 0x3f, 0xff, 5]
            &&& chuid.len() == 11
            &&& chuid[10] == 0
            &&& tlv::unwrapped(chuid.subrange(5, 10), 0x5c) == Ok::<Seq<u8>, tlv::TlvError>(
                seq![0x5fu8, 0xc1, 0x02],
            )
        }),
        ({
            let certificate = stage_command(Stage::GetCertificate)->0;
            &&& certificate.take(5) == seq![0x00u8, 0xcb, 0x3f, 0xff, 5]
            &&& certificate.len() == 11
            &&& certificate[10] == 0
            &&& tlv::unwrapped(certificate.subrange(5, 10), 0x5c) == Ok::<Seq<u8>, tlv::TlvError>(
                seq![0x5fu8, 0xc1, 0x05],
            )
        }),
        stage_command(Stage::Passed) is None,
{
    let aid = apdu::PIV_AID@;
    let select = stage_command(Stage::SelectPiv)->0;
    apdu::law_apdu_parts(0x00, 0xa4, 0x04, 0x00, aid);
    assert(select.take(4) == seq![0x00u8, 0xa4, 0x04, 0x00]);
    assert forall|i: int| 0 <= i < 4 implies select[i] == #[trigger] select.take(4)[i] by {}
    assert(select.take(5) =~= seq![0x00u8, 0xa4, 0x04, 0x00, 9]);
    assert(select.subrange(5, 14) =~= aid);
    assert(aid =~= seq![0xa0u8, 0x00, 0x00, 0x03, 0x08, 0x00, 0x00, 0x10, 0x00]);
    let first = seq![0x5fu8, 0xc1, 0x02];
    let second = seq![0x5fu8, 0xc1, 0x05];
    apdu::law_get_data_asks_for_tag(first);
    apdu::law_get_data_asks_for_tag(second);
    let chuid = stage_command(Stage::GetChuid)->0;
    let certificate = stage_command(Stage::GetCertificate)->0;
    assert forall|i: int| 0 <= i < 4 implies chuid[i] == #[trigger] chuid.take(4)[i] by {}
    assert forall|i: int| 0 <= i < 4 implies certificate[i] == #[trigger] certificate.take(
        4,
    )[i] by {}
    assert(chuid.take(5) =~= seq![0x00u8, 0xcb, 0x3f, 0xff, 5]);
    assert(certificate.take(5) =~= seq![0x00u8, 0xcb, 0x3f, 0xff, 5]);
}

/// The card is asked to sign the very bytes that its signature is checked against: the command of
/// the fourth stage carries, under 81 in its template 7C, thirty-two bytes, byte `i` being
/// `7 * i + 3`; and the fourth answer passes exactly where it carries a signature of these bytes
/// that verifies against the certificate's key.
pub proof fn law_signs_what_is_verified(v: SessionView, data: Seq<u8>)
    requires
        v.stage == Stage::Authenticate,
        v.key is Some,
    ensures
        stage_command(Stage::Authenticate) is Some,
        ({
            let command = stage_command(Stage::Authenticate)->0;
            let template = tlv::unwrapped(data_field(command), 0x7c);
            let asked = tlv::tlv_value(template->Ok_0, 0x81);
            &&& command.take(4) == seq![0x00u8, 0x87, 0x11, 0x9a]
            &&& command[4] == command.len() - 6
            &&& command.last() == 0
            &&& template is Ok
            &&& tlv::tlv_value(template->Ok_0, 0x82) == Some(Seq::<u8>::empty())
            &&& asked is Some
            &&& asked->0.len() == 32
            &&& forall|i: int| 0 <= i < 32 ==> #[trigger] asked->0[i] == 7 * i + 3
            &&& (after_answer(v, data, 0x9000) is Ok <==> response_signature(data) is Ok
                && keys::verifies(v.key->0, asked->0, response_signature(data)->Ok_0))
            &&& after_answer(v, data, 0x9000) is Ok ==> after_answer(v, data, 0x9000)->Ok_0
                == (SessionView { stage: Stage::Passed, key: v.key })
        }),
{
    apdu::law_authenticate_asks_for_challenge(challenge_bytes());
}

/// An answer with another status word than 9000 fails the check in its stage. The applet and the
/// CHUID need no more than success; the certificate's answer must give a key, which the check
/// keeps; the last answer fails with the signature's fault, or as a mismatch.
pub proof fn law_answers(v: SessionView, data: Seq<u8>, sw: u16)
    ensures
        sw != 0x9000 ==> after_answer(v, data, sw) == Err::<SessionView, PivError>(
            PivError::Status { stage: v.stage, sw },
        ),
        sw == 0x9000 && v.stage == Stage::SelectPiv ==> after_answer(v, data, sw) == Ok::<
            SessionView,
            PivError,
        >(SessionView { stage: Stage::GetChuid, key: v.key }),
        sw == 0x9000 && v.stage == Stage::GetChuid ==> after_answer(v, data, sw) == Ok::<
            SessionView,
            PivError,
        >(SessionView { stage: Stage::GetCertificate, key: v.key }),
        sw == 0x9000 && v.stage == Stage::GetCertificate ==> after_answer(v, data, sw) == (
        match object_key(data) {
            Ok(key) => Ok::<SessionView, PivError>(
                SessionView { stage: Stage::Authenticate, key: Some(key) },
            ),
            Err(e) => Err(e),
        }),
        sw == 0x9000 && v.stage == Stage::Authenticate && response_signature(data) is Err
            ==> after_answer(v, data, sw) == Err::<SessionView, PivError>(
            response_signature(data)->Err_0,
        ),
        sw == 0x9000 && v.stage == Stage::Authenticate && response_signature(data) is Ok
            && after_answer(v, data, sw) is Err ==> after_answer(v, data, sw) == Err::<
            SessionView,
            PivError,
        >(PivError::SignatureMismatch),
{
}

/// The key of a certificate object: the object is one TLV 53; the first TLV 70 in it is the
/// certificate; its key is taken as it is, if it is one. Each step has its own fault.
pub proof fn law_object_key(object: Seq<u8>, inner: Seq<u8>, der: Seq<u8>)
    ensures
        tlv::unwrapped(object, 0x53) is Err ==> {
            let e = tlv::unwrapped(object, 0x53)->Err_0;
            &&& certificate_of(object) == Err::<Seq<u8>, PivError>(PivError::Tlv(e))
            &&& object_key(object) == Err::<Seq<u8>, PivError>(PivError::Tlv(e))
        },
        tlv::unwrapped(object, 0x53) == Ok::<Seq<u8>, tlv::TlvError>(inner) && tlv::tlv_value(
            inner,
            0x70,
        ) is None ==> {
            &&& certificate_of(object) == Err::<Seq<u8>, PivError>(PivError::NoCertificate)
            &&& object_key(object) == Err::<Seq<u8>, PivError>(PivError::NoCertificate)
        },
        tlv::unwrapped(object, 0x53) == Ok::<Seq<u8>, tlv::TlvError>(inner) && tlv::tlv_value(
            inner,
            0x70,
        ) == Some(der) ==> {
            &&& certificate_of(object) == Ok::<Seq<u8>, PivError>(der)
            &&& keys::certificate_key(der) is None ==> object_key(object) == Err::<
                Seq<u8>,
                PivError,
            >(PivError::BadCertificate)
            &&& keys::certificate_key(der) == Some(None::<Seq<u8>>) ==> object_key(object)
                == Err::<Seq<u8>, PivError>(PivError::KeyNotByteAligned)
            &&& keys::certificate_key(der) matches Some(Some(key)) ==> object_key(object) == (
            if keys::is_public_key(key) {
                Ok::<Seq<u8>, PivError>(key)
            } else {
                Err(PivError::BadKey)
            })
        },
{
}

/// The key bytes of a certificate are those found in it; none where it cannot be parsed or its
/// key is not a whole number of bytes.
pub proof fn law_key_bytes(key: Seq<u8>)
    ensures
        key_bytes_of(Some(Some(key))) == Ok::<Seq<u8>, PivError>(key),
        key_bytes_of(Some(None)) == Err::<Seq<u8>, PivError>(PivError::KeyNotByteAligned),
        key_bytes_of(None) == Err::<Seq<u8>, PivError>(PivError::BadCertificate),
{
}

/// The signature of an answer: the answer is one TLV 7C; the first TLV 82 in it is the signature;
/// of 64 bytes it is the two scalars as they are, of any other number it is DER. Each step has its
/// own fault.
pub proof fn law_response_signature(response: Seq<u8>, inner: Seq<u8>, raw: Seq<u8>)
    ensures
        tlv::unwrapped(response, 0x7c) is Err ==> {
            let e = tlv::unwrapped(response, 0x7c)->Err_0;
            &&& signature_bytes_of(response) == Err::<Seq<u8>, PivError>(PivError::Tlv(e))
            &&& response_signature(response) == Err::<Seq<u8>, PivError>(PivError::Tlv(e))
        },
        tlv::unwrapped(response, 0x7c) == Ok::<Seq<u8>, tlv::TlvError>(inner) && tlv::tlv_value(
            inner,
            0x82,
        ) is None ==> {
            &&& signature_bytes_of(response) == Err::<Seq<u8>, PivError>(PivError::NoSignature)
            &&& response_signature(response) == Err::<Seq<u8>, PivError>(PivError::NoSignature)
        },
        tlv::unwrapped(response, 0x7c) == Ok::<Seq<u8>, tlv::TlvError>(inner) && tlv::tlv_value(
            inner,
            0x82,
        ) == Some(raw) ==> {
            &&& signature_bytes_of(response) == Ok::<Seq<u8>, PivError>(raw)
            &&& raw.len() == 64 && keys::is_signature(raw) ==> response_signature(response)
                == Ok::<Seq<u8>, PivError>(raw)
            &&& raw.len() == 64 && !keys::is_signature(raw) ==> response_signature(response)
                == Err::<Seq<u8>, PivError>(PivError::BadRawSignature)
            &&& raw.len() != 64 && keys::der_signature(raw) is None ==> response_signature(
                response,
            ) == Err::<Seq<u8>, PivError>(PivError::BadDerSignature)
            &&& raw.len() != 64 && keys::der_signature(raw) is Some ==> response_signature(
                response,
            ) == Ok::<Seq<u8>, PivError>(keys::der_signature(raw)->0)
        },
{
}

} // verus!
