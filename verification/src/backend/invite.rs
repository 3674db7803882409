//! The pairing invite that the device prints: version, identifier and token.

use crate::hexadecimal;
use crate::text;
use vstd::prelude::*;

verus! {

/// Size of a device identifier.
pub const QID_SIZE: usize = 16;

/// Size of a pairing token.
pub const TOKEN_SIZE: usize = 16;

/// The version of the invite format.
pub const INVITE_VERSION: u8 = 1;

/// Size of an invite: version, identifier, token.
pub const INVITE_SIZE: usize = 33;

/// An invite to pair: whom with, and the secret that allows it.
#[derive(Clone, Copy, Debug, PartialEq, Eq)]
pub struct PairingInvite {
    pub qid: [u8; 16],
    pub token: [u8; 16],
}

/// Why a text is no invite.
#[derive(Clone, Copy, Debug, PartialEq, Eq, Structural)]
pub enum InviteError {
    /// It is not hexadecimal.
    NotHex(hexadecimal::HexError),
    /// It has another number of bytes than an invite.
    Length { found: usize },
    /// It has another version.
    Version { version: u8 },
}

/// The hexadecimal digits in a bare invite or in the text of a QR code: what follows the last
/// colon, without the white space around it.
pub open spec fn invite_digits(raw: Seq<char>) -> Seq<u8> {
    vstd::utf8::encode_utf8(text::trimmed(text::after_last(raw, ':')))
}

/// The bytes of an invite.
pub open spec fn invite_bytes(qid: Seq<u8>, token: Seq<u8>) -> Seq<u8> {
    seq![INVITE_VERSION] + qid + token
}

/// What reading `raw` comes to.
pub open spec fn invite_outcome(
    raw: Seq<char>,
    out: Result<PairingInvite, InviteError>,
) -> bool {
    let digits = invite_digits(raw);
    let bytes = hexadecimal::hex_decoded(digits);
    match out {
        Ok(invite) => bytes == Some(invite_bytes(invite.qid@, invite.token@)),
        Err(InviteError::NotHex(e)) => bytes is None && hexadecimal::explains(e, digits),
        Err(InviteError::Length { found }) => {
            &&& bytes is Some
            &&& bytes->0.len() == found
            &&& found != INVITE_SIZE
        },
        Err(InviteError::Version { version }) => {
            &&& bytes is Some
            &&& bytes->0.len() == INVITE_SIZE
            &&& bytes->0[0] == version
            &&& version != INVITE_VERSION
        },
    }
}

/// Sixteen bytes from position `from` on.
fn sixteen(bytes: &Vec<u8>, from: usize) -> (out: [u8; 16])
    requires
        from + 16 <= bytes@.len(),
    ensures
        out@ == bytes@.subrange(from as int, from + 16),
{
    let mut out = [0u8; 16];
    let mut i: usize = 0;
    while i < 16
        invariant
            i <= 16,
            from + 16 <= bytes.len(),
            forall|j: int| 0 <= j < i ==> out@[j] == bytes@[from + j],
        decreases 16 - i,
    {
        out[i] = bytes[from + i];
        i += 1;
    }
    assert(out@ =~= bytes@.subrange(from as int, from + 16));
    out
}

/// An error explains digits only where they write no bytes.
proof fn lemma_explained(e: hexadecimal::HexError, digits: Seq<u8>)
    requires
        hexadecimal::explains(e, digits),
    ensures
        hexadecimal::hex_decoded(digits) is None,
{
}

/// Reads an invite: either the bare hexadecimal form or the whole text of the QR code,
/// `12:34:56:78:9A:BC:<hex>`.
pub fn parse_invite(raw: &str) -> (out: Result<PairingInvite, InviteError>)
    ensures
        invite_outcome(raw@, out),
{
    let digits = text::trim(text::rest_after_last(raw, ':')).as_bytes();
    match hexadecimal::decode(digits) {
        Ok(bytes) => read_invite(&bytes),
        Err(e) => {
            proof {
                lemma_explained(e, digits@);
            }
            Err(InviteError::NotHex(e))
        },
    }
}

/// Reads the bytes of an invite.
pub fn read_invite(bytes: &Vec<u8>) -> (out: Result<PairingInvite, InviteError>)
    ensures
        match out {
            Ok(invite) => bytes@ == invite_bytes(invite.qid@, invite.token@),
            Err(InviteError::NotHex(_)) => false,
            Err(InviteError::Length { found }) => bytes@.len() == found && found != INVITE_SIZE,
            Err(InviteError::Version { version }) => {
                &&& bytes@.len() == INVITE_SIZE
                &&& bytes@[0] == version
                &&& version != INVITE_VERSION
            },
        },
{
    if bytes.len() != INVITE_SIZE {
        return Err(InviteError::Length { found: bytes.len() });
    }
    if bytes[0] != INVITE_VERSION {
        return Err(InviteError::Version { version: bytes[0] });
    }
    let invite = PairingInvite { qid: sixteen(bytes, 1), token: sixteen(bytes, 17) };
    assert(bytes@ =~= invite_bytes(invite.qid@, invite.token@));
    Ok(invite)
}

/// After the last colon comes the text without a colon that was put behind one.
proof fn lemma_after_colon(prefix: Seq<char>, body: Seq<char>)
    requires
        !body.contains(':'),
    ensures
        text::after_last(prefix + seq![':'] + body, ':') == body,
    decreases body.len(),
{
    let whole = prefix + seq![':'] + body;
    if body.len() == 0 {
        assert(whole.last() == ':');
        assert(body =~= Seq::<char>::empty());
    } else {
        let shorter = body.drop_last();
        assert(body.contains(body.last()));
        assert forall|c: char| shorter.contains(c) implies body.contains(c) by {
            let i = choose|i: int| 0 <= i < shorter.len() && shorter[i] == c;
            assert(body[i] == c);
        }
        lemma_after_colon(prefix, shorter);
        assert(whole.drop_last() =~= prefix + seq![':'] + shorter);
        assert(shorter.push(body.last()) =~= body);
    }
}

/// A text without a colon is all that follows the last colon.
proof fn lemma_no_colon(body: Seq<char>)
    requires
        !body.contains(':'),
    ensures
        text::after_last(body, ':') == body,
    decreases body.len(),
{
    if body.len() > 0 {
        let shorter = body.drop_last();
        assert(body.contains(body.last()));
        assert forall|c: char| shorter.contains(c) implies body.contains(c) by {
            let i = choose|i: int| 0 <= i < shorter.len() && shorter[i] == c;
            assert(body[i] == c);
        }
        lemma_no_colon(shorter);
        assert(shorter.push(body.last()) =~= body);
    }
}

/// The bare invite and the whole text of the QR code are read alike.
pub proof fn law_qr_or_bare(prefix: Seq<char>, body: Seq<char>, out: Result<PairingInvite, InviteError>)
    requires
        !body.contains(':'),
    ensures
        invite_outcome(prefix + seq![':'] + body, out) <==> invite_outcome(body, out),
{
    lemma_after_colon(prefix, body);
    lemma_no_colon(body);
}

/// Digits with white space around them hold no colon, and trimming leaves the digits.
proof fn lemma_padded_digits(before: Seq<char>, digits: Seq<char>, after: Seq<char>, bytes: Seq<u8>)
    requires
        text::is_blank(before),
        text::is_blank(after),
        hexadecimal::writes(digits, bytes),
        bytes.len() > 0,
    ensures
        !(before + digits + after).contains(':'),
        text::trimmed(before + digits + after) == digits,
{
    let whole = before + digits + after;
    assert forall|i: int| 0 <= i < digits.len() implies {
        &&& #[trigger] digits[i] != ':'
        &&& !text::is_white_space(digits[i])
    } by {
        hexadecimal::lemma_digits(digits, bytes, i);
    }
    assert forall|i: int| 0 <= i < whole.len() implies #[trigger] whole[i] != ':' by {
        if i < before.len() {
            assert(whole[i] == before[i]);
        } else if i < before.len() + digits.len() {
            assert(whole[i] == digits[i - before.len()]);
        } else {
            assert(whole[i] == after[i - before.len() - digits.len()]);
        }
    }
    assert(digits.last() == digits[digits.len() - 1]);
    text::law_trimmed(before, digits, after);
}

/// An invite reads back: the hexadecimal form of version, identifier and token, in either case of
/// digit and with any white space around it, bare or behind a prefix and a colon, gives that
/// identifier and that token, and nothing else.
pub proof fn law_invite_read_back(
    prefix: Seq<char>,
    before: Seq<char>,
    digits: Seq<char>,
    after: Seq<char>,
    invite: PairingInvite,
    out: Result<PairingInvite, InviteError>,
)
    requires
        text::is_blank(before),
        text::is_blank(after),
        hexadecimal::writes(digits, invite_bytes(invite.qid@, invite.token@)),
    ensures
        ({
            let bare = before + digits + after;
            let behind = prefix + seq![':'] + bare;
            &&& invite_outcome(bare, out) ==> out is Ok && out->Ok_0.qid@ == invite.qid@
                && out->Ok_0.token@ == invite.token@
            &&& invite_outcome(behind, out) ==> out is Ok && out->Ok_0.qid@ == invite.qid@
                && out->Ok_0.token@ == invite.token@
            &&& invite_outcome(bare, Ok(invite))
            &&& invite_outcome(behind, Ok(invite))
        }),
{
    let bytes = invite_bytes(invite.qid@, invite.token@);
    let bare = before + digits + after;
    assert(bytes.len() == INVITE_SIZE);
    lemma_padded_digits(before, digits, after, bytes);
    lemma_no_colon(bare);
    law_qr_or_bare(prefix, bare, out);
    law_qr_or_bare(prefix, bare, Ok(invite));
    hexadecimal::law_hex_read_back(digits, bytes);
    if invite_outcome(bare, out) {
        match out {
            Ok(found) => {
                let read = invite_bytes(found.qid@, found.token@);
                assert(read == bytes);
                assert(read.subrange(1, 17) =~= found.qid@);
                assert(bytes.subrange(1, 17) =~= invite.qid@);
                assert(read.subrange(17, 33) =~= found.token@);
                assert(bytes.subrange(17, 33) =~= invite.token@);
            },
            Err(_) => {},
        }
    }
}

/// An invite is the byte 1, sixteen bytes of identifier, and sixteen of token.
pub proof fn law_invite_layout(invite: PairingInvite)
    ensures
        ({
            let bytes = invite_bytes(invite.qid@, invite.token@);
            &&& bytes.len() == 33
            &&& bytes[0] == 1
            &&& bytes.subrange(1, 17) == invite.qid@
            &&& bytes.subrange(17, 33) == invite.token@
        }),
{
    let bytes = invite_bytes(invite.qid@, invite.token@);
    assert(bytes.subrange(1, 17) =~= invite.qid@);
    assert(bytes.subrange(17, 33) =~= invite.token@);
}

/// What comes of a text that writes bytes in hexadecimal, white space around it or not, bare or
/// behind a prefix: of another number than 33 it is refused for that number; of 33, but with
/// another first byte than 1, for that version; and else it is the invite in those bytes.
pub proof fn law_invite_outcomes(
    prefix: Seq<char>,
    before: Seq<char>,
    digits: Seq<char>,
    after: Seq<char>,
    bytes: Seq<u8>,
    out: Result<PairingInvite, InviteError>,
)
    requires
        text::is_blank(before),
        text::is_blank(after),
        hexadecimal::writes(digits, bytes),
        bytes.len() > 0,
    ensures
        ({
            let bare = before + digits + after;
            let behind = prefix + seq![':'] + bare;
            &&& invite_outcome(bare, out) <==> invite_outcome(behind, out)
            &&& invite_outcome(bare, out) ==> match out {
                Ok(invite) => bytes.len() == 33 && bytes[0] == 1 && bytes.subrange(1, 17)
                    == invite.qid@ && bytes.subrange(17, 33) == invite.token@,
                Err(InviteError::NotHex(_)) => false,
                Err(InviteError::Length { found }) => bytes.len() != 33 && found == bytes.len(),
                Err(InviteError::Version { version }) => bytes.len() == 33 && bytes[0] != 1
                    && version == bytes[0],
            }
        }),
{
    let bare = before + digits + after;
    lemma_padded_digits(before, digits, after, bytes);
    lemma_no_colon(bare);
    law_qr_or_bare(prefix, bare, out);
    hexadecimal::law_hex_read_back(digits, bytes);
    match out {
        Ok(invite) => {
            law_invite_layout(invite);
        },
        Err(_) => {},
    }
}

/// A text is refused as not hexadecimal exactly where what follows its last colon, without the
/// white space around it, is not, and with the fault found there.
pub proof fn law_invite_not_hex(raw: Seq<char>, body: Seq<char>, out: Result<PairingInvite, InviteError>)
    requires
        text::trimmed(text::after_last(raw, ':')) == body,
        invite_outcome(raw, out),
    ensures
        out matches Err(InviteError::NotHex(e)) ==> hexadecimal::explains(
            e,
            vstd::utf8::encode_utf8(body),
        ),
        hexadecimal::hex_decoded(vstd::utf8::encode_utf8(body)) is None <==> (out is Err
            && out->Err_0 is NotHex),
{
}

/// What comes of a text by the bytes that it writes behind its last colon, white space around them
/// or not: another number than 33 is refused for that number, another first byte than 1 for that
/// version, and else it is the invite in those bytes.
pub proof fn law_invite_by_bytes(
    raw: Seq<char>,
    bytes: Seq<u8>,
    out: Result<PairingInvite, InviteError>,
)
    requires
        hexadecimal::hex_decoded(
            vstd::utf8::encode_utf8(text::trimmed(text::after_last(raw, ':'))),
        ) == Some(bytes),
        invite_outcome(raw, out),
    ensures
        bytes.len() != 33 ==> (out matches Err(InviteError::Length { found }) && found
            == bytes.len()),
        bytes.len() == 33 && bytes[0] != 1 ==> out == Err::<PairingInvite, InviteError>(
            InviteError::Version { version: bytes[0] },
        ),
        bytes.len() == 33 && bytes[0] == 1 ==> out is Ok && out->Ok_0.qid@ == bytes.subrange(1, 17)
            && out->Ok_0.token@ == bytes.subrange(17, 33),
{
    match out {
        Ok(invite) => {
            law_invite_layout(invite);
        },
        Err(_) => {},
    }
}

} // verus!
