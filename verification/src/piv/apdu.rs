//! Command APDUs, response APDUs, and the exchange of one for the other.

use crate::hexadecimal;
use crate::piv::tlv;
use vstd::prelude::*;
use vstd::slice::slice_subrange;

verus! {

/// Application identifier of the PIV applet.
pub const PIV_AID: [u8; 9] = [0xa0, 0x00, 0x00, 0x03, 0x08, 0x00, 0x00, 0x10, 0x00];

/// Status word of success.
pub const SW_OK: u16 = 0x9000;

/// Size of the buffer that a response is received in.
pub const RESPONSE_SIZE: usize = 4096;

/// The last byte of a length.
pub open spec fn low_byte(len: nat) -> u8 {
    (len % 256) as u8
}

/// A short command APDU: header, the length of the data, the data, then zero to ask for all
/// available bytes. The length field is one byte wide.
pub open spec fn apdu_bytes(cla: u8, ins: u8, p1: u8, p2: u8, data: Seq<u8>) -> Seq<u8> {
    seq![cla, ins, p1, p2, low_byte(data.len())] + data + seq![0u8]
}

/// The data field of GET DATA: the tag list.
pub open spec fn get_data_body(tag: Seq<u8>) -> Seq<u8> {
    seq![0x5cu8, low_byte(tag.len())] + tag
}

/// The GET DATA command for the object with this tag.
pub open spec fn get_data_bytes(tag: Seq<u8>) -> Seq<u8> {
    apdu_bytes(0x00, 0xcb, 0x3f, 0xff, get_data_body(tag))
}

/// The dynamic authentication template: a place for the response, then the challenge.
pub open spec fn auth_template(challenge: Seq<u8>) -> Seq<u8> {
    seq![0x82u8, 0x00, 0x81, low_byte(challenge.len())] + challenge
}

/// The data field of GENERAL AUTHENTICATE.
pub open spec fn auth_body(challenge: Seq<u8>) -> Seq<u8> {
    seq![0x7cu8, low_byte(auth_template(challenge).len())] + auth_template(challenge)
}

/// The GENERAL AUTHENTICATE command for slot 9A, algorithm ECC P-256.
pub open spec fn auth_bytes(challenge: Seq<u8>) -> Seq<u8> {
    apdu_bytes(0x00, 0x87, 0x11, 0x9a, auth_body(challenge))
}

/// The last byte of a length, computed.
fn length_byte(len: usize) -> (b: u8)
    ensures
        b == low_byte(len as nat),
{
    (len % 256) as u8
}

/// Case-3/4 short APDU: header, Lc, data, then Le = 0 (request all available bytes).
pub fn apdu(cla: u8, ins: u8, p1: u8, p2: u8, data: &[u8]) -> (command: Vec<u8>)
    ensures
        command@ == apdu_bytes(cla, ins, p1, p2, data@),
{
    let mut command = vec![cla, ins, p1, p2, length_byte(data.len())];
    command.extend_from_slice(data);
    command.push(0x00);
    assert(command@ =~= apdu_bytes(cla, ins, p1, p2, data@));
    command
}

/// GET DATA for the object with this tag.
pub fn get_data(tag: &[u8]) -> (command: Vec<u8>)
    ensures
        command@ == get_data_bytes(tag@),
{
    let mut tag_list = vec![0x5c, length_byte(tag.len())];
    tag_list.extend_from_slice(tag);
    assert(tag_list@ =~= get_data_body(tag@));
    apdu(0x00, 0xcb, 0x3f, 0xff, tag_list.as_slice())
}

/// GENERAL AUTHENTICATE over this challenge with the key of slot 9A.
pub fn general_authenticate(challenge: &[u8; 32]) -> (command: Vec<u8>)
    ensures
        command@ == auth_bytes(challenge@),
{
    let mut template = vec![0x82, 0x00, 0x81, length_byte(32)];
    template.extend_from_slice(challenge.as_slice());
    assert(template@ =~= auth_template(challenge@));
    let mut data = vec![0x7c, length_byte(template.len())];
    data.extend_from_slice(template.as_slice());
    assert(data@ =~= auth_body(challenge@));
    apdu(0x00, 0x87, 0x11, 0x9a, data.as_slice())
}

/// The challenge that the device is asked to sign: byte `i` is `7 * i + 3`.
pub fn challenge() -> (bytes: [u8; 32])
    ensures
        forall|i: int| 0 <= i < 32 ==> #[trigger] bytes@[i] == 7 * i + 3,
{
    let mut bytes = [0u8; 32];
    let mut i: usize = 0;
    while i < 32
        invariant
            i <= 32,
            forall|j: int| 0 <= j < i ==> #[trigger] bytes@[j] == 7 * j + 3,
        decreases 32 - i,
    {
        bytes[i] = (7 * i + 3) as u8;
        i += 1;
    }
    bytes
}

/// A response is too short to hold a status word.
#[derive(Clone, Copy, Debug, PartialEq, Eq, Structural)]
pub struct ResponseTooShort;

/// The status word at the end of a response.
pub open spec fn status_word(response: Seq<u8>) -> u16
    recommends
        response.len() >= 2,
{
    (response[response.len() - 2] * 256 + response[response.len() - 1]) as u16
}

/// The data in front of the status word.
pub open spec fn response_data(response: Seq<u8>) -> Seq<u8>
    recommends
        response.len() >= 2,
{
    response.take(response.len() - 2)
}

/// Splits a response into its data and its status word.
pub fn split_sw(resp: &[u8]) -> (out: Result<(&[u8], u16), ResponseTooShort>)
    ensures
        match out {
            Ok((data, sw)) => {
                &&& resp@.len() >= 2
                &&& data@ == response_data(resp@)
                &&& sw == status_word(resp@)
            },
            Err(_) => resp@.len() < 2,
        },
{
    let len: usize = resp.len();
    if len < 2 {
        return Err(ResponseTooShort);
    }
    let data = slice_subrange(resp, 0, len - 2);
    assert(data@ == response_data(resp@));
    Ok((data, resp[len - 2] as u16 * 256 + resp[len - 1] as u16))
}

/// Two lower-case hexadecimal digits for each byte.
pub fn hex(bytes: &[u8]) -> (text: String)
    ensures
        text@ == hexadecimal::hex_text(bytes@),
{
    hexadecimal::encode(bytes)
}

/// A status word that announces more response bytes.
pub open spec fn more_available(sw: u16) -> bool {
    sw / 256 == 0x61
}

/// The GET RESPONSE command for the number of bytes that a status word announces.
pub open spec fn get_response_bytes(sw: u16) -> Seq<u8> {
    seq![0x00u8, 0xc0, 0x00, 0x00, (sw % 256) as u8]
}

/// What an exchange has come to: what to send next, what has been received so far, and the
/// final status word once there is one.
#[verifier::ext_equal]
pub struct ExchangeView {
    pub command: Seq<u8>,
    pub data: Seq<u8>,
    pub status: Option<u16>,
}

/// An exchange at its start.
pub open spec fn exchange_of(command: Seq<u8>) -> ExchangeView {
    ExchangeView { command, data: Seq::empty(), status: None }
}

/// An exchange after one more response.
pub open spec fn after_response(v: ExchangeView, response: Seq<u8>) -> ExchangeView {
    let sw = status_word(response);
    if more_available(sw) {
        ExchangeView {
            command: get_response_bytes(sw),
            data: v.data + response_data(response),
            status: None,
        }
    } else {
        ExchangeView { data: v.data + response_data(response), status: Some(sw), ..v }
    }
}

/// One command and the responses to it, over as many GET RESPONSE rounds as the card asks
/// for.
pub struct Exchange {
    command: Vec<u8>,
    data: Vec<u8>,
    status: Option<u16>,
}

impl View for Exchange {
    type V = ExchangeView;

    closed spec fn view(&self) -> ExchangeView {
        ExchangeView { command: self.command@, data: self.data@, status: self.status }
    }
}

impl Exchange {
    /// The exchange for this command.
    pub fn new(send: &[u8]) -> (exchange: Exchange)
        ensures
            exchange@ == exchange_of(send@),
    {
        let mut command: Vec<u8> = Vec::new();
        command.extend_from_slice(send);
        assert(command@ =~= send@);
        Exchange { command, data: Vec::new(), status: None }
    }

    /// The command to send next, until the final status word is in.
    pub fn command(&self) -> (command: Option<&[u8]>)
        ensures
            match command {
                Some(bytes) => self@.status is None && bytes@ == self@.command,
                None => self@.status is Some,
            },
    {
        match self.status {
            None => Some(self.command.as_slice()),
            Some(_) => None,
        }
    }

    /// Takes in the response to the command. A response without a status word changes
    /// nothing.
    pub fn answer(&mut self, resp: &[u8]) -> (out: Result<(), ResponseTooShort>)
        requires
            old(self)@.status is None,
        ensures
            match out {
                Ok(()) => resp@.len() >= 2 && final(self)@ == after_response(old(self)@, resp@),
                Err(_) => resp@.len() < 2 && final(self)@ == old(self)@,
            },
    {
        match split_sw(resp) {
            Ok((data, sw)) => {
                self.data.extend_from_slice(data);
                if sw / 256 == 0x61 {
                    self.command = vec![0x00, 0xc0, 0x00, 0x00, (sw % 256) as u8];
                    assert(self.command@ =~= get_response_bytes(sw));
                } else {
                    self.status = Some(sw);
                }
                assert(self@ =~= after_response(old(self)@, resp@));
                Ok(())
            },
            Err(e) => Err(e),
        }
    }

    /// All the data received, and the final status word once it is in.
    pub fn finish(self) -> (out: (Vec<u8>, Option<u16>))
        ensures
            out.0@ == self@.data,
            out.1 == self@.status,
    {
        (self.data, self.status)
    }
}

/// An exchange after a run of responses.
pub open spec fn after_responses(v: ExchangeView, responses: Seq<Seq<u8>>) -> ExchangeView
    decreases responses.len(),
{
    if responses.len() == 0 {
        v
    } else {
        after_response(after_responses(v, responses.drop_last()), responses.last())
    }
}

/// The data of a run of responses, put end to end.
pub open spec fn joined_data(responses: Seq<Seq<u8>>) -> Seq<u8>
    decreases responses.len(),
{
    if responses.len() == 0 {
        Seq::empty()
    } else {
        joined_data(responses.drop_last()) + response_data(responses.last())
    }
}

/// A chained response arrives whole: however many rounds the card asks for, the exchange ends
/// with the data of all rounds, in order, and with the status word of the last. Until then
/// each command asks for the number of bytes that the last status word announced.
pub proof fn law_chained_response(command: Seq<u8>, responses: Seq<Seq<u8>>)
    requires
        responses.len() > 0,
        forall|i: int| 0 <= i < responses.len() ==> (#[trigger] responses[i]).len() >= 2,
        forall|i: int|
            0 <= i < responses.len() - 1 ==> more_available(
                status_word(#[trigger] responses[i]),
            ),
    ensures
        ({
            let end = after_responses(exchange_of(command), responses);
            let sw = status_word(responses.last());
            &&& end.data == joined_data(responses)
            &&& more_available(sw) ==> end.status is None && end.command == get_response_bytes(sw)
            &&& !more_available(sw) ==> end.status == Some(sw)
        }),
    decreases responses.len(),
{
    let before = responses.drop_last();
    if before.len() > 0 {
        assert forall|i: int| 0 <= i < before.len() implies (#[trigger] before[i]).len() >= 2 by {
            assert(before[i] == responses[i]);
        }
        assert forall|i: int| 0 <= i < before.len() - 1 implies more_available(
            status_word(#[trigger] before[i]),
        ) by {
            assert(before[i] == responses[i]);
        }
        law_chained_response(command, before);
    } else {
        assert(after_responses(exchange_of(command), before) == exchange_of(command));
        assert(joined_data(before) == Seq::<u8>::empty());
    }
}

/// Splitting undoes the joining of data and status word.
pub proof fn law_split_joined(data: Seq<u8>, sw: u16)
    ensures
        ({
            let response = data + seq![(sw / 256) as u8, (sw % 256) as u8];
            response_data(response) == data && status_word(response) == sw
        }),
{
    let response = data + seq![(sw / 256) as u8, (sw % 256) as u8];
    assert(response_data(response) =~= data);
}

/// The command gives its parts back: the five header bytes, the data, and the closing zero.
pub proof fn law_apdu_parts(cla: u8, ins: u8, p1: u8, p2: u8, data: Seq<u8>)
    ensures
        ({
            let command = apdu_bytes(cla, ins, p1, p2, data);
            &&& command.len() == data.len() + 6
            &&& command.take(4) == seq![cla, ins, p1, p2]
            &&& data.len() < 256 ==> command[4] == data.len()
            &&& command[4] == data.len() % 256
            &&& command.subrange(5, 5int + data.len()) == data
            &&& command.last() == 0
        }),
{
    let command = apdu_bytes(cla, ins, p1, p2, data);
    assert(command.take(4) =~= seq![cla, ins, p1, p2]);
    assert(command.subrange(5, 5int + data.len()) =~= data);
}

/// The tag list of GET DATA is one TLV around the tag, for every tag whose length a short length
/// byte can state.
pub proof fn law_get_data_is_tlv(tag: Seq<u8>)
    requires
        tag.len() < 0x80,
    ensures
        tlv::first_tlv(get_data_body(tag)) == Some((0x5cu8, tag, Seq::<u8>::empty())),
{
    let body = get_data_body(tag);
    assert(body.subrange(2, 2 + tag.len() as int) =~= tag);
    assert(body.skip(2 + tag.len() as int) =~= Seq::<u8>::empty());
}

/// The body of GENERAL AUTHENTICATE is a template that holds the challenge under 0x81 and an
/// empty response under 0x82.
pub proof fn law_auth_body_is_tlv(challenge: Seq<u8>)
    requires
        challenge.len() == 32,
    ensures
        tlv::unwrapped(auth_body(challenge), 0x7c) is Ok,
        tlv::tlv_value(tlv::unwrapped(auth_body(challenge), 0x7c)->Ok_0, 0x81) == Some(challenge),
        tlv::tlv_value(tlv::unwrapped(auth_body(challenge), 0x7c)->Ok_0, 0x82) == Some(Seq::<u8>::empty()),
{
    let template = auth_template(challenge);
    tlv::law_tlv_read_back(tlv::LengthForm::Short, 0x7c, template, Seq::empty());
    assert(tlv::tlv_bytes(tlv::LengthForm::Short, 0x7c, template) + Seq::<u8>::empty()
        =~= auth_body(challenge));
    let short = tlv::LengthForm::Short;
    let second = tlv::tlv_bytes(short, 0x81, challenge);
    tlv::lemma_search_step(short, 0x82, Seq::empty(), second, 0x82);
    tlv::lemma_search_step(short, 0x82, Seq::empty(), second, 0x81);
    assert(tlv::tlv_bytes(short, 0x82, Seq::empty()) + second =~= template);
    tlv::lemma_search_step(short, 0x81, challenge, Seq::empty(), 0x81);
    assert(second + Seq::<u8>::empty() =~= second);
}

/// GET DATA is the command 00 CB 3F FF around one TLV, tagged 5C, whose value is the tag asked for.
pub proof fn law_get_data_asks_for_tag(tag: Seq<u8>)
    requires
        tag.len() < 0x80,
    ensures
        ({
            let command = get_data_bytes(tag);
            &&& command.len() == tag.len() + 8
            &&& command.take(4) == seq![0x00u8, 0xcb, 0x3f, 0xff]
            &&& command[4] == tag.len() + 2
            &&& tlv::unwrapped(command.subrange(5, command.len() - 1), 0x5c) == Ok::<
                Seq<u8>,
                tlv::TlvError,
            >(tag)
            &&& command.last() == 0
        }),
{
    let body = get_data_body(tag);
    let command = get_data_bytes(tag);
    law_apdu_parts(0x00, 0xcb, 0x3f, 0xff, body);
    law_get_data_is_tlv(tag);
    assert(command.subrange(5, command.len() - 1) =~= body);
}

/// GENERAL AUTHENTICATE is the command 00 87 11 9A around one TLV, tagged 7C, which holds the
/// challenge under 81 and an empty place for the response under 82.
pub proof fn law_authenticate_asks_for_challenge(challenge: Seq<u8>)
    requires
        challenge.len() == 32,
    ensures
        ({
            let command = auth_bytes(challenge);
            let template = tlv::unwrapped(command.subrange(5, command.len() - 1), 0x7c);
            &&& command.len() == 44
            &&& command.take(4) == seq![0x00u8, 0x87, 0x11, 0x9a]
            &&& command[4] == 38
            &&& template is Ok
            &&& tlv::tlv_value(template->Ok_0, 0x81) == Some(challenge)
            &&& tlv::tlv_value(template->Ok_0, 0x82) == Some(Seq::<u8>::empty())
            &&& command.last() == 0
        }),
{
    let body = auth_body(challenge);
    let command = auth_bytes(challenge);
    law_apdu_parts(0x00, 0x87, 0x11, 0x9a, body);
    law_auth_body_is_tlv(challenge);
    assert(command.subrange(5, command.len() - 1) =~= body);
}

/// A response of data and a status word, taken in: its data is added to what was received; a
/// status word 61 XX asks for a GET RESPONSE over XX bytes, and any other ends the exchange.
pub proof fn law_response_taken_in(v: ExchangeView, data: Seq<u8>, high: u8, low: u8)
    ensures
        ({
            let now = after_response(v, data + seq![high, low]);
            &&& now.data == v.data + data
            &&& high == 0x61 ==> now.status is None && now.command == seq![
                0x00u8,
                0xc0,
                0x00,
                0x00,
                low,
            ]
            &&& high != 0x61 ==> now.status == Some((high * 256 + low) as u16) && now.command
                == v.command
        }),
{
    let response = data + seq![high, low];
    let sw = (high * 256 + low) as u16;
    assert(response_data(response) =~= data);
    assert(status_word(response) == sw);
    assert(sw / 256 == high as u16 && sw % 256 == low as u16);
}

/// An exchange starts with the command it was made for, and has received nothing.
pub proof fn law_exchange_starts(command: Seq<u8>)
    ensures
        exchange_of(command).command == command,
        exchange_of(command).data.len() == 0,
        exchange_of(command).status is None,
{
}

/// Where the bytes of GET DATA stand, for a tag of any length: each of the two lengths is what one
/// byte holds of it.
pub proof fn law_get_data_layout(tag: Seq<u8>)
    ensures
        ({
            let command = get_data_bytes(tag);
            &&& command.len() == tag.len() + 8
            &&& command.take(4) == seq![0x00u8, 0xcb, 0x3f, 0xff]
            &&& command[4] == (tag.len() + 2) % 256
            &&& command[5] == 0x5c
            &&& command[6] == tag.len() % 256
            &&& command.subrange(7, 7 + tag.len() as int) == tag
            &&& command.last() == 0
        }),
{
    let body = get_data_body(tag);
    let command = get_data_bytes(tag);
    law_apdu_parts(0x00, 0xcb, 0x3f, 0xff, body);
    let field = command.subrange(5, 5 + body.len() as int);
    assert(field == body);
    assert(command[5] == field[0] && command[6] == field[1]);
    assert(command.subrange(7, 7 + tag.len() as int) =~= tag);
}

/// The applet's identifier, success, and the room for a response.
pub proof fn law_card_constants()
    ensures
        PIV_AID@ == seq![0xa0u8, 0x00, 0x00, 0x03, 0x08, 0x00, 0x00, 0x10, 0x00],
        SW_OK == 0x9000,
        RESPONSE_SIZE == 4096,
{
    assert(PIV_AID@ =~= seq![0xa0u8, 0x00, 0x00, 0x03, 0x08, 0x00, 0x00, 0x10, 0x00]);
}

} // verus!
