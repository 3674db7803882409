//! TLVs, commands and responses.

use fl::piv::apdu::{
    apdu, challenge, general_authenticate, get_data, split_sw, Exchange, ResponseTooShort, PIV_AID,
};
use fl::piv::tlv::{find_tlv, read_tlv, unwrap_tlv, TlvError};

fn long(tag: u8, len: usize) -> Vec<u8> {
    let mut data: Vec<u8> = vec![tag];
    if len < 0x80 {
        data.push(len as u8);
    } else if len < 0x100 {
        data.extend_from_slice(&[0x81, len as u8]);
    } else {
        data.extend_from_slice(&[0x82, (len >> 8) as u8, len as u8]);
    }
    data.extend((0..len).map(|i| i as u8));
    data
}

#[test]
fn read_tlv_short_form() {
    let data: [u8; 5] = [0x53, 0x02, 0xaa, 0xbb, 0xcc];
    assert_eq!(read_tlv(&data), Some((0x53, &data[2..4], &data[4..])));
}

#[test]
fn read_tlv_reads_no_other_length_form() {
    for length in (0x80u8..=0x80).chain(0x83..=0xff) {
        let mut data: Vec<u8> = vec![0x70, length];
        data.extend_from_slice(&[1u8; 0x200]);
        assert_eq!(read_tlv(&data), None);
        assert_eq!(find_tlv(&data, 0x70), None);
        assert_eq!(unwrap_tlv(&data, 0x70), Err(TlvError::Truncated));
    }
    let mut data: Vec<u8> = vec![0x70, 0x7f];
    data.extend_from_slice(&[1u8; 0x7f]);
    assert_eq!(read_tlv(&data), Some((0x70, &data[2..], &[][..])));
}

#[test]
fn read_tlv_long_forms_may_hold_short_lengths() {
    let one: [u8; 6] = [0x70, 0x81, 0x02, 0xaa, 0xbb, 0xcc];
    assert_eq!(read_tlv(&one), Some((0x70, &one[3..5], &one[5..])));
    let two: [u8; 7] = [0x70, 0x82, 0x00, 0x02, 0xaa, 0xbb, 0xcc];
    assert_eq!(read_tlv(&two), Some((0x70, &two[4..6], &two[6..])));
}

#[test]
fn read_tlv_cut_anywhere_is_not_read() {
    for len in [3usize, 0x90, 0x123] {
        let data = long(0x70, len);
        for n in 0..data.len() {
            assert_eq!(read_tlv(&data[..n]), None);
        }
        assert!(read_tlv(&data).is_some());
    }
}

#[test]
fn read_tlv_long_forms_read_back() {
    for len in [0usize, 1, 0x7f, 0x80, 0xff, 0x100, 0x1234, 0xffff] {
        let mut data = long(0x70, len);
        let header: usize = data.len() - len;
        data.extend_from_slice(&[9, 9]);
        let (tag, value, rest) = read_tlv(&data).unwrap();
        assert_eq!(tag, 0x70);
        assert_eq!(value, &data[header..header + len]);
        assert_eq!(rest, &[9, 9]);
    }
}

#[test]
fn read_tlv_truncated() {
    for data in [
        &[][..],
        &[0x53][..],
        &[0x53, 0x01][..],
        &[0x53, 0x81][..],
        &[0x53, 0x81, 0x01][..],
        &[0x53, 0x82, 0x00][..],
        &[0x53, 0x82, 0x00, 0x01][..],
    ] {
        assert_eq!(read_tlv(data), None);
    }
}

#[test]
fn find_tlv_takes_the_first_match_and_passes_over_others() {
    let data: [u8; 11] = [0x71, 0x01, 0x00, 0x70, 0x02, 0xaa, 0xbb, 0x70, 0x01, 0xcc, 0xfe];
    assert_eq!(find_tlv(&data, 0x70), Some(&[0xaa, 0xbb][..]));
    assert_eq!(find_tlv(&data, 0x71), Some(&[0x00][..]));
    assert_eq!(find_tlv(&data[..10], 0xfe), None);
    assert_eq!(find_tlv(&data, 0xfe), None);
    assert_eq!(find_tlv(&[], 0x70), None);
}

#[test]
fn unwrap_tlv_checks_the_tag() {
    let data: [u8; 3] = [0x7c, 0x01, 0x05];
    assert_eq!(unwrap_tlv(&data, 0x7c), Ok(&data[2..]));
    assert_eq!(
        unwrap_tlv(&data, 0x53),
        Err(TlvError::UnexpectedTag { expected: 0x53, found: 0x7c })
    );
    assert_eq!(unwrap_tlv(&data[..2], 0x7c), Err(TlvError::Truncated));
}

#[test]
fn unwrap_tlv_spans_the_whole_buffer() {
    assert_eq!(
        unwrap_tlv(&[0x53, 0x01, 0xaa, 0xbb], 0x53),
        Err(TlvError::Trailing { left: 1 })
    );
    assert_eq!(
        unwrap_tlv(&[0x7c, 0x01, 0x05, 0x00, 0x00], 0x53),
        Err(TlvError::UnexpectedTag { expected: 0x53, found: 0x7c })
    );
}

#[test]
fn find_tlv_searches_a_run_whatever_follows_it() {
    let mut run = long(0x71, 0x90);
    run.extend_from_slice(&[0x72, 0x81, 0x01, 0x09]);
    run.extend(long(0x70, 2));
    run.extend_from_slice(&[0x70, 0x80, 0x00]);
    assert_eq!(find_tlv(&run, 0x72), Some(&[0x09][..]));
    assert_eq!(find_tlv(&run, 0x70), Some(&[0x00, 0x01][..]));
    assert_eq!(find_tlv(&run, 0x73), None);
}

#[test]
fn apdu_has_header_length_data_and_zero() {
    assert_eq!(
        apdu(0x00, 0xa4, 0x04, 0x00, &PIV_AID),
        [0x00, 0xa4, 0x04, 0x00, 0x09, 0xa0, 0x00, 0x00, 0x03, 0x08, 0x00, 0x00, 0x10, 0x00, 0x00]
    );
    assert_eq!(apdu(1, 2, 3, 4, &[]), [1, 2, 3, 4, 0, 0]);
    assert_eq!(apdu(0, 0, 0, 0, &[0u8; 300])[4], 44);
}

#[test]
fn get_data_lists_the_tag() {
    assert_eq!(
        get_data(&[0x5f, 0xc1, 0x02]),
        [0x00, 0xcb, 0x3f, 0xff, 0x05, 0x5c, 0x03, 0x5f, 0xc1, 0x02, 0x00]
    );
    let command = get_data(&[0x5f, 0xc1, 0x05]);
    assert_eq!(find_tlv(&command[5..10], 0x5c), Some(&[0x5f, 0xc1, 0x05][..]));
}

#[test]
fn challenge_bytes() {
    let bytes = challenge();
    let expected: [u8; 32] = std::array::from_fn(|i| (i as u8).wrapping_mul(7).wrapping_add(3));
    assert_eq!(bytes, expected);
    assert_eq!((bytes[0], bytes[1], bytes[31]), (3, 10, 220));
}

#[test]
fn general_authenticate_wraps_the_challenge() {
    let command = general_authenticate(&challenge());
    assert_eq!(
        command[..11],
        [0x00, 0x87, 0x11, 0x9a, 38, 0x7c, 36, 0x82, 0x00, 0x81, 32]
    );
    assert_eq!(command[11..43], challenge());
    assert_eq!(command[43..], [0x00]);
    let inner = unwrap_tlv(&command[5..43], 0x7c).unwrap();
    assert_eq!(find_tlv(inner, 0x81), Some(&challenge()[..]));
    assert_eq!(find_tlv(inner, 0x82), Some(&[][..]));
}

#[test]
fn split_sw_takes_the_last_two_bytes() {
    assert_eq!(split_sw(&[0x01, 0x02, 0x90, 0x00]), Ok((&[0x01, 0x02][..], 0x9000)));
    assert_eq!(split_sw(&[0x6a, 0x82]), Ok((&[][..], 0x6a82)));
    assert_eq!(split_sw(&[0x90]), Err(ResponseTooShort));
    assert_eq!(split_sw(&[]), Err(ResponseTooShort));
}

#[test]
fn exchange_follows_chained_responses() {
    let send: [u8; 3] = [0x00, 0xcb, 0x3f];
    let mut exchange = Exchange::new(&send);
    assert_eq!(exchange.command(), Some(&send[..]));
    assert_eq!(exchange.answer(&[1, 2, 0x61, 0x10]), Ok(()));
    assert_eq!(exchange.command(), Some(&[0x00, 0xc0, 0x00, 0x00, 0x10][..]));
    assert_eq!(exchange.answer(&[3, 0x61, 0x00]), Ok(()));
    assert_eq!(exchange.command(), Some(&[0x00, 0xc0, 0x00, 0x00, 0x00][..]));
    assert_eq!(exchange.answer(&[4, 0x90, 0x00]), Ok(()));
    assert_eq!(exchange.command(), None);
    assert_eq!(exchange.finish(), (vec![1, 2, 3, 4], Some(0x9000)));
}

#[test]
fn exchange_ends_with_any_other_status() {
    let mut exchange = Exchange::new(&[0x00]);
    assert_eq!(exchange.answer(&[0x6a, 0x82]), Ok(()));
    assert_eq!(exchange.command(), None);
    assert_eq!(exchange.finish(), (vec![], Some(0x6a82)));
}

#[test]
fn exchange_refuses_a_response_without_status() {
    let mut exchange = Exchange::new(&[0x07]);
    assert_eq!(exchange.answer(&[0x90]), Err(ResponseTooShort));
    assert_eq!(exchange.command(), Some(&[0x07][..]));
    assert_eq!(exchange.finish(), (vec![], None));
}
