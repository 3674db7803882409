//! What is shown of USB devices, and which HID device is the one.

use fl::ccid_inspect::{
    decode_ccid_functional, product_name, report, selects, transfer_type, AltSetting, Args,
    CcidFunctional, Descriptor, Endpoint, ReportLine,
};
use fl::fido::{check_target, find_device, FidoError, HidDevice};
use fl::usb::TransferType;

fn functional() -> Vec<u8> {
    let mut d: Vec<u8> = vec![0; 54];
    d[0] = 54;
    d[1] = 0x21;
    d[4] = 2;
    d[5] = 7;
    d[6..10].copy_from_slice(&[0x03, 0, 0, 0]);
    d[40..44].copy_from_slice(&[0xfe, 0x00, 0x04, 0x80]);
    d[44..48].copy_from_slice(&[0x0f, 0x01, 0, 0]);
    d
}

const FIELDS: CcidFunctional = CcidFunctional::Fields {
    max_slot_index: 2,
    voltage_support: 7,
    protocols: 3,
    features: 0x800400fe,
    max_message_length: 271,
};

#[test]
fn functional_descriptor_fields() {
    assert_eq!(decode_ccid_functional(&functional()), FIELDS);
    assert_eq!(decode_ccid_functional(&functional()[..48]), FIELDS);
}

#[test]
fn functional_descriptor_truncated() {
    assert_eq!(decode_ccid_functional(&functional()[..47]), CcidFunctional::Truncated { len: 47 });
    assert_eq!(decode_ccid_functional(&[]), CcidFunctional::Truncated { len: 0 });
}

#[test]
fn transfer_type_names() {
    assert_eq!(transfer_type(TransferType::Control), "Control");
    assert_eq!(transfer_type(TransferType::Isochronous), "Isochronous");
    assert_eq!(transfer_type(TransferType::Bulk), "Bulk");
    assert_eq!(transfer_type(TransferType::Interrupt), "Interrupt");
}

fn filter(text: &str) -> Args {
    Args { filter: Some(text.to_string()), all: false }
}

#[test]
fn filter_ignores_case() {
    assert!(selects("YubiKey OTP+FIDO+CCID", &filter("yubi")));
    assert!(selects("YubiKey OTP+FIDO+CCID", &filter("YUBI")));
    assert!(!selects("Passport Prime", &filter("Yubi")));
    assert!(selects("GR\u{d6}SSE", &filter("gr\u{f6}ss")));
    assert!(selects("anything", &Args { filter: None, all: false }));
    assert!(selects("anything", &filter("")));
}

#[test]
fn device_without_product_string() {
    assert_eq!(product_name(None), "<unknown>");
    assert_eq!(product_name(Some("Prime".to_string())), "Prime");
    assert!(selects(&product_name(None), &filter("UNKNOWN")));
}

fn setting(interface_number: u8, class: u8) -> AltSetting {
    AltSetting {
        interface_number,
        class,
        subclass: 1,
        protocol: 2,
        endpoints: vec![
            Endpoint {
                address: 0x81,
                transfer_type: TransferType::Bulk,
                max_packet_size: 512,
                interval: 0,
            },
            Endpoint {
                address: 0x01,
                transfer_type: TransferType::Interrupt,
                max_packet_size: 8,
                interval: 24,
            },
        ],
        descriptors: vec![
            Descriptor { descriptor_type: 0x24, bytes: vec![2, 0x24] },
            Descriptor { descriptor_type: 0x21, bytes: functional() },
        ],
    }
}

fn interface(number: u8, class: u8, ccid: bool) -> ReportLine {
    ReportLine::Interface { number, class, subclass: 1, protocol: 2, ccid }
}

fn endpoints() -> [ReportLine; 2] {
    let s = setting(0, 0);
    [
        ReportLine::Endpoint { endpoint: s.endpoints[0], inbound: true },
        ReportLine::Endpoint { endpoint: s.endpoints[1], inbound: false },
    ]
}

#[test]
fn report_shows_readers_only() {
    let [e0, e1] = endpoints();
    let lines = report(&vec![setting(0, 0x03), setting(1, 0x0b)], false);
    assert_eq!(
        lines,
        [ReportLine::Header, interface(1, 0x0b, true), e0, e1, ReportLine::Functional(FIELDS)]
    );
}

#[test]
fn report_shows_all_interfaces_under_one_header() {
    let [e0, e1] = endpoints();
    let lines = report(&vec![setting(0, 0x03), setting(1, 0x0b)], true);
    assert_eq!(
        lines,
        [
            ReportLine::Header,
            interface(0, 0x03, false),
            e0,
            e1,
            interface(1, 0x0b, true),
            e0,
            e1,
            ReportLine::Functional(FIELDS),
        ]
    );
}

#[test]
fn report_is_empty_without_readers() {
    assert!(report(&vec![setting(0, 0x03)], false).is_empty());
    assert!(report(&vec![], true).is_empty());
}

#[test]
fn hosted_simulator_is_refused() {
    assert_eq!(check_target(&fl::fido::Args { hosted: true }), Err(FidoError::Hosted));
    assert_eq!(check_target(&fl::fido::Args { hosted: false }), Ok(()));
}

#[test]
fn first_matching_hid_device_is_found() {
    let prime = HidDevice { vendor_id: 0x1307, product_id: 0x0165 };
    let half = HidDevice { vendor_id: 0x1307, product_id: 0x0166 };
    let other = HidDevice { vendor_id: 0x1050, product_id: 0x0165 };
    assert_eq!(find_device(&vec![half, other, prime, prime]), Ok(2));
    assert_eq!(find_device(&vec![half, other]), Err(FidoError::NoDevice));
    assert_eq!(find_device(&vec![]), Err(FidoError::NoDevice));
}
