//! What to show of the descriptors of CCID smart-card readers.
//!
//! Two readers are compared by their descriptors: the endpoints, and the fields of the CCID
//! functional descriptor that drive the host.

use crate::text;
use crate::usb::TransferType;
use vstd::prelude::*;

verus! {

/// Interface class of a smart-card reader.
pub const CCID_CLASS: u8 = 0x0b;

/// Type of the CCID functional descriptor.
pub const CCID_FUNCTIONAL: u8 = 0x21;

/// Size of a CCID functional descriptor, as far as it is read.
pub const CCID_FUNCTIONAL_SIZE: usize = 48;

/// Which devices and interfaces to show.
pub struct Args {
    /// Only show devices whose product string contains this, upper and lower case alike.
    pub filter: Option<String>,
    /// Show every interface, not only smart-card readers.
    pub all: bool,
}

/// An endpoint descriptor.
#[derive(Clone, Copy, Debug, PartialEq, Eq, Structural)]
pub struct Endpoint {
    pub address: u8,
    pub transfer_type: TransferType,
    pub max_packet_size: usize,
    pub interval: u8,
}

/// A descriptor of another type.
pub struct Descriptor {
    pub descriptor_type: u8,
    /// The whole descriptor, its length and type first.
    pub bytes: Vec<u8>,
}

/// An alternate setting of an interface.
pub struct AltSetting {
    pub interface_number: u8,
    pub class: u8,
    pub subclass: u8,
    pub protocol: u8,
    pub endpoints: Vec<Endpoint>,
    pub descriptors: Vec<Descriptor>,
}

/// What a CCID functional descriptor says.
#[derive(Clone, Copy, Debug, PartialEq, Eq, Structural)]
pub enum CcidFunctional {
    /// The descriptor is too short.
    Truncated { len: usize },
    Fields {
        max_slot_index: u8,
        voltage_support: u8,
        protocols: u32,
        features: u32,
        max_message_length: u32,
    },
}

/// One line of a report, or the lines of one functional descriptor.
#[derive(Clone, Copy, Debug, PartialEq, Eq, Structural)]
pub enum ReportLine {
    /// The device's numbers and name.
    Header,
    Interface { number: u8, class: u8, subclass: u8, protocol: u8, ccid: bool },
    Endpoint { endpoint: Endpoint, inbound: bool },
    Functional(CcidFunctional),
}

/// The name that is shown for a device: its product string, or one that stands for none.
pub open spec fn product_text(product: Option<String>) -> Seq<char> {
    match product {
        Some(name) => name@,
        None => "<unknown>"@,
    }
}

/// The device's product string, or a name that stands for none.
pub fn product_name(product: Option<String>) -> (name: String)
    ensures
        name@ == product_text(product),
{
    match product {
        Some(name) => name,
        None => "<unknown>".to_owned(),
    }
}

/// A device with this name is shown.
pub open spec fn selected(product: Seq<char>, filter: Option<Seq<char>>) -> bool {
    filter is Some ==> text::contains_text(text::lowercase(product), text::lowercase(filter->0))
}

/// `s` with the letters A to Z turned into a to z.
pub open spec fn ascii_lowercase(s: Seq<char>) -> Seq<char> {
    s.map_values(|c: char| text::ascii_lower(c))
}

/// Is a device with this name to be shown? Its name is searched for the wanted text, upper
/// and lower case alike.
pub fn selects(product: &str, args: &Args) -> (show: bool)
    ensures
        args.filter is None ==> show,
        args.filter is Some ==> show == selected(product@, Some(args.filter->0@)),
        args.filter is Some && text::is_ascii_text(product@) && text::is_ascii_text(args.filter->0@)
            ==> show == text::contains_text(
            ascii_lowercase(product@),
            ascii_lowercase(args.filter->0@),
        ),
{
    match &args.filter {
        Some(want) => {
            let name = product.to_lowercase();
            let part = want.as_str().to_lowercase();
            text::contains(name.as_str(), part.as_str())
        },
        None => true,
    }
}

/// The name of a transfer type.
pub open spec fn transfer_name(t: TransferType) -> Seq<char> {
    match t {
        TransferType::Control => "Control"@,
        TransferType::Isochronous => "Isochronous"@,
        TransferType::Bulk => "Bulk"@,
        TransferType::Interrupt => "Interrupt"@,
    }
}

/// The name of a transfer type.
pub fn transfer_type(t: TransferType) -> (name: &'static str)
    ensures
        name@ == transfer_name(t),
{
    match t {
        TransferType::Control => "Control",
        TransferType::Isochronous => "Isochronous",
        TransferType::Bulk => "Bulk",
        TransferType::Interrupt => "Interrupt",
    }
}

/// The number in the four bytes from `at` on, the lowest byte first.
pub open spec fn little_endian_u32(d: Seq<u8>, at: int) -> u32 {
    (d[at] + d[at + 1] * 0x100 + d[at + 2] * 0x1_0000 + d[at + 3] * 0x100_0000) as u32
}

/// The number in the four bytes from `at` on, the lowest byte first.
fn le32(d: &[u8], at: usize) -> (value: u32)
    requires
        at + 4 <= d@.len(),
    ensures
        value == little_endian_u32(d@, at as int),
{
    d[at] as u32 + d[at + 1] as u32 * 0x100 + d[at + 2] as u32 * 0x1_0000 + d[at + 3] as u32
        * 0x100_0000
}

/// What a CCID functional descriptor says: its slots, voltages, protocols, features and
/// longest message.
pub open spec fn functional_fields(d: Seq<u8>) -> CcidFunctional {
    if d.len() < CCID_FUNCTIONAL_SIZE {
        CcidFunctional::Truncated { len: d.len() as usize }
    } else {
        CcidFunctional::Fields {
            max_slot_index: d[4],
            voltage_support: d[5],
            protocols: little_endian_u32(d, 6),
            features: little_endian_u32(d, 40),
            max_message_length: little_endian_u32(d, 44),
        }
    }
}

/// Decodes the fields of a CCID functional descriptor that drive the host.
pub fn decode_ccid_functional(d: &[u8]) -> (info: CcidFunctional)
    ensures
        info == functional_fields(d@),
{
    if d.len() < CCID_FUNCTIONAL_SIZE {
        return CcidFunctional::Truncated { len: d.len() };
    }
    CcidFunctional::Fields {
        max_slot_index: d[4],
        voltage_support: d[5],
        protocols: le32(d, 6),
        features: le32(d, 40),
        max_message_length: le32(d, 44),
    }
}

/// The setting is one of a smart-card reader.
pub open spec fn is_ccid(setting: AltSetting) -> bool {
    setting.class == CCID_CLASS
}

/// The line of an endpoint: the highest bit of its address tells its direction.
pub open spec fn endpoint_line(endpoint: Endpoint) -> ReportLine {
    ReportLine::Endpoint { endpoint, inbound: endpoint.address >= 0x80 }
}

/// The line of a setting.
pub open spec fn interface_line(setting: AltSetting) -> ReportLine {
    ReportLine::Interface {
        number: setting.interface_number,
        class: setting.class,
        subclass: setting.subclass,
        protocol: setting.protocol,
        ccid: is_ccid(setting),
    }
}

/// The lines of the functional descriptors among these descriptors.
pub open spec fn functional_lines(descriptors: Seq<Descriptor>) -> Seq<ReportLine>
    decreases descriptors.len(),
{
    if descriptors.len() == 0 {
        Seq::empty()
    } else {
        let before = functional_lines(descriptors.drop_last());
        let last = descriptors.last();
        if last.descriptor_type == CCID_FUNCTIONAL {
            before.push(ReportLine::Functional(functional_fields(last.bytes@)))
        } else {
            before
        }
    }
}

/// The lines of a setting: the interface, its endpoints and, of a reader, its functional
/// descriptors.
pub open spec fn setting_lines(setting: AltSetting) -> Seq<ReportLine> {
    let endpoints = setting.endpoints@.map_values(|e: Endpoint| endpoint_line(e));
    let functional = if is_ccid(setting) {
        functional_lines(setting.descriptors@)
    } else {
        Seq::empty()
    };
    seq![interface_line(setting)] + endpoints + functional
}

/// The lines of the settings that are shown.
pub open spec fn shown_lines(settings: Seq<AltSetting>, all: bool) -> Seq<ReportLine>
    decreases settings.len(),
{
    if settings.len() == 0 {
        Seq::empty()
    } else {
        let before = shown_lines(settings.drop_last(), all);
        if is_ccid(settings.last()) || all {
            before + setting_lines(settings.last())
        } else {
            before
        }
    }
}

/// What is shown of a device: nothing, or its header and the settings that are shown.
pub open spec fn report_lines(settings: Seq<AltSetting>, all: bool) -> Seq<ReportLine> {
    let lines = shown_lines(settings, all);
    if lines.len() == 0 {
        lines
    } else {
        seq![ReportLine::Header] + lines
    }
}

/// Adds the lines of a setting.
fn push_setting(lines: &mut Vec<ReportLine>, setting: &AltSetting)
    ensures
        final(lines)@ == old(lines)@ + setting_lines(*setting),
{
    let ccid = setting.class == CCID_CLASS;
    let ghost start = lines@;
    let ghost head = seq![interface_line(*setting)];
    let ghost endpoints = setting.endpoints@.map_values(|e: Endpoint| endpoint_line(e));
    lines.push(
        ReportLine::Interface {
            number: setting.interface_number,
            class: setting.class,
            subclass: setting.subclass,
            protocol: setting.protocol,
            ccid,
        },
    );
    let mut i: usize = 0;
    assert(lines@ == start + head + endpoints.take(0));
    while i < setting.endpoints.len()
        invariant
            i <= setting.endpoints@.len(),
            endpoints == setting.endpoints@.map_values(|e: Endpoint| endpoint_line(e)),
            lines@ == start + head + endpoints.take(i as int),
        decreases setting.endpoints@.len() - i,
    {
        let endpoint = setting.endpoints[i];
        let address = endpoint.address;
        assert((address & 0x80 != 0) == (address >= 0x80)) by (bit_vector);
        lines.push(ReportLine::Endpoint { endpoint, inbound: address & 0x80 != 0 });
        assert(endpoints.take(i + 1) == endpoints.take(i as int).push(endpoints[i as int]));
        i += 1;
    }
    assert(endpoints.take(i as int) == endpoints);
    if ccid {
        let mut d: usize = 0;
        assert(setting.descriptors@.take(0) == Seq::<Descriptor>::empty());
        while d < setting.descriptors.len()
            invariant
                d <= setting.descriptors@.len(),
                lines@ == start + head + endpoints + functional_lines(
                    setting.descriptors@.take(d as int),
                ),
            decreases setting.descriptors@.len() - d,
        {
            let descriptor = &setting.descriptors[d];
            assert(setting.descriptors@.take(d + 1).drop_last() == setting.descriptors@.take(
                d as int,
            ));
            if descriptor.descriptor_type == CCID_FUNCTIONAL {
                lines.push(
                    ReportLine::Functional(decode_ccid_functional(descriptor.bytes.as_slice())),
                );
            }
            d += 1;
        }
        assert(setting.descriptors@.take(d as int) == setting.descriptors@);
    }
    assert(lines@ == start + setting_lines(*setting));
}

/// What to show of a device: its settings in order, those of readers or all of them, after
/// one header.
pub fn report(settings: &Vec<AltSetting>, all: bool) -> (lines: Vec<ReportLine>)
    ensures
        lines@ == report_lines(settings@, all),
{
    let mut lines: Vec<ReportLine> = Vec::new();
    let mut i: usize = 0;
    assert(settings@.take(0) == Seq::<AltSetting>::empty());
    while i < settings.len()
        invariant
            i <= settings@.len(),
            lines@ == report_lines(settings@.take(i as int), all),
        decreases settings@.len() - i,
    {
        let setting = &settings[i];
        let ghost before = settings@.take(i as int);
        proof {
            assert(settings@.take(i + 1).drop_last() == before);
        }
        if setting.class == CCID_CLASS || all {
            if lines.len() == 0 {
                lines.push(ReportLine::Header);
            }
            assert(lines@ == seq![ReportLine::Header] + shown_lines(before, all));
            push_setting(&mut lines, setting);
            assert(lines@ == report_lines(settings@.take(i + 1), all));
        }
        i += 1;
    }
    assert(settings@.take(i as int) == settings@);
    lines
}

/// Names and texts that differ in case alone are selected alike.
pub proof fn law_filter_ignores_case(
    product: Seq<char>,
    other_product: Seq<char>,
    want: Seq<char>,
    other_want: Seq<char>,
)
    requires
        text::lowercase(product) == text::lowercase(other_product),
        text::lowercase(want) == text::lowercase(other_want),
    ensures
        selected(product, Some(want)) == selected(other_product, Some(other_want)),
{
}

/// The lines of the descriptors are all functional.
proof fn lemma_functional_lines(descriptors: Seq<Descriptor>)
    ensures
        forall|i: int|
            0 <= i < functional_lines(descriptors).len()
                ==> (#[trigger] functional_lines(descriptors)[i]) is Functional,
    decreases descriptors.len(),
{
    if descriptors.len() > 0 {
        lemma_functional_lines(descriptors.drop_last());
        let before = functional_lines(descriptors.drop_last());
        assert forall|i: int| 0 <= i < functional_lines(descriptors).len() implies (
        #[trigger] functional_lines(descriptors)[i]) is Functional by {
            if i < before.len() {
                assert(functional_lines(descriptors)[i] == before[i]);
            }
        }
    }
}

/// No line of a setting is a header, and its one interface line is the setting's.
proof fn lemma_setting_lines(setting: AltSetting)
    ensures
        setting_lines(setting)[0] == interface_line(setting),
        forall|i: int|
            1 <= i < setting_lines(setting).len() ==> {
                let line = #[trigger] setting_lines(setting)[i];
                line is Endpoint || line is Functional
            },
{
    let functional = if is_ccid(setting) {
        functional_lines(setting.descriptors@)
    } else {
        Seq::empty()
    };
    let n = setting.endpoints@.len();
    lemma_functional_lines(setting.descriptors@);
    assert forall|i: int| 1 <= i < setting_lines(setting).len() implies {
        let line = #[trigger] setting_lines(setting)[i];
        line is Endpoint || line is Functional
    } by {
        if i > n {
            assert(setting_lines(setting)[i] == functional[i - 1 - n]);
        }
    }
}

/// The shown lines hold no header and, unless all is shown, only interfaces of readers; they
/// are none exactly where no setting is shown.
proof fn lemma_shown_lines(settings: Seq<AltSetting>, all: bool)
    ensures
        forall|i: int|
            0 <= i < shown_lines(settings, all).len() ==> {
                let line = #[trigger] shown_lines(settings, all)[i];
                &&& line != ReportLine::Header
                &&& !all && line is Interface ==> line->Interface_ccid
            },
        shown_lines(settings, all).len() == 0 <==> forall|i: int|
            0 <= i < settings.len() ==> !is_ccid(#[trigger] settings[i]) && !all,
    decreases settings.len(),
{
    if settings.len() > 0 {
        let rest = settings.drop_last();
        lemma_shown_lines(rest, all);
        lemma_setting_lines(settings.last());
        let before = shown_lines(rest, all);
        let last = setting_lines(settings.last());
        assert forall|i: int| 0 <= i < shown_lines(settings, all).len() implies {
            let line = #[trigger] shown_lines(settings, all)[i];
            &&& line != ReportLine::Header
            &&& !all && line is Interface ==> line->Interface_ccid
        } by {
            if i < before.len() {
                assert(shown_lines(settings, all)[i] == before[i]);
            } else {
                assert(shown_lines(settings, all)[i] == last[i - before.len()]);
            }
        }
        if is_ccid(settings.last()) || all {
            assert(last.len() > 0);
            assert(!(!is_ccid(settings[settings.len() - 1]) && !all));
        } else {
            assert forall|i: int| 0 <= i < rest.len() implies rest[i] == settings[i] by {}
            if before.len() == 0 {
                assert forall|i: int| 0 <= i < settings.len() implies !is_ccid(
                    #[trigger] settings[i],
                ) && !all by {
                    if i < rest.len() {
                        assert(rest[i] == settings[i]);
                    }
                }
            } else if forall|i: int|
                0 <= i < settings.len() ==> !is_ccid(#[trigger] settings[i]) && !all {
                assert forall|i: int| 0 <= i < rest.len() implies !is_ccid(#[trigger] rest[i])
                    && !all by {
                    assert(rest[i] == settings[i]);
                }
            }
        }
    }
}

/// A device's header is shown once, before all else, and only where one of its settings is
/// shown: one of a reader, or any at all where every interface is asked for.
pub proof fn law_one_header(settings: Seq<AltSetting>, all: bool)
    ensures
        report_lines(settings, all).len() == 0 <==> forall|i: int|
            0 <= i < settings.len() ==> !is_ccid(#[trigger] settings[i]) && !all,
        forall|i: int|
            0 <= i < report_lines(settings, all).len() ==> (i == 0
                <==> #[trigger] report_lines(settings, all)[i] == ReportLine::Header),
{
    lemma_shown_lines(settings, all);
    let lines = shown_lines(settings, all);
    assert forall|i: int| 0 <= i < report_lines(settings, all).len() implies (i == 0
        <==> #[trigger] report_lines(settings, all)[i] == ReportLine::Header) by {
        if i > 0 {
            assert(report_lines(settings, all)[i] == lines[i - 1]);
        }
    }
}

/// Unless every interface is asked for, only interfaces of readers are shown.
pub proof fn law_only_readers(settings: Seq<AltSetting>, i: int)
    requires
        0 <= i < report_lines(settings, false).len(),
        report_lines(settings, false)[i] is Interface,
    ensures
        report_lines(settings, false)[i]->Interface_ccid,
{
    lemma_shown_lines(settings, false);
    let lines = shown_lines(settings, false);
    if i > 0 {
        assert(report_lines(settings, false)[i] == lines[i - 1]);
    }
}

/// A device without a filter is shown; with one it is shown exactly where the lower-case form of
/// its name is that of the wanted text with something, or nothing, in front and behind.
pub proof fn law_filter(product: Seq<char>, want: Seq<char>)
    ensures
        selected(product, None),
        selected(product, Some(want)) <==> exists|before: Seq<char>, after: Seq<char>|
            text::lowercase(product) == #[trigger] (before + text::lowercase(want) + after),
{
    text::law_contains(text::lowercase(product), text::lowercase(want));
}

/// Lower-casing keeps the length and turns each letter A to Z into its small one.
pub proof fn law_ascii_lowercase(s: Seq<char>, i: int)
    ensures
        ascii_lowercase(s).len() == s.len(),
        0 <= i < s.len() && 'A' <= s[i] <= 'Z' ==> 'a' <= ascii_lowercase(s)[i] <= 'z'
            && ascii_lowercase(s)[i] as u32 - 97 == s[i] as u32 - 65,
        0 <= i < s.len() && !('A' <= s[i] <= 'Z') ==> ascii_lowercase(s)[i] == s[i],
{
    text::law_ascii_lower(s[i]);
}

/// A device is shown under its product string, or as unknown where it has none.
pub proof fn law_product_text(name: String)
    ensures
        product_text(Some(name)) == name@,
        product_text(None) == "<unknown>"@,
{
}

/// A number is read back from its four bytes, the lowest first.
pub proof fn law_little_endian(d: Seq<u8>, at: int, n: u32)
    requires
        0 <= at,
        at + 4 <= d.len(),
        d.subrange(at, at + 4) == seq![
            (n % 256) as u8,
            (n / 0x100 % 256) as u8,
            (n / 0x1_0000 % 256) as u8,
            (n / 0x100_0000) as u8,
        ],
    ensures
        little_endian_u32(d, at) == n,
{
    let four = d.subrange(at, at + 4);
    assert(d[at] == four[0] && d[at + 1] == four[1] && d[at + 2] == four[2] && d[at + 3]
        == four[3]);
    assert(n == n / 0x100 * 0x100 + n % 0x100);
    assert(n / 0x100 == n / 0x1_0000 * 0x100 + n / 0x100 % 0x100);
    assert(n / 0x1_0000 == n / 0x100_0000 * 0x100 + n / 0x1_0000 % 0x100);
}

/// Where the fields of a functional descriptor stand: slots at 4, voltages at 5, and the numbers,
/// lowest byte first, of protocols at 6, features at 40 and longest message at 44. One of less
/// than 48 bytes is truncated.
pub proof fn law_functional_fields(d: Seq<u8>)
    ensures
        d.len() < 48 ==> functional_fields(d) == (CcidFunctional::Truncated {
            len: d.len() as usize,
        }),
        d.len() >= 48 ==> {
            let info = functional_fields(d);
            &&& info is Fields
            &&& info->max_slot_index == d[4]
            &&& info->voltage_support == d[5]
            &&& info->protocols == d[6] + 256 * (d[7] + 256 * (d[8] + 256 * d[9]))
            &&& info->features == d[40] + 256 * (d[41] + 256 * (d[42] + 256 * d[43]))
            &&& info->max_message_length == d[44] + 256 * (d[45] + 256 * (d[46] + 256 * d[47]))
        },
{
}

/// The functional descriptors are those of type 21, all of them and in order.
pub proof fn law_functional_lines(descriptors: Seq<Descriptor>)
    ensures
        functional_lines(descriptors) == descriptors.filter(
            |d: Descriptor| d.descriptor_type == 0x21,
        ).map_values(|d: Descriptor| ReportLine::Functional(functional_fields(d.bytes@))),
    decreases descriptors.len(),
{
    reveal(Seq::filter);
    let wanted = |d: Descriptor| d.descriptor_type == 0x21;
    let line = |d: Descriptor| ReportLine::Functional(functional_fields(d.bytes@));
    if descriptors.len() > 0 {
        let rest = descriptors.drop_last();
        law_functional_lines(rest);
        let last = descriptors.last();
        let shown = descriptors.filter(wanted);
        if wanted(last) {
            assert(shown =~= rest.filter(wanted).push(last));
            assert(shown.map_values(line) =~= rest.filter(wanted).map_values(line).push(
                line(last),
            ));
        } else {
            assert(shown =~= rest.filter(wanted));
        }
        assert(functional_lines(descriptors) =~= shown.map_values(line));
    } else {
        assert(descriptors.filter(wanted).map_values(line) =~= Seq::<ReportLine>::empty());
    }
}

/// What is shown of one setting: first the interface with its numbers, marked as a reader exactly
/// for class 0B; then each of its endpoints, in order, inbound exactly where the highest bit of
/// its address is set; then, for a reader alone, its functional descriptors.
pub proof fn law_setting_lines(setting: AltSetting)
    ensures
        ({
            let lines = setting_lines(setting);
            let n = setting.endpoints@.len() as int;
            &&& lines.len() >= n + 1
            &&& lines[0] == (ReportLine::Interface {
                number: setting.interface_number,
                class: setting.class,
                subclass: setting.subclass,
                protocol: setting.protocol,
                ccid: setting.class == 0x0b,
            })
            &&& forall|i: int|
                0 <= i < n ==> #[trigger] lines[i + 1] == (ReportLine::Endpoint {
                    endpoint: setting.endpoints@[i],
                    inbound: setting.endpoints@[i].address >= 128,
                })
            &&& lines.skip(n + 1) == if setting.class == 0x0b {
                functional_lines(setting.descriptors@)
            } else {
                Seq::empty()
            }
        }),
{
    let lines = setting_lines(setting);
    let n = setting.endpoints@.len() as int;
    let functional = if setting.class == 0x0b {
        functional_lines(setting.descriptors@)
    } else {
        Seq::empty()
    };
    assert(lines.skip(n + 1) =~= functional);
}

/// Nothing is shown of no settings. One more setting adds its lines behind those before it where
/// it is a reader's (class 0B) or all are asked for, and nothing else; the first lines of all
/// come behind the header.
pub proof fn law_report_grows(settings: Seq<AltSetting>, setting: AltSetting, all: bool)
    ensures
        report_lines(Seq::empty(), all) == Seq::<ReportLine>::empty(),
        ({
            let before = report_lines(settings, all);
            let after = report_lines(settings.push(setting), all);
            if setting.class == 0x0b || all {
                if before.len() == 0 {
                    after == seq![ReportLine::Header] + setting_lines(setting)
                } else {
                    after == before + setting_lines(setting)
                }
            } else {
                after == before
            }
        }),
{
    let more = settings.push(setting);
    assert(more.drop_last() =~= settings);
    let lines = shown_lines(settings, all);
    let added = setting_lines(setting);
    assert(added.len() > 0);
    if setting.class == 0x0b || all {
        assert(seq![ReportLine::Header] + (lines + added) =~= seq![ReportLine::Header] + lines
            + added);
        if lines.len() == 0 {
            assert(lines + added =~= added);
        }
    }
}

/// The names of the transfer types.
pub proof fn law_transfer_names()
    ensures
        transfer_name(TransferType::Control) == "Control"@,
        transfer_name(TransferType::Isochronous) == "Isochronous"@,
        transfer_name(TransferType::Bulk) == "Bulk"@,
        transfer_name(TransferType::Interrupt) == "Interrupt"@,
{
}

} // verus!
