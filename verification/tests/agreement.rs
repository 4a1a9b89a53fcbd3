use cetus::api::a_record;
use cetus::api::aaaa_record;
use cetus::api::ns_record;
use cetus::api::soa_record;
use cetus::api::txt_record;
use cetus::api::Soa;
use cetus::message::Header;
use cetus::message::MessageType;
use cetus::message::OpCode;
use cetus::message::Protocol;
use cetus::message::ResponseCode;
use cetus::name::DomainName;
use cetus::record::DnsClass;
use cetus::record::RecordType;
use trust_dns_proto::op;
use trust_dns_proto::rr;
use trust_dns_proto::rr::rdata::SOA;
use trust_dns_proto::rr::rdata::TXT;
use trust_dns_proto::serialize::binary::BinEncodable;
use trust_dns_proto::serialize::binary::BinEncoder;
use trust_dns_server::client::rr::LowerName;
use trust_dns_server::server;

fn samples() -> Vec<rr::Name> {
    [
        ".",
        "com.",
        "example.com.",
        "Example.COM.",
        "www.example.com.",
        "WWW.example.com.",
        "www.example.com",
        "a.b.www.example.com.",
        "example.org.",
        "badexample.com.",
        "com.example.",
        "sub.example.com.",
        "*.example.com.",
        "_sip._tcp.example.com.",
        "xn--bcher-kva.example.",
    ]
    .iter()
    .map(|text| rr::Name::from_ascii(text).unwrap())
    .collect()
}

fn plain(name: &rr::Name) -> DomainName {
    DomainName::from_labels(name.iter().map(|label| label.to_vec()).collect(), name.is_fqdn()).unwrap()
}

fn labels(name: &DomainName) -> Vec<Vec<u8>> {
    (0..name.num_labels()).map(|i| name.label(i).unwrap()).collect()
}

fn rdata_bytes(data: &rr::RData) -> Vec<u8> {
    let mut bytes = Vec::new();
    {
        let mut encoder = BinEncoder::new(&mut bytes);
        encoder.set_canonical_names(true);
        data.emit(&mut encoder).unwrap();
    }
    bytes
}

#[test]
fn the_zone_relation_is_that_of_trust_dns() {
    for zone in samples() {
        for name in samples() {
            let expected = LowerName::new(&zone).zone_of(&LowerName::new(&name));
            let found = plain(&zone).to_lowercase().zone_of(&plain(&name).to_lowercase());
            assert_eq!(found, expected, "{} zone of {}", zone, name);
            assert_eq!(plain(&zone).zone_of(&plain(&name)), zone.zone_of_case(&name), "{} zone of {}", zone, name);
        }
    }
}

#[test]
fn names_are_compared_as_trust_dns_compares_them() {
    for left in samples() {
        for right in samples() {
            let expected = LowerName::new(&left) == LowerName::new(&right);
            let found = plain(&left).to_lowercase().same_name(&plain(&right).to_lowercase());
            assert_eq!(found, expected, "{} and {}", left, right);
            assert_eq!(plain(&left).same_name(&plain(&right)), left.eq_case(&right), "{} and {}", left, right);
        }
    }
}

#[test]
fn lower_case_is_that_of_trust_dns() {
    for name in samples() {
        let expected: Vec<Vec<u8>> = name.to_lowercase().iter().map(|label| label.to_vec()).collect();
        let lower = plain(&name).to_lowercase();
        assert_eq!(labels(&lower), expected);
        assert_eq!(lower.is_fqdn(), name.is_fqdn());
    }
}

#[test]
fn names_are_written_and_read_as_trust_dns_does() {
    for name in samples() {
        assert_eq!(plain(&name).to_text(), name.to_string());
        let text = name.to_string();
        let read = DomainName::from_str(&text).unwrap();
        let expected: LowerName = text.parse().unwrap();
        assert_eq!(read.to_text(), expected.to_string());
        assert_eq!(read.is_fqdn(), expected.is_fqdn());
        assert_eq!(usize::from(expected.num_labels()) + usize::from(expected.is_wildcard()), read.num_labels());
    }
}

#[test]
fn names_stand_in_record_data_as_trust_dns_puts_them() {
    for name in samples() {
        let record = cetus::api::ns_record(&plain(&name), 60, &plain(&name)).unwrap();
        assert_eq!(record.rdata(), &name.to_lowercase().to_bytes().unwrap(), "{}", name);
    }
}

#[test]
fn every_code_is_the_type_that_trust_dns_makes_of_it() {
    for code in 0..=u16::MAX {
        let expected = rr::RecordType::from(code);
        let found = RecordType::from_code(code);
        assert_eq!(found.code(), u16::from(expected));
        assert_eq!(found.code(), code);
        if code % 257 == 0 || code < 300 || code > 65300 {
            let text: &'static str = expected.into();
            assert_eq!(found.text(), text);
            assert_eq!(found.text(), expected.to_string());
        }
    }
}

#[test]
fn classes_and_transports_are_named_as_trust_dns_names_them() {
    let classes = [
        (DnsClass::IN, rr::DNSClass::IN),
        (DnsClass::CH, rr::DNSClass::CH),
        (DnsClass::HS, rr::DNSClass::HS),
        (DnsClass::NONE, rr::DNSClass::NONE),
        (DnsClass::ANY, rr::DNSClass::ANY),
        (DnsClass::OPT(4096), rr::DNSClass::OPT(4096)),
    ];
    for (class, expected) in classes {
        assert_eq!(class.text(), expected.to_string());
    }
    let transports = [
        (Protocol::Udp, server::Protocol::Udp),
        (Protocol::Tcp, server::Protocol::Tcp),
        (Protocol::Tls, server::Protocol::Tls),
        (Protocol::Dtls, server::Protocol::Dtls),
        (Protocol::Https, server::Protocol::Https),
        (Protocol::Quic, server::Protocol::Quic),
    ];
    for (transport, expected) in transports {
        assert_eq!(transport.label(), expected.to_string());
    }
}

#[test]
fn the_error_header_is_that_of_trust_dns() {
    for bits in 0u32..256 {
        let bit = |n: u32| bits & (1 << n) != 0;
        let mut request = op::Header::new();
        request
            .set_id(0x1234 ^ bits as u16)
            .set_message_type(if bit(0) { op::MessageType::Response } else { op::MessageType::Query })
            .set_op_code(if bit(1) { op::OpCode::Update } else { op::OpCode::Query })
            .set_authoritative(bit(2))
            .set_truncated(bit(3))
            .set_recursion_desired(bit(4))
            .set_recursion_available(bit(5))
            .set_authentic_data(bit(6))
            .set_checking_disabled(bit(7));
        let mut expected = op::Header::response_from_request(&request);
        expected.set_response_code(op::ResponseCode::Refused);

        let plain = Header {
            id: request.id(),
            message_type: if bit(0) { MessageType::Response } else { MessageType::Query },
            op_code: if bit(1) { OpCode::Update } else { OpCode::Query },
            authoritative: bit(2),
            truncation: bit(3),
            recursion_desired: bit(4),
            recursion_available: bit(5),
            authentic_data: bit(6),
            checking_disabled: bit(7),
            response_code: ResponseCode::NoError,
        };
        let found = plain.error_reply(ResponseCode::Refused);
        assert_eq!(found.id, expected.id());
        assert_eq!(found.message_type == MessageType::Response, expected.message_type() == op::MessageType::Response);
        assert_eq!(found.op_code == OpCode::Update, expected.op_code() == op::OpCode::Update);
        assert_eq!(found.authoritative, expected.authoritative());
        assert_eq!(found.truncation, expected.truncated());
        assert_eq!(found.recursion_desired, expected.recursion_desired());
        assert_eq!(found.recursion_available, expected.recursion_available());
        assert_eq!(found.authentic_data, expected.authentic_data());
        assert_eq!(found.checking_disabled, expected.checking_disabled());
        assert_eq!(found.response_code == ResponseCode::Refused, expected.response_code() == op::ResponseCode::Refused);

        let mut authoritative = request;
        authoritative.set_authoritative(true);
        authoritative.set_message_type(op::MessageType::Response);
        authoritative.set_response_code(op::ResponseCode::NXDomain);
        let found = plain.authoritative_reply(ResponseCode::NXDomain);
        assert_eq!(found.id, authoritative.id());
        assert!(found.authoritative);
        assert_eq!(found.message_type, MessageType::Response);
        assert_eq!(found.truncation, authoritative.truncated());
        assert_eq!(found.recursion_desired, authoritative.recursion_desired());
        assert_eq!(found.recursion_available, authoritative.recursion_available());
        assert_eq!(found.authentic_data, authoritative.authentic_data());
        assert_eq!(found.checking_disabled, authoritative.checking_disabled());
        assert_eq!(found.response_code, ResponseCode::NXDomain);
    }
}

#[test]
fn record_data_go_on_the_wire_as_trust_dns_puts_them() {
    let owner = DomainName::from_str("example.com.").unwrap();
    let a = a_record(&owner, 1, [192, 0, 2, 1]);
    assert_eq!(a.rdata(), &rdata_bytes(&rr::RData::A("192.0.2.1".parse().unwrap())));
    let aaaa = aaaa_record(&owner, 1, [0x20, 0x01, 0x0d, 0xb8, 0, 0, 0, 0, 0, 0, 0, 0, 0, 0, 0, 1]);
    assert_eq!(aaaa.rdata(), &rdata_bytes(&rr::RData::AAAA("2001:db8::1".parse().unwrap())));

    let sections: Vec<Vec<u8>> = vec![b"v=spf1 -all".to_vec(), vec![], vec![0xff; 255]];
    let txt = txt_record(&owner, 1, &sections).unwrap();
    let expected = rr::RData::TXT(TXT::from_bytes(sections.iter().map(|s| s.as_slice()).collect()));
    assert_eq!(txt.rdata(), &rdata_bytes(&expected));

    let mname = rr::Name::from_ascii("ns1.example.com.").unwrap();
    let rname = rr::Name::from_ascii("hostmaster.example.com.").unwrap();
    let soa = Soa { mname: plain(&mname), rname: plain(&rname), serial: 2024010101, refresh: 7200, retry: 3600, expire: 1209600, minimum: 300 };
    let expected = rr::RData::SOA(SOA::new(mname.clone(), rname, 2024010101, 7200, 3600, 1209600, 300));
    assert_eq!(soa_record(&owner, 1, &soa).unwrap().rdata(), &rdata_bytes(&expected));

    let ns = ns_record(&owner, 1, &plain(&mname)).unwrap();
    assert_eq!(ns.rdata(), &rdata_bytes(&rr::RData::NS(mname)));
}
