use cetus::name::DomainName;
use cetus::record::DnsClass;
use cetus::record::Record;
use cetus::record::RecordType;
use cetus::record::StorageRecord;

fn name(text: &str) -> DomainName {
    DomainName::from_str(text).unwrap()
}

fn all_types() -> Vec<(RecordType, u16, &'static str)> {
    vec![
        (RecordType::A, 1, "A"),
        (RecordType::AAAA, 28, "AAAA"),
        (RecordType::ANAME, 65305, "ANAME"),
        (RecordType::ANY, 255, "ANY"),
        (RecordType::AXFR, 252, "AXFR"),
        (RecordType::CAA, 257, "CAA"),
        (RecordType::CDS, 59, "CDS"),
        (RecordType::CDNSKEY, 60, "CDNSKEY"),
        (RecordType::CNAME, 5, "CNAME"),
        (RecordType::CSYNC, 62, "CSYNC"),
        (RecordType::DNSKEY, 48, "DNSKEY"),
        (RecordType::DS, 43, "DS"),
        (RecordType::HINFO, 13, "HINFO"),
        (RecordType::HTTPS, 65, "HTTPS"),
        (RecordType::IXFR, 251, "IXFR"),
        (RecordType::KEY, 25, "KEY"),
        (RecordType::MX, 15, "MX"),
        (RecordType::NAPTR, 35, "NAPTR"),
        (RecordType::NS, 2, "NS"),
        (RecordType::NSEC, 47, "NSEC"),
        (RecordType::NSEC3, 50, "NSEC3"),
        (RecordType::NSEC3PARAM, 51, "NSEC3PARAM"),
        (RecordType::NULL, 10, "NULL"),
        (RecordType::OPENPGPKEY, 61, "OPENPGPKEY"),
        (RecordType::OPT, 41, "OPT"),
        (RecordType::PTR, 12, "PTR"),
        (RecordType::RRSIG, 46, "RRSIG"),
        (RecordType::SIG, 24, "SIG"),
        (RecordType::SOA, 6, "SOA"),
        (RecordType::SRV, 33, "SRV"),
        (RecordType::SSHFP, 44, "SSHFP"),
        (RecordType::SVCB, 64, "SVCB"),
        (RecordType::TLSA, 52, "TLSA"),
        (RecordType::TSIG, 250, "TSIG"),
        (RecordType::TXT, 16, "TXT"),
        (RecordType::ZERO, 0, "ZERO"),
    ]
}

#[test]
fn every_type_has_its_code() {
    for (rtype, code, _) in all_types() {
        assert_eq!(rtype.code(), code);
        assert_eq!(RecordType::from_code(code), rtype);
    }
}

#[test]
fn every_type_has_its_name() {
    for (rtype, _, text) in all_types() {
        assert_eq!(rtype.text(), text);
    }
}

#[test]
fn a_code_without_a_name_is_unknown() {
    assert_eq!(RecordType::from_code(9999), RecordType::Unknown(9999));
    assert_eq!(RecordType::Unknown(9999).code(), 9999);
    assert_eq!(RecordType::Unknown(9999).text(), "Unknown");
}

#[test]
fn codes_go_round() {
    for code in [0u16, 1, 2, 5, 6, 15, 16, 28, 99, 255, 257, 4242, 65305, 65535] {
        assert_eq!(RecordType::from_code(code).code(), code);
    }
}

#[test]
fn every_class_has_its_name() {
    assert_eq!(DnsClass::IN.text(), "IN");
    assert_eq!(DnsClass::CH.text(), "CH");
    assert_eq!(DnsClass::HS.text(), "HS");
    assert_eq!(DnsClass::NONE.text(), "NONE");
    assert_eq!(DnsClass::ANY.text(), "ANY");
    assert_eq!(DnsClass::OPT(4096).text(), "OPT");
}

#[test]
fn from_rdata_makes_a_record_of_class_in() {
    let record = Record::from_rdata(name("www.example.com."), RecordType::A, 300, vec![1, 2, 3, 4]);
    assert_eq!(record.name().to_text(), "www.example.com.");
    assert_eq!(record.record_type(), RecordType::A);
    assert_eq!(record.dns_class(), DnsClass::IN);
    assert_eq!(record.ttl(), 300);
    assert_eq!(record.rdata(), &vec![1, 2, 3, 4]);
}

#[test]
fn with_class_keeps_the_class() {
    let record = Record::with_class(name("example.com."), RecordType::TXT, DnsClass::CH, 7, vec![]);
    assert_eq!(record.dns_class(), DnsClass::CH);
    assert_eq!(record.record_type(), RecordType::TXT);
    assert_eq!(record.ttl(), 7);
    assert!(record.rdata().is_empty());
}

#[test]
fn set_name_changes_the_name_only() {
    let mut record = Record::from_rdata(name("www.example.com."), RecordType::A, 300, vec![1, 2, 3, 4]);
    let original = DomainName::from_labels(vec![b"WwW".to_vec(), b"ExAmPle".to_vec(), b"COM".to_vec()], true).unwrap();
    record.set_name(original);
    assert_eq!(record.name().to_text(), "WwW.ExAmPle.COM.");
    assert_eq!(record.record_type(), RecordType::A);
    assert_eq!(record.dns_class(), DnsClass::IN);
    assert_eq!(record.ttl(), 300);
    assert_eq!(record.rdata(), &vec![1, 2, 3, 4]);
}

#[test]
fn storage_record_gives_access_to_its_record() {
    let mut stored = StorageRecord { record: Record::from_rdata(name("a.example."), RecordType::A, 1, vec![9, 9, 9, 9]) };
    assert_eq!(stored.as_record().ttl(), 1);
    stored.as_mut_record().set_name(name("b.example."));
    assert_eq!(stored.as_record().name().to_text(), "b.example.");
    assert_eq!(stored.record.rdata(), &vec![9, 9, 9, 9]);
}

#[test]
fn record_clone_is_equal_in_every_field() {
    let record = Record::with_class(name("example.com."), RecordType::MX, DnsClass::HS, 42, vec![0, 10, 3, b'm', b'x', b'1', 0]);
    let copy = StorageRecord { record }.clone();
    assert_eq!(copy.as_record().name().to_text(), "example.com.");
    assert_eq!(copy.as_record().record_type(), RecordType::MX);
    assert_eq!(copy.as_record().dns_class(), DnsClass::HS);
    assert_eq!(copy.as_record().ttl(), 42);
    assert_eq!(copy.as_record().rdata(), &vec![0, 10, 3, b'm', b'x', b'1', 0]);
}
