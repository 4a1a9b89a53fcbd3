use cetus::api::a_record;
use cetus::api::aaaa_record;
use cetus::api::add_record;
use cetus::api::add_zone;
use cetus::api::apply;
use cetus::api::decode_txt_sections;
use cetus::api::list_domain_records;
use cetus::api::list_zone_domains;
use cetus::api::list_zones;
use cetus::api::ns_record;
use cetus::api::plan_add_record;
use cetus::api::plan_add_zone;
use cetus::api::require_both_fqdn;
use cetus::api::soa_record;
use cetus::api::txt_record;
use cetus::api::zone_records;
use cetus::api::zone_texts;
use cetus::api::NameServer;
use cetus::api::Soa;
use cetus::api::StatusCode;
use cetus::api::Write;
use cetus::api::MAX_TXT_SECTION_LENGTH;
use cetus::memory::MemoryStorage;
use cetus::name::DomainName;
use cetus::record::DnsClass;
use cetus::record::RecordType;
use cetus::storage::Storage;

fn name(text: &str) -> DomainName {
    DomainName::from_str(text).unwrap()
}

fn soa() -> Soa {
    Soa {
        mname: name("ns1.example.com."),
        rname: name("hostmaster.example.com."),
        serial: 2024010101,
        refresh: 7200,
        retry: 3600,
        expire: 1209600,
        minimum: 300,
    }
}

fn texts(sections: &[&str]) -> Vec<String> {
    sections.iter().map(|s| s.to_string()).collect()
}

#[test]
fn every_status_has_its_number() {
    assert_eq!(StatusCode::Created.code(), 201);
    assert_eq!(StatusCode::BadRequest.code(), 400);
    assert_eq!(StatusCode::Conflict.code(), 409);
    assert_eq!(StatusCode::InternalServerError.code(), 500);
}

#[test]
fn sections_are_decoded_from_base_16() {
    assert_eq!(decode_txt_sections(&texts(&["68656c6c6f"])), Ok(vec![b"hello".to_vec()]));
    assert_eq!(decode_txt_sections(&texts(&["00ff", "DEADbeef"])), Ok(vec![vec![0x00, 0xff], vec![0xde, 0xad, 0xbe, 0xef]]));
    assert_eq!(decode_txt_sections(&texts(&["0123456789abcdefABCDEF"])), Ok(vec![vec![0x01, 0x23, 0x45, 0x67, 0x89, 0xab, 0xcd, 0xef, 0xab, 0xcd, 0xef]]));
    assert_eq!(decode_txt_sections(&vec![]), Ok(vec![]));
}

#[test]
fn a_section_that_is_no_base_16_is_a_bad_request() {
    assert_eq!(decode_txt_sections(&texts(&["6g"])), Err(StatusCode::BadRequest));
    assert_eq!(decode_txt_sections(&texts(&["abc"])), Err(StatusCode::BadRequest));
    assert_eq!(decode_txt_sections(&texts(&[""])), Err(StatusCode::BadRequest));
    assert_eq!(decode_txt_sections(&texts(&["68656c6c6f", "zz"])), Err(StatusCode::BadRequest));
    assert_eq!(decode_txt_sections(&texts(&["zz", "68656c6c6f"])), Err(StatusCode::BadRequest));
    assert_eq!(decode_txt_sections(&texts(&["ää"])), Err(StatusCode::BadRequest));
    assert_eq!(decode_txt_sections(&texts(&["0x"])), Err(StatusCode::BadRequest));
    assert_eq!(decode_txt_sections(&texts(&["/0"])), Err(StatusCode::BadRequest));
    assert_eq!(decode_txt_sections(&texts(&[":0"])), Err(StatusCode::BadRequest));
    assert_eq!(decode_txt_sections(&texts(&["@0"])), Err(StatusCode::BadRequest));
    assert_eq!(decode_txt_sections(&texts(&["G0"])), Err(StatusCode::BadRequest));
    assert_eq!(decode_txt_sections(&texts(&["`0"])), Err(StatusCode::BadRequest));
}

#[test]
fn a_section_may_have_255_bytes_and_no_more() {
    assert_eq!(MAX_TXT_SECTION_LENGTH, 255);
    let longest = "ab".repeat(255);
    assert_eq!(decode_txt_sections(&vec![longest]), Ok(vec![vec![0xab; 255]]));
    let too_long = "ab".repeat(256);
    assert_eq!(decode_txt_sections(&vec![too_long]), Err(StatusCode::BadRequest));
}

#[test]
fn address_records_hold_the_address() {
    let a = a_record(&name("www.example.com."), 300, [1, 2, 3, 4]);
    assert_eq!(a.record_type(), RecordType::A);
    assert_eq!(a.dns_class(), DnsClass::IN);
    assert_eq!(a.ttl(), 300);
    assert_eq!(a.rdata(), &vec![1, 2, 3, 4]);
    assert_eq!(a.name().to_text(), "www.example.com.");
    let address = [0x20, 0x01, 0x0d, 0xb8, 0, 0, 0, 0, 0, 0, 0, 0, 0, 0, 0, 1];
    let aaaa = aaaa_record(&name("www.example.com."), 60, address);
    assert_eq!(aaaa.record_type(), RecordType::AAAA);
    assert_eq!(aaaa.ttl(), 60);
    assert_eq!(aaaa.rdata(), &address.to_vec());
}

#[test]
fn a_txt_record_holds_each_section_behind_its_length() {
    let record = txt_record(&name("example.com."), 30, &vec![b"hello".to_vec(), vec![], b"hi".to_vec()]).unwrap();
    assert_eq!(record.record_type(), RecordType::TXT);
    assert_eq!(record.rdata(), &vec![5, b'h', b'e', b'l', b'l', b'o', 0, 2, b'h', b'i']);
    let empty = txt_record(&name("example.com."), 30, &vec![]).unwrap();
    assert!(empty.rdata().is_empty());
    let longest = txt_record(&name("example.com."), 30, &vec![vec![7; 255]]).unwrap();
    assert_eq!(longest.rdata().len(), 256);
    assert_eq!(longest.rdata()[0], 255);
    assert!(txt_record(&name("example.com."), 30, &vec![vec![7; 256]]).is_none());
    assert!(txt_record(&name("example.com."), 30, &vec![vec![1], vec![7; 300]]).is_none());
}

fn wire(labels: &[&str]) -> Vec<u8> {
    let mut out = Vec::new();
    for label in labels {
        out.push(label.len() as u8);
        out.extend_from_slice(label.as_bytes());
    }
    out.push(0);
    out
}

fn servers(names: &[&str]) -> Vec<NameServer> {
    names.iter().map(|text| NameServer { name: name(text), ttl: 86400 }).collect()
}

fn longest_name() -> DomainName {
    DomainName::from_labels(vec![vec![b'a'; 63], vec![b'b'; 63], vec![b'c'; 63], vec![b'd'; 62]], true).unwrap()
}

#[test]
fn an_soa_record_holds_names_and_numbers() {
    let record = soa_record(&name("example.com."), 3600, &soa()).unwrap();
    assert_eq!(record.record_type(), RecordType::SOA);
    assert_eq!(record.name().to_text(), "example.com.");
    assert_eq!(record.ttl(), 3600);
    let mut expected = wire(&["ns1", "example", "com"]);
    expected.extend(wire(&["hostmaster", "example", "com"]));
    expected.extend(2024010101u32.to_be_bytes());
    expected.extend(7200u32.to_be_bytes());
    expected.extend(3600u32.to_be_bytes());
    expected.extend(1209600u32.to_be_bytes());
    expected.extend(300u32.to_be_bytes());
    assert_eq!(record.rdata(), &expected);
}

#[test]
fn an_soa_record_takes_the_largest_and_the_smallest_numbers() {
    let soa = Soa { mname: DomainName::root(), rname: DomainName::root(), serial: u32::MAX, refresh: 0, retry: 0x0102_0304, expire: 255, minimum: 256 };
    let record = soa_record(&name("example.com."), 1, &soa).unwrap();
    assert_eq!(
        record.rdata(),
        &vec![0, 0, 255, 255, 255, 255, 0, 0, 0, 0, 1, 2, 3, 4, 0, 0, 0, 255, 0, 0, 1, 0]
    );
    let soa = Soa { mname: DomainName::root(), rname: DomainName::root(), serial: 0, refresh: -1, retry: i32::MIN, expire: i32::MAX, minimum: 0 };
    let record = soa_record(&name("example.com."), 1, &soa).unwrap();
    assert_eq!(
        record.rdata(),
        &vec![0, 0, 0, 0, 0, 0, 255, 255, 255, 255, 0x80, 0, 0, 0, 0x7f, 255, 255, 255, 0, 0, 0, 0]
    );
}

#[test]
fn names_stand_in_record_data_in_lower_case() {
    let upper = DomainName::from_labels(vec![b"NS1".to_vec(), b"Example".to_vec(), b"COM".to_vec()], true).unwrap();
    let record = ns_record(&name("example.com."), 86400, &upper).unwrap();
    assert_eq!(record.rdata(), &wire(&["ns1", "example", "com"]));
    let soa = Soa { mname: upper.clone(), rname: upper, serial: 1, refresh: 2, retry: 3, expire: 4, minimum: 5 };
    let record = soa_record(&name("example.com."), 1, &soa).unwrap();
    let mut expected = wire(&["ns1", "example", "com"]);
    expected.extend(wire(&["ns1", "example", "com"]));
    expected.extend([0, 0, 0, 1, 0, 0, 0, 2, 0, 0, 0, 3, 0, 0, 0, 4, 0, 0, 0, 5]);
    assert_eq!(record.rdata(), &expected);
}

#[test]
fn an_ns_record_names_the_server() {
    let record = ns_record(&name("example.com."), 86400, &name("ns1.example.com.")).unwrap();
    assert_eq!(record.record_type(), RecordType::NS);
    assert_eq!(record.name().to_text(), "example.com.");
    assert_eq!(record.ttl(), 86400);
    assert_eq!(record.rdata(), &wire(&["ns1", "example", "com"]));
}

#[test]
fn the_longest_name_cannot_stand_in_record_data() {
    let longest = longest_name();
    assert!(ns_record(&name("example.com."), 1, &longest).is_none());
    let almost = DomainName::from_labels(vec![vec![b'a'; 63], vec![b'b'; 63], vec![b'c'; 63], vec![b'd'; 61]], true).unwrap();
    assert_eq!(ns_record(&name("example.com."), 1, &almost).unwrap().rdata().len(), 255);
    let mut bad = soa();
    bad.rname = longest_name();
    assert!(soa_record(&name("example.com."), 1, &bad).is_none());
    let mut bad = soa();
    bad.mname = longest_name();
    assert!(soa_record(&name("example.com."), 1, &bad).is_none());
    assert!(zone_records(&name("example.com."), 1, &bad, &vec![]).is_none());
    let servers = vec![NameServer { name: name("ns1.example.com."), ttl: 1 }, NameServer { name: longest, ttl: 1 }];
    assert!(zone_records(&name("example.com."), 1, &soa(), &servers).is_none());
    let mut storage = MemoryStorage::new();
    assert_eq!(add_zone(&mut storage, &name("example.com."), 1, &soa(), &servers), StatusCode::BadRequest);
    assert!(storage.zones().unwrap().is_empty());
}

#[test]
fn sections_too_many_for_one_record_are_refused() {
    let fits = vec![vec![7u8; 255]; 255];
    assert_eq!(txt_record(&name("example.com."), 30, &fits).unwrap().rdata().len(), 65280);
    let mut most = fits.clone();
    most.push(vec![7u8; 254]);
    assert_eq!(txt_record(&name("example.com."), 30, &most).unwrap().rdata().len(), 65535);
    let mut too_many = fits;
    too_many.push(vec![7u8; 255]);
    assert!(txt_record(&name("example.com."), 30, &too_many).is_none());
}

#[test]
fn the_records_of_a_zone_are_owned_by_the_zone() {
    let zone = name("example.com.");
    let records = zone_records(&zone, 3600, &soa(), &servers(&["ns1.example.com.", "ns2.example.net."])).unwrap();
    assert_eq!(records.len(), 3);
    assert_eq!(records[0].record_type(), RecordType::SOA);
    assert_eq!(records[0].ttl(), 3600);
    assert_eq!(records[1].record_type(), RecordType::NS);
    assert_eq!(records[1].ttl(), 86400);
    assert_eq!(records[1].rdata(), &wire(&["ns1", "example", "com"]));
    assert_eq!(records[2].rdata(), &wire(&["ns2", "example", "net"]));
    for record in &records {
        assert_eq!(record.name().to_text(), "example.com.");
        assert_eq!(record.dns_class(), DnsClass::IN);
    }
}

#[test]
fn the_plan_of_a_zone_marks_it_and_then_adds_its_records() {
    let zone = name("example.com.");
    let writes = plan_add_zone(&zone, &vec![name("example.org.")], 3600, &soa(), &servers(&["ns1.example.com."])).unwrap();
    assert_eq!(writes.len(), 3);
    match &writes[0] {
        Write::Zone(marked) => assert_eq!(marked.to_text(), "example.com."),
        _ => panic!("the zone is marked first"),
    }
    for (write, rtype) in writes[1..].iter().zip([RecordType::SOA, RecordType::NS]) {
        match write {
            Write::Record { zone, name, record } => {
                assert_eq!(zone.to_text(), "example.com.");
                assert_eq!(name.to_text(), "example.com.");
                assert_eq!(record.name().to_text(), "example.com.");
                assert_eq!(record.record_type(), rtype);
            },
            _ => panic!("the records come after the zone"),
        }
    }
    assert_eq!(plan_add_zone(&zone, &vec![name("example.com.")], 3600, &soa(), &vec![]).err(), Some(StatusCode::Conflict));
    assert_eq!(plan_add_zone(&name("example.com"), &vec![], 3600, &soa(), &vec![]).err(), Some(StatusCode::InternalServerError));
    assert_eq!(plan_add_zone(&name("example.com"), &vec![name("example.com.")], 3600, &soa(), &vec![]).err(), Some(StatusCode::InternalServerError));
    let mut bad = soa();
    bad.mname = longest_name();
    assert_eq!(plan_add_zone(&zone, &vec![], 3600, &bad, &vec![]).err(), Some(StatusCode::BadRequest));
    assert_eq!(plan_add_zone(&zone, &vec![name("example.com.")], 3600, &bad, &vec![]).err(), Some(StatusCode::Conflict));
}

#[test]
fn the_plan_of_a_record_is_one_write() {
    let zone = name("example.com.");
    let www = name("www.example.com.");
    match plan_add_record(&zone, &www, a_record(&www, 300, [1, 2, 3, 4])) {
        Ok(Write::Record { zone, name, record }) => {
            assert_eq!(zone.to_text(), "example.com.");
            assert_eq!(name.to_text(), "www.example.com.");
            assert_eq!(record.rdata(), &vec![1, 2, 3, 4]);
        },
        _ => panic!("a record is to be added"),
    }
    assert_eq!(plan_add_record(&name("example.com"), &www, a_record(&www, 300, [1, 2, 3, 4])).err(), Some(StatusCode::BadRequest));
    assert_eq!(plan_add_record(&zone, &name("www"), a_record(&www, 300, [1, 2, 3, 4])).err(), Some(StatusCode::BadRequest));
    assert_eq!(require_both_fqdn(&zone, &www), Ok(()));
    assert_eq!(require_both_fqdn(&zone, &name("www")), Err(StatusCode::BadRequest));
}

#[test]
fn writes_are_made_in_their_order() {
    let zone = name("example.com.");
    let writes = plan_add_zone(&zone, &vec![], 3600, &soa(), &servers(&["ns1.example.com.", "ns2.example.com."])).unwrap();
    let mut storage = MemoryStorage::new();
    assert_eq!(apply(&mut storage, &writes), 4);
    assert_eq!(zone_texts(&storage.zones().unwrap()), vec!["example.com."]);
    let all = storage.list_records(&zone, &zone).unwrap();
    assert_eq!(all.len(), 3);
    assert_eq!(all[0].as_record().record_type(), RecordType::SOA);
    assert_eq!(all[1].as_record().rdata(), &wire(&["ns1", "example", "com"]));
    assert_eq!(all[2].as_record().rdata(), &wire(&["ns2", "example", "com"]));
    assert_eq!(apply(&mut storage, &vec![]), 0);
}

#[test]
fn a_new_zone_is_created_with_its_records() {
    let mut storage = MemoryStorage::new();
    let zone = name("example.com.");
    let status = add_zone(&mut storage, &zone, 3600, &soa(), &servers(&["ns1.example.com.", "ns2.example.com."]));
    assert_eq!(status, StatusCode::Created);
    assert_eq!(list_zones(&storage), Ok(vec!["example.com.".to_string()]));
    let soas = storage.lookup_records(&zone, &zone, RecordType::SOA).unwrap().unwrap();
    assert_eq!(soas.len(), 1);
    assert_eq!(soas[0].as_record().name().to_text(), "example.com.");
    let ns = storage.lookup_records(&zone, &zone, RecordType::NS).unwrap().unwrap();
    assert_eq!(ns.len(), 2);
    assert_eq!(ns[0].as_record().rdata(), &wire(&["ns1", "example", "com"]));
    assert_eq!(ns[1].as_record().rdata(), &wire(&["ns2", "example", "com"]));
    assert_eq!(ns[0].as_record().name().to_text(), "example.com.");
    let all = list_domain_records(&storage, &zone, &zone).unwrap();
    assert_eq!(all.len(), 3);
    assert_eq!(all[0].as_record().record_type(), RecordType::SOA);
}

#[test]
fn a_zone_that_exists_is_a_conflict() {
    let mut storage = MemoryStorage::new();
    let zone = name("example.com.");
    assert_eq!(add_zone(&mut storage, &zone, 3600, &soa(), &vec![]), StatusCode::Created);
    assert_eq!(add_zone(&mut storage, &zone, 3600, &soa(), &vec![]), StatusCode::Conflict);
    let upper = DomainName::from_labels(vec![b"EXAMPLE".to_vec(), b"com".to_vec()], true).unwrap();
    assert_eq!(add_zone(&mut storage, &upper, 3600, &soa(), &vec![]), StatusCode::Conflict);
    assert_eq!(storage.lookup_records(&zone, &zone, RecordType::SOA).unwrap().unwrap().len(), 1);
}

#[test]
fn a_zone_that_is_not_fully_qualified_is_refused() {
    let mut storage = MemoryStorage::new();
    let zone = name("example.com");
    assert_eq!(add_zone(&mut storage, &zone, 3600, &soa(), &vec![]), StatusCode::InternalServerError);
    assert!(storage.zones().unwrap().is_empty());
    assert!(storage.lookup_records(&zone, &zone, RecordType::SOA).unwrap().is_none());
}

#[test]
fn a_record_is_added_where_both_names_are_fully_qualified() {
    let mut storage = MemoryStorage::new();
    let zone = name("example.com.");
    let www = name("www.example.com.");
    assert_eq!(add_record(&mut storage, &zone, &www, a_record(&www, 300, [1, 2, 3, 4])), StatusCode::Created);
    assert_eq!(add_record(&mut storage, &name("example.com"), &www, a_record(&www, 300, [1, 2, 3, 4])), StatusCode::BadRequest);
    assert_eq!(add_record(&mut storage, &zone, &name("www.example.com"), a_record(&www, 300, [1, 2, 3, 4])), StatusCode::BadRequest);
    let found = storage.lookup_records(&www, &zone, RecordType::A).unwrap().unwrap();
    assert_eq!(found.len(), 1);
    assert_eq!(found[0].as_record().rdata(), &vec![1, 2, 3, 4]);
}

#[test]
fn listings_ask_for_fully_qualified_names() {
    let mut storage = MemoryStorage::new();
    let zone = name("example.com.");
    let www = name("www.example.com.");
    add_record(&mut storage, &zone, &www, a_record(&www, 300, [1, 2, 3, 4]));
    assert_eq!(list_domain_records(&storage, &name("example.com"), &www).err(), Some(StatusCode::BadRequest));
    assert_eq!(list_domain_records(&storage, &zone, &name("www.example.com")).err(), Some(StatusCode::BadRequest));
    assert_eq!(list_domain_records(&storage, &zone, &www).unwrap().len(), 1);
    assert_eq!(list_zone_domains(&storage, &name("example.com")).err(), Some(StatusCode::BadRequest));
    let domains = list_zone_domains(&storage, &zone).unwrap();
    assert_eq!(domains.len(), 1);
    assert_eq!(domains[0].to_text(), "www.example.com.");
}
