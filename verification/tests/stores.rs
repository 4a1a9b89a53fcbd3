use cetus::fs::DirEntry;
use cetus::fs::FSStorage;
use cetus::fs::Found;
use cetus::memory::MemoryStorage;
use cetus::name::DomainName;
use cetus::record::Record;
use cetus::record::RecordType;
use cetus::record::StorageRecord;
use cetus::redis::append_record;
use cetus::redis::collect_records;
use cetus::redis::domain_of_key;
use cetus::redis::domains_of_keys;
use cetus::redis::name_of_text;
use cetus::redis::resource_key;
use cetus::redis::resource_pattern;
use cetus::redis::select_record_set;
use cetus::redis::split_field;
use cetus::redis::strip_prefix;
use cetus::redis::zone_key;
use cetus::redis::zone_of_key;
use cetus::redis::zone_pattern;
use cetus::redis::zones_of_keys;
use cetus::redis::Selected;
use cetus::storage::Storage;
use cetus::storage::StorageError;
use std::path::PathBuf;

fn name(text: &str) -> DomainName {
    DomainName::from_str(text).unwrap()
}

fn mixed(parts: &[&str]) -> DomainName {
    DomainName::from_labels(parts.iter().map(|p| p.as_bytes().to_vec()).collect(), true).unwrap()
}

fn a_record(owner: &str, last: u8) -> StorageRecord {
    StorageRecord { record: Record::from_rdata(name(owner), RecordType::A, 300, vec![10, 0, 0, last]) }
}

fn typed(owner: &str, rtype: RecordType, data: u8) -> StorageRecord {
    StorageRecord { record: Record::from_rdata(name(owner), rtype, 300, vec![data]) }
}

fn texts(names: &Vec<DomainName>) -> Vec<String> {
    names.iter().map(|n| n.to_text()).collect()
}

fn datas(records: &Vec<StorageRecord>) -> Vec<Vec<u8>> {
    records.iter().map(|r| r.as_record().rdata().clone()).collect()
}

#[test]
fn a_new_memory_store_is_empty() {
    let storage = MemoryStorage::new();
    assert!(storage.zones().unwrap().is_empty());
    assert!(storage.lookup_records(&name("www.example.com."), &name("example.com."), RecordType::A).unwrap().is_none());
    assert!(storage.list_records(&name("example.com."), &name("www.example.com.")).unwrap().is_empty());
    assert!(storage.list_domains(&name("example.com.")).unwrap().is_empty());
}

#[test]
fn add_zone_then_zones_contains_it() {
    let mut storage = MemoryStorage::new();
    storage.add_zone(&name("example.com.")).unwrap();
    assert_eq!(texts(&storage.zones().unwrap()), vec!["example.com."]);
    storage.add_zone(&name("example.org.")).unwrap();
    storage.add_zone(&mixed(&["EXAMPLE", "COM"])).unwrap();
    assert_eq!(texts(&storage.zones().unwrap()), vec!["example.com.", "example.org."]);
}

#[test]
fn add_record_then_lookup_finds_it() {
    let mut storage = MemoryStorage::new();
    let zone = name("example.com.");
    let www = name("www.example.com.");
    storage.add_record(&zone, &www, a_record("www.example.com.", 1)).unwrap();
    let found = storage.lookup_records(&www, &zone, RecordType::A).unwrap().unwrap();
    assert_eq!(datas(&found), vec![vec![10, 0, 0, 1]]);
    storage.add_record(&zone, &www, a_record("www.example.com.", 2)).unwrap();
    let found = storage.lookup_records(&www, &zone, RecordType::A).unwrap().unwrap();
    assert_eq!(datas(&found), vec![vec![10, 0, 0, 1], vec![10, 0, 0, 2]]);
    assert_eq!(found[1].as_record().name().to_text(), "www.example.com.");
    assert_eq!(found[1].as_record().ttl(), 300);
}

#[test]
fn lookup_tells_three_states_apart() {
    let mut storage = MemoryStorage::new();
    let zone = name("example.com.");
    let www = name("www.example.com.");
    storage.add_record(&zone, &www, a_record("www.example.com.", 1)).unwrap();
    assert!(storage.lookup_records(&name("nope.example.com."), &zone, RecordType::A).unwrap().is_none());
    let nodata = storage.lookup_records(&www, &zone, RecordType::MX).unwrap();
    assert_eq!(nodata.map(|records| records.len()), Some(0));
    let some = storage.lookup_records(&www, &zone, RecordType::A).unwrap();
    assert_eq!(some.map(|records| records.len()), Some(1));
    // the same name in another zone does not exist
    assert!(storage.lookup_records(&www, &name("example.org."), RecordType::A).unwrap().is_none());
}

#[test]
fn lookup_gives_only_records_of_the_type() {
    let mut storage = MemoryStorage::new();
    let zone = name("example.com.");
    storage.add_record(&zone, &zone, typed("example.com.", RecordType::SOA, 1)).unwrap();
    storage.add_record(&zone, &zone, typed("example.com.", RecordType::NS, 2)).unwrap();
    storage.add_record(&zone, &zone, typed("example.com.", RecordType::NS, 3)).unwrap();
    storage.add_record(&zone, &zone, typed("example.com.", RecordType::Unknown(4242), 4)).unwrap();
    let ns = storage.lookup_records(&zone, &zone, RecordType::NS).unwrap().unwrap();
    assert_eq!(datas(&ns), vec![vec![2], vec![3]]);
    for record in &ns {
        assert_eq!(record.as_record().record_type(), RecordType::NS);
    }
    let soa = storage.lookup_records(&zone, &zone, RecordType::SOA).unwrap().unwrap();
    assert_eq!(datas(&soa), vec![vec![1]]);
    let unknown = storage.lookup_records(&zone, &zone, RecordType::Unknown(4242)).unwrap().unwrap();
    assert_eq!(datas(&unknown), vec![vec![4]]);
    let other = storage.lookup_records(&zone, &zone, RecordType::Unknown(4243)).unwrap().unwrap();
    assert!(other.is_empty());
}

#[test]
fn the_store_keys_names_in_lower_case() {
    let mut storage = MemoryStorage::new();
    storage.add_record(&mixed(&["Example", "COM"]), &mixed(&["WWW", "Example", "COM"]), a_record("www.example.com.", 1)).unwrap();
    let found = storage.lookup_records(&name("www.example.com."), &name("example.com."), RecordType::A).unwrap();
    assert_eq!(found.map(|records| records.len()), Some(1));
    let found = storage.lookup_records(&mixed(&["wWw", "EXAMPLE", "com"]), &mixed(&["EXAMPLE", "com"]), RecordType::A).unwrap();
    assert_eq!(found.map(|records| records.len()), Some(1));
}

#[test]
fn list_records_gives_all_types_in_their_order() {
    let mut storage = MemoryStorage::new();
    let zone = name("example.com.");
    storage.add_record(&zone, &zone, typed("example.com.", RecordType::SOA, 1)).unwrap();
    storage.add_record(&zone, &name("www.example.com."), typed("www.example.com.", RecordType::A, 9)).unwrap();
    storage.add_record(&zone, &zone, typed("example.com.", RecordType::NS, 2)).unwrap();
    let records = storage.list_records(&zone, &zone).unwrap();
    assert_eq!(datas(&records), vec![vec![1], vec![2]]);
    assert!(storage.list_records(&zone, &name("mail.example.com.")).unwrap().is_empty());
}

#[test]
fn list_domains_gives_each_name_once() {
    let mut storage = MemoryStorage::new();
    let zone = name("example.com.");
    storage.add_record(&zone, &name("www.example.com."), a_record("www.example.com.", 1)).unwrap();
    storage.add_record(&zone, &zone, typed("example.com.", RecordType::SOA, 1)).unwrap();
    storage.add_record(&zone, &name("www.example.com."), a_record("www.example.com.", 2)).unwrap();
    storage.add_record(&name("example.org."), &name("www.example.org."), a_record("www.example.org.", 3)).unwrap();
    assert_eq!(texts(&storage.list_domains(&zone).unwrap()), vec!["www.example.com.", "example.com."]);
    assert_eq!(texts(&storage.list_domains(&name("example.org.")).unwrap()), vec!["www.example.org."]);
    assert!(storage.list_domains(&name("example.net.")).unwrap().is_empty());
}

#[test]
fn keys_follow_the_layout() {
    assert_eq!(zone_key(&name("example.com.")), "zone:example.com.");
    assert_eq!(zone_pattern(), "zone:*");
    assert_eq!(resource_key(&name("example.com."), &name("www.example.com.")), "resource:example.com.:www.example.com.");
    assert_eq!(resource_pattern(&name("example.com.")), "resource:example.com.:*");
    assert_eq!(zone_key(&DomainName::root()), "zone:.");
}

#[test]
fn strip_prefix_takes_the_prefix_once() {
    assert_eq!(strip_prefix("zone:example.com.", "zone:"), Some("example.com."));
    assert_eq!(strip_prefix("zone:zone:example.com.", "zone:"), Some("zone:example.com."));
    assert_eq!(strip_prefix("example.com.", "zone:"), None);
    assert_eq!(strip_prefix("zone", "zone:"), None);
    assert_eq!(strip_prefix("zone:", "zone:"), Some(""));
    assert_eq!(strip_prefix("", "zone:"), None);
    assert_eq!(strip_prefix("abc", ""), Some("abc"));
    assert_eq!(strip_prefix("xzone:a", "zone:"), None);
    assert_eq!(strip_prefix("ääb", "ä"), Some("äb"));
    for text in ["zone:zone:example.com.", "zone", "", "zonezone:", "zone:z"] {
        assert_eq!(strip_prefix(text, "zone:"), text.strip_prefix("zone:"));
    }
}

#[test]
fn split_field_counts_from_zero() {
    assert_eq!(split_field("resource:example.com.:www.example.com.", ':', 0), Some("resource"));
    assert_eq!(split_field("resource:example.com.:www.example.com.", ':', 1), Some("example.com."));
    assert_eq!(split_field("resource:example.com.:www.example.com.", ':', 2), Some("www.example.com."));
    assert_eq!(split_field("resource:example.com.:www.example.com.", ':', 3), None);
    assert_eq!(split_field("a:b:", ':', 2), Some(""));
    assert_eq!(split_field("a:b", ':', 2), None);
    assert_eq!(split_field("", ':', 0), Some(""));
    assert_eq!(split_field("", ':', 1), None);
    assert_eq!(split_field("::", ':', 1), Some(""));
    assert_eq!(split_field("a:b:c:d", ':', 2), Some("c"));
    for text in ["a:b:c:d", "a:b:", "a:b", "", "::", ":x:y", "ä:ö:ü"] {
        for n in 0..5 {
            assert_eq!(split_field(text, ':', n), text.split(':').nth(n));
        }
    }
}

#[test]
fn keys_are_read_back_as_names() {
    assert_eq!(zone_of_key("zone:example.com.").unwrap().to_text(), "example.com.");
    assert_eq!(zone_of_key("zone:Example.COM.").unwrap().to_text(), "example.com.");
    assert!(zone_of_key("example.com.").is_none());
    assert!(zone_of_key("resource:example.com.:www.example.com.").is_none());
    assert!(zone_of_key("zone:a..b").is_none());
    assert_eq!(domain_of_key("resource:example.com.:www.example.com.").unwrap().to_text(), "www.example.com.");
    assert!(domain_of_key("resource:example.com.").is_none());
    assert!(domain_of_key("resource:example.com.:a..b").is_none());
    assert_eq!(name_of_text("WWW.example.com").unwrap().to_text(), "www.example.com");
    assert!(name_of_text("not a name").is_none());
}

#[test]
fn a_key_made_is_read_back() {
    let zone = name("example.com.");
    let www = name("www.example.com.");
    assert!(zone_of_key(&zone_key(&zone)).unwrap().same_name(&zone));
    assert!(domain_of_key(&resource_key(&zone, &www)).unwrap().same_name(&www));
}

#[test]
fn scanned_keys_give_the_names_they_hold() {
    let keys = vec![
        Some("zone:example.com.".to_string()),
        None,
        Some("zone:a..b".to_string()),
        Some("zone:example.org.".to_string()),
    ];
    assert_eq!(texts(&zones_of_keys(&keys)), vec!["example.com.", "example.org."]);
    let keys = vec![
        Some("resource:example.com.:www.example.com.".to_string()),
        Some("resource:example.com.".to_string()),
        None,
        Some("resource:example.com.:example.com.".to_string()),
    ];
    assert_eq!(texts(&domains_of_keys(&keys)), vec!["www.example.com.", "example.com."]);
    assert!(zones_of_keys(&vec![]).is_empty());
}

fn selected(reply: Vec<&[u8]>, rtype: RecordType) -> Result<Option<Option<Vec<u8>>>, StorageError> {
    let reply: Vec<Vec<u8>> = reply.into_iter().map(|part| part.to_vec()).collect();
    select_record_set(&reply, rtype).map(|selected| match selected {
        Selected::NoSuchName => None,
        Selected::NoData => Some(None),
        Selected::Encoded(bytes) => Some(Some(bytes)),
    })
}

#[test]
fn the_reply_of_the_hash_is_read_for_one_type() {
    assert_eq!(selected(vec![], RecordType::A), Ok(None));
    assert_eq!(selected(vec![b"A"], RecordType::A), Ok(None));
    assert_eq!(selected(vec![b"A", b"[1]", b"MX"], RecordType::A), Ok(None));
    assert_eq!(selected(vec![b"A", b"[1]"], RecordType::A), Ok(Some(Some(b"[1]".to_vec()))));
    assert_eq!(selected(vec![b"A", b"[1]"], RecordType::MX), Ok(Some(None)));
    assert_eq!(selected(vec![b"MX", b"[2]", b"A", b"[1]"], RecordType::A), Ok(Some(Some(b"[1]".to_vec()))));
    assert_eq!(selected(vec![b"AAAA", b"[4]", b"A", b"[1]"], RecordType::AAAA), Ok(Some(Some(b"[4]".to_vec()))));
    assert_eq!(selected(vec![b"a", b"[1]"], RecordType::A), Ok(Some(None)));
    assert_eq!(selected(vec![b"A", b"[1]", b"A", b"[2]"], RecordType::A), Ok(Some(Some(b"[1]".to_vec()))));
}

#[test]
fn a_field_that_is_no_text_fails_the_reading() {
    assert_eq!(selected(vec![&[0xff, 0xfe], b"[1]", b"A", b"[2]"], RecordType::A), Err(StorageError::Encoding));
    // the field asked for comes first: the reading ends before the bad field
    assert_eq!(selected(vec![b"A", b"[2]", &[0xff, 0xfe], b"[1]"], RecordType::A), Ok(Some(Some(b"[2]".to_vec()))));
    assert_eq!(selected(vec![b"A", b"[2]", &[0xc3], b"[1]"], RecordType::MX), Err(StorageError::Encoding));
    assert_eq!(selected(vec!["ä".as_bytes(), b"[1]"], RecordType::A), Ok(Some(None)));
}

#[test]
fn append_record_puts_the_record_last() {
    let appended = append_record(None, a_record("www.example.com.", 1));
    assert_eq!(datas(&appended), vec![vec![10, 0, 0, 1]]);
    let appended = append_record(Some(appended), a_record("www.example.com.", 2));
    assert_eq!(datas(&appended), vec![vec![10, 0, 0, 1], vec![10, 0, 0, 2]]);
    let appended = append_record(Some(vec![]), a_record("www.example.com.", 3));
    assert_eq!(datas(&appended), vec![vec![10, 0, 0, 3]]);
}

#[test]
fn collect_records_passes_over_what_cannot_be_read() {
    let sets = vec![
        Some(vec![a_record("www.example.com.", 1), a_record("www.example.com.", 2)]),
        None,
        Some(vec![]),
        Some(vec![a_record("www.example.com.", 3)]),
    ];
    assert_eq!(datas(&collect_records(sets)), vec![vec![10, 0, 0, 1], vec![10, 0, 0, 2], vec![10, 0, 0, 3]]);
    assert!(collect_records(vec![]).is_empty());
    assert!(collect_records(vec![None, None]).is_empty());
}

#[test]
fn the_file_store_keeps_its_base() {
    let storage = FSStorage::new(PathBuf::from("/var/lib/dns"));
    assert_eq!(storage.base_path(), &PathBuf::from("/var/lib/dns"));
}

#[test]
fn a_record_lies_below_zone_and_name() {
    let location = FSStorage::locate(&name("example.com."), &name("www.example.com."), RecordType::AAAA);
    assert_eq!(location.zone, "example.com.");
    assert_eq!(location.name, "www.example.com.");
    assert_eq!(location.record_type, "AAAA");
}

#[test]
fn what_exists_says_what_a_lookup_gives() {
    assert_eq!(FSStorage::classify(false, false), Found::NoSuchName);
    assert_eq!(FSStorage::classify(false, true), Found::NoSuchName);
    assert_eq!(FSStorage::classify(true, false), Found::NoData);
    assert_eq!(FSStorage::classify(true, true), Found::File);
}

#[test]
fn the_directories_of_the_base_are_the_zones() {
    let entries = vec![
        DirEntry { is_dir: true, name: Some("example.com.".to_string()) },
        DirEntry { is_dir: false, name: Some("example.net.".to_string()) },
        DirEntry { is_dir: true, name: None },
        DirEntry { is_dir: false, name: Some("a..b".to_string()) },
        DirEntry { is_dir: true, name: Some("Example.ORG.".to_string()) },
    ];
    assert_eq!(texts(&FSStorage::zones_of_entries(&entries).unwrap()), vec!["example.com.", "example.org."]);
    assert!(FSStorage::zones_of_entries(&vec![]).unwrap().is_empty());
}

#[test]
fn a_directory_that_is_no_name_fails_the_listing() {
    let entries = vec![
        DirEntry { is_dir: true, name: Some("example.com.".to_string()) },
        DirEntry { is_dir: true, name: Some("a..b".to_string()) },
        DirEntry { is_dir: true, name: Some("example.org.".to_string()) },
    ];
    assert_eq!(FSStorage::zones_of_entries(&entries).err(), Some(StorageError::Encoding));
}

#[test]
fn a_zone_added_twice_is_listed_once() {
    let mut store = MemoryStorage::new();
    store.add_zone(&name("example.com.")).unwrap();
    store.add_zone(&name("example.org.")).unwrap();
    store.add_zone(&mixed(&["Example", "COM"])).unwrap();
    store.add_zone(&name("example.com.")).unwrap();
    assert_eq!(texts(&store.zones().unwrap()), vec!["example.com.", "example.org."]);
}

#[test]
fn a_key_that_the_scan_gives_twice_marks_its_zone_once() {
    let keys = vec![
        Some("zone:example.com.".to_string()),
        Some("zone:example.org.".to_string()),
        None,
        Some("zone:Example.COM.".to_string()),
        Some("zone:example.com.".to_string()),
        Some("zone:a..b".to_string()),
        Some("example.net.".to_string()),
    ];
    assert_eq!(texts(&zones_of_keys(&keys)), vec!["example.com.", "example.org."]);
    let keys = vec![
        Some("resource:example.com.:www.example.com.".to_string()),
        Some("resource:example.com.:example.com.".to_string()),
        Some("resource:example.com.:www.example.com.".to_string()),
    ];
    assert_eq!(texts(&domains_of_keys(&keys)), vec!["www.example.com.", "example.com."]);
}

#[test]
fn the_memory_store_lists_names_as_keys() {
    let mut store = MemoryStorage::new();
    store.add_zone(&DomainName::from_labels(vec![b"Example".to_vec(), b"COM".to_vec()], false).unwrap()).unwrap();
    let zones = store.zones().unwrap();
    assert_eq!(texts(&zones), vec!["example.com."]);
    assert!(zones[0].is_fqdn());
    let zone = name("example.com.");
    let www = DomainName::from_labels(vec![b"WWW".to_vec(), b"example".to_vec(), b"com".to_vec()], false).unwrap();
    store.add_record(&zone, &www, a_record("www.example.com.", 1)).unwrap();
    let names = store.list_domains(&zone).unwrap();
    assert_eq!(texts(&names), vec!["www.example.com."]);
    assert!(names[0].is_fqdn());
}

#[test]
fn two_directories_of_one_zone_give_the_zone_once() {
    let entries = vec![
        DirEntry { name: Some("example.com.".to_string()), is_dir: true },
        DirEntry { name: Some("Example.COM.".to_string()), is_dir: true },
        DirEntry { name: Some("example.org.".to_string()), is_dir: true },
    ];
    assert_eq!(texts(&FSStorage::zones_of_entries(&entries).unwrap()), vec!["example.com.", "example.org."]);
}
