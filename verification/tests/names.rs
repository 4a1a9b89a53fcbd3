use cetus::name::DomainName;
use cetus::name::NameError;

fn labels(parts: &[&str]) -> Vec<Vec<u8>> {
    parts.iter().map(|p| p.as_bytes().to_vec()).collect()
}

fn name(parts: &[&str]) -> DomainName {
    DomainName::from_labels(labels(parts), true).unwrap()
}

fn label_texts(name: &DomainName) -> Vec<String> {
    (0..name.num_labels())
        .map(|i| String::from_utf8(name.label(i).unwrap()).unwrap())
        .collect()
}

#[test]
fn from_str_reads_labels_and_the_final_dot() {
    let name = DomainName::from_str("www.example.com.").unwrap();
    assert_eq!(label_texts(&name), vec!["www", "example", "com"]);
    assert!(name.is_fqdn());
    assert!(!name.is_root());
    let relative = DomainName::from_str("www.example.com").unwrap();
    assert_eq!(label_texts(&relative), vec!["www", "example", "com"]);
    assert!(!relative.is_fqdn());
}

#[test]
fn from_str_folds_to_lower_case() {
    let name = DomainName::from_str("WwW.ExAmPle.COM.").unwrap();
    assert_eq!(label_texts(&name), vec!["www", "example", "com"]);
    assert_eq!(name.to_text(), "www.example.com.");
    let underscore = DomainName::from_str("_SIP._TCP.Example.com.").unwrap();
    assert_eq!(label_texts(&underscore), vec!["_sip", "_tcp", "example", "com"]);
}

#[test]
fn from_str_reads_the_root() {
    let root = DomainName::from_str(".").unwrap();
    assert_eq!(root.num_labels(), 0);
    assert!(root.is_fqdn());
    assert!(root.is_root());
    assert_eq!(root.to_text(), ".");
}

#[test]
fn from_str_refuses_what_is_no_name() {
    assert_eq!(DomainName::from_str("a..b").err(), Some(NameError::Malformed));
    assert_eq!(DomainName::from_str("with space.example.").err(), Some(NameError::Malformed));
    let long_label = "a".repeat(64);
    assert_eq!(DomainName::from_str(&format!("{}.com.", long_label)).err(), Some(NameError::Malformed));
}

#[test]
fn root_has_no_labels() {
    let root = DomainName::root();
    assert_eq!(root.num_labels(), 0);
    assert!(root.is_fqdn());
    assert!(root.is_root());
    assert_eq!(root.to_text(), ".");
    assert!(root.labels().is_empty());
}

#[test]
fn from_labels_keeps_case_and_flag() {
    let name = DomainName::from_labels(labels(&["WwW", "ExAmPle", "COM"]), true).unwrap();
    assert_eq!(label_texts(&name), vec!["WwW", "ExAmPle", "COM"]);
    assert_eq!(name.to_text(), "WwW.ExAmPle.COM.");
    let relative = DomainName::from_labels(labels(&["www"]), false).unwrap();
    assert!(!relative.is_fqdn());
    assert_eq!(relative.to_text(), "www");
}

#[test]
fn from_labels_checks_the_limits() {
    assert!(DomainName::from_labels(vec![vec![]], true).is_none());
    assert!(DomainName::from_labels(vec![vec![b'a'; 63]], true).is_some());
    assert!(DomainName::from_labels(vec![vec![b'a'; 64]], true).is_none());
    // three labels of 63 bytes and one of 62: 251 bytes and 4 separators, 255 in all
    let fits = vec![vec![b'a'; 63], vec![b'b'; 63], vec![b'c'; 63], vec![b'd'; 62]];
    assert!(DomainName::from_labels(fits, true).is_some());
    let too_long = vec![vec![b'a'; 63], vec![b'b'; 63], vec![b'c'; 63], vec![b'd'; 63]];
    assert!(DomainName::from_labels(too_long, true).is_none());
    let many = vec![vec![b'a']; 128];
    assert!(DomainName::from_labels(many, true).is_none());
    let many_fit = vec![vec![b'a']; 127];
    assert!(DomainName::from_labels(many_fit, true).is_some());
}

#[test]
fn label_gives_none_past_the_end() {
    let name = name(&["www", "example", "com"]);
    assert_eq!(name.label(0), Some(b"www".to_vec()));
    assert_eq!(name.label(2), Some(b"com".to_vec()));
    assert_eq!(name.label(3), None);
}

#[test]
fn to_lowercase_folds_only_ascii_capitals() {
    let name = DomainName::from_labels(vec![b"AZ@[az`{".to_vec(), vec![0x00, 0xC4, 0xff]], false).unwrap();
    let lower = name.to_lowercase();
    assert_eq!(lower.label(0), Some(b"az@[az`{".to_vec()));
    assert_eq!(lower.label(1), Some(vec![0x00, 0xC4, 0xff]));
    assert!(!lower.is_fqdn());
}

#[test]
fn to_lowercase_twice_is_once() {
    let name = name(&["WwW", "ExAmPle", "COM"]);
    let once = name.to_lowercase();
    let twice = once.to_lowercase();
    assert!(once.same_name(&twice));
    assert_eq!(once.to_text(), "www.example.com.");
}

#[test]
fn same_name_compares_labels_only() {
    let a = DomainName::from_labels(labels(&["example", "com"]), true).unwrap();
    let b = DomainName::from_labels(labels(&["example", "com"]), false).unwrap();
    let c = DomainName::from_labels(labels(&["Example", "com"]), true).unwrap();
    let d = DomainName::from_labels(labels(&["example"]), true).unwrap();
    assert!(a.same_name(&b));
    assert!(!a.same_name(&c));
    assert!(!a.same_name(&d));
    assert!(!d.same_name(&a));
}

#[test]
fn zone_of_holds_for_the_name_and_its_ancestors() {
    let zone = name(&["example", "com"]);
    assert!(zone.zone_of(&name(&["example", "com"])));
    assert!(zone.zone_of(&name(&["www", "example", "com"])));
    assert!(zone.zone_of(&name(&["a", "b", "example", "com"])));
    assert!(!zone.zone_of(&name(&["com"])));
    assert!(!zone.zone_of(&name(&["example", "org"])));
    assert!(!zone.zone_of(&name(&["com", "example"])));
    assert!(!zone.zone_of(&name(&["badexample", "com"])));
    assert!(!zone.zone_of(&name(&["www", "Example", "com"])));
}

#[test]
fn the_root_is_the_zone_of_every_name() {
    let root = DomainName::root();
    assert!(root.zone_of(&name(&["www", "example", "com"])));
    assert!(root.zone_of(&DomainName::root()));
    assert!(!name(&["com"]).zone_of(&root));
}

#[test]
fn to_text_escapes_what_is_no_letter() {
    let name = DomainName::from_labels(vec![b"a.b".to_vec(), b"example".to_vec()], true).unwrap();
    assert_eq!(name.to_text(), "a\\.b.example.");
}

#[test]
fn labels_are_handed_out_in_their_order() {
    let name = DomainName::from_labels(labels(&["Www", "example", "com"]), true).unwrap();
    assert_eq!(name.labels(), &vec![b"Www".to_vec(), b"example".to_vec(), b"com".to_vec()]);
}

#[test]
fn the_key_of_a_name_is_in_lower_case_and_fully_qualified() {
    let name = DomainName::from_labels(labels(&["WwW", "ExAmPle", "COM"]), false).unwrap();
    let key = name.canonical();
    assert_eq!(key.to_text(), "www.example.com.");
    assert!(key.is_fqdn());
    assert!(key.same_name(&name.to_lowercase()));
    assert_eq!(key.canonical().to_text(), "www.example.com.");
}

#[test]
fn clone_keeps_labels_and_flag() {
    let name = DomainName::from_labels(labels(&["Www", "example", "com"]), false).unwrap();
    let copy = name.clone();
    assert!(copy.same_name(&name));
    assert_eq!(copy.is_fqdn(), name.is_fqdn());
    assert_eq!(copy.to_text(), "Www.example.com");
}

#[test]
fn the_longest_names_are_written_in_full() {
    let longest = vec![vec![b'a'; 63], vec![b'b'; 63], vec![b'c'; 63], vec![b'd'; 62]];
    let name = DomainName::from_labels(longest, true).unwrap();
    let expected = format!("{}.{}.{}.{}.", "a".repeat(63), "b".repeat(63), "c".repeat(63), "d".repeat(62));
    assert_eq!(name.to_text(), expected);
    assert_eq!(name.labels().len(), 4);
    let read = DomainName::from_str(&expected).unwrap();
    assert!(read.same_name(&name));

    let many = DomainName::from_labels(vec![vec![b'x']; 127], false).unwrap();
    assert_eq!(many.to_text(), vec!["x"; 127].join("."));
    assert_eq!(many.num_labels(), 127);
}

#[test]
fn bytes_that_are_no_text_are_written_escaped() {
    let name = DomainName::from_labels(vec![vec![0x00, 0xff, b' ', b'a'], b"example".to_vec()], true).unwrap();
    assert_eq!(name.to_text(), "\\000\\377\\040a.example.");
}
