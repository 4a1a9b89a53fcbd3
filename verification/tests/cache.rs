use cetus::cache::AuthoritySnapshot;
use cetus::name::DomainName;

fn name(text: &str) -> DomainName {
    DomainName::from_str(text).unwrap()
}

fn mixed(parts: &[&str]) -> DomainName {
    DomainName::from_labels(parts.iter().map(|p| p.as_bytes().to_vec()).collect(), true).unwrap()
}

fn texts(names: &Vec<DomainName>) -> Vec<String> {
    names.iter().map(|n| n.to_text()).collect()
}

#[test]
fn a_new_snapshot_is_empty() {
    let snapshot = AuthoritySnapshot::new();
    assert_eq!(snapshot.len(), 0);
    assert!(snapshot.zones().is_empty());
    assert!(snapshot.find_authority(&name("example.com.")).is_none());
    assert!(!snapshot.contains(&name("example.com.")));
}

#[test]
fn from_zones_keeps_each_name_once_in_lower_case() {
    let zones = vec![
        name("example.com."),
        mixed(&["Example", "ORG"]),
        name("example.com."),
        mixed(&["EXAMPLE", "org"]),
        name("example.net."),
    ];
    let snapshot = AuthoritySnapshot::from_zones(&zones);
    assert_eq!(snapshot.len(), 3);
    assert_eq!(texts(snapshot.zones()), vec!["example.com.", "example.org.", "example.net."]);
    assert!(snapshot.contains(&name("example.org.")));
    assert!(!snapshot.contains(&mixed(&["Example", "ORG"])));
    assert!(!snapshot.contains(&name("example.de.")));
}

#[test]
fn find_authority_finds_the_zone_of_a_name() {
    let snapshot = AuthoritySnapshot::from_zones(&vec![name("example.org."), name("example.com.")]);
    let found = snapshot.find_authority(&name("www.example.com.")).unwrap();
    assert_eq!(found.to_text(), "example.com.");
    let apex = snapshot.find_authority(&name("example.org.")).unwrap();
    assert_eq!(apex.to_text(), "example.org.");
    assert!(snapshot.find_authority(&name("example.net.")).is_none());
    assert!(snapshot.find_authority(&name("com.")).is_none());
}

#[test]
fn find_authority_takes_the_longest_zone_that_fits() {
    let outer_first = AuthoritySnapshot::from_zones(&vec![name("example.com."), name("sub.example.com.")]);
    assert_eq!(outer_first.find_authority(&name("a.sub.example.com.")).unwrap().to_text(), "sub.example.com.");
    assert_eq!(outer_first.find_authority(&name("sub.example.com.")).unwrap().to_text(), "sub.example.com.");
    assert_eq!(outer_first.find_authority(&name("www.example.com.")).unwrap().to_text(), "example.com.");
    let inner_first = AuthoritySnapshot::from_zones(&vec![name("sub.example.com."), name("example.com.")]);
    assert_eq!(inner_first.find_authority(&name("a.sub.example.com.")).unwrap().to_text(), "sub.example.com.");
    assert_eq!(inner_first.find_authority(&name("www.example.com.")).unwrap().to_text(), "example.com.");
    let three = AuthoritySnapshot::from_zones(&vec![name("com."), name("a.b.example.com."), name("example.com.")]);
    assert_eq!(three.find_authority(&name("x.a.b.example.com.")).unwrap().to_text(), "a.b.example.com.");
    assert_eq!(three.find_authority(&name("b.example.com.")).unwrap().to_text(), "example.com.");
    assert!(three.find_authority(&name("example.org.")).is_none());
}

#[test]
fn refresh_says_what_came_and_what_went() {
    let cache = AuthoritySnapshot::from_zones(&vec![name("a.example."), name("b.example."), name("c.example.")]);
    let refresh = cache.refresh(&vec![name("b.example."), name("d.example."), name("e.example.")]);
    assert_eq!(texts(refresh.snapshot.zones()), vec!["b.example.", "d.example.", "e.example."]);
    assert_eq!(texts(&refresh.added), vec!["d.example.", "e.example."]);
    assert_eq!(texts(&refresh.removed), vec!["a.example.", "c.example."]);
}

#[test]
fn refresh_from_nothing_adds_every_zone_once() {
    let cache = AuthoritySnapshot::new();
    let refresh = cache.refresh(&vec![name("a.example."), name("a.example."), name("b.example.")]);
    assert_eq!(texts(refresh.snapshot.zones()), vec!["a.example.", "b.example."]);
    assert_eq!(texts(&refresh.added), vec!["a.example.", "b.example."]);
    assert!(refresh.removed.is_empty());
}

#[test]
fn refresh_to_nothing_removes_every_zone() {
    let cache = AuthoritySnapshot::from_zones(&vec![name("a.example."), name("b.example.")]);
    let refresh = cache.refresh(&vec![]);
    assert_eq!(refresh.snapshot.len(), 0);
    assert!(refresh.added.is_empty());
    assert_eq!(texts(&refresh.removed), vec!["a.example.", "b.example."]);
}

#[test]
fn a_second_refresh_with_the_same_zones_changes_nothing() {
    let listed = vec![name("a.example."), mixed(&["B", "example"]), name("a.example.")];
    let first = AuthoritySnapshot::new().refresh(&listed);
    let second = first.snapshot.refresh(&listed);
    assert_eq!(texts(second.snapshot.zones()), texts(first.snapshot.zones()));
    assert!(second.added.is_empty());
    assert!(second.removed.is_empty());
}
