use sinkhole::filter::{build, DomainSet, FilterBuildError};
use sinkhole::matcher::in_denylist;

fn denied(names: &[&str]) -> DomainSet {
    let entries: Vec<String> = names.iter().map(|s| s.to_string()).collect();
    let filter = qfilter::Filter::new(entries.len() as u64, 0.00000001).unwrap();
    build(filter, &entries).unwrap()
}

#[test]
fn every_inserted_entry_is_found() {
    let names: Vec<String> = (0..500).map(|i| format!("host{}.example.org", i)).collect();
    let refs: Vec<&str> = names.iter().map(|s| s.as_str()).collect();
    let set = denied(&refs);
    for name in &names {
        assert!(set.contains(name));
    }
}

#[test]
fn an_absent_name_is_not_found() {
    let set = denied(&["ads.example.com"]);
    assert!(!set.contains("example.com"));
    assert!(!set.contains("ads.example.org"));
}

#[test]
fn insert_then_contains() {
    let mut set = DomainSet::new(qfilter::Filter::new(4, 0.00000001).unwrap());
    assert!(!set.contains("tracker.net"));
    assert_eq!(set.insert("tracker.net"), Ok(()));
    assert!(set.contains("tracker.net"));
}

#[test]
fn a_full_filter_fails_to_build() {
    let names: Vec<String> = (0..200).map(|i| format!("n{}.test", i)).collect();
    let filter = qfilter::Filter::new(1, 0.00000001).unwrap();
    assert!(matches!(build(filter, &names), Err(FilterBuildError::CapacityExceeded)));
}

#[test]
fn the_listed_name_itself_is_blocked() {
    let set = denied(&["ads.example.com"]);
    assert!(in_denylist("ads.example.com", &set));
}

#[test]
fn a_subdomain_of_a_listed_name_is_blocked() {
    let set = denied(&["ads.example.com"]);
    assert!(in_denylist("images.ads.example.com", &set));
    assert!(in_denylist("a.b.images.ads.example.com", &set));
}

#[test]
fn a_parent_of_a_listed_name_is_not_blocked() {
    let set = denied(&["ads.example.com"]);
    assert!(!in_denylist("example.com", &set));
    assert!(!in_denylist("com", &set));
    assert!(!in_denylist("badads.example.com", &set));
}

#[test]
fn a_listed_top_level_label_blocks_its_names() {
    let set = denied(&["zip"]);
    assert!(in_denylist("zip", &set));
    assert!(in_denylist("files.example.zip", &set));
    assert!(!in_denylist("zip.example.com", &set));
}

#[test]
fn the_empty_domain_is_never_blocked() {
    let set = denied(&["", "com"]);
    assert!(!in_denylist("", &set));
}

#[test]
fn a_filter_sized_for_its_entries_takes_them_all() {
    let names: Vec<String> = (0..64).map(|i| format!("d{}.example", i)).collect();
    let filter = qfilter::Filter::new(names.len() as u64, 0.00000001).unwrap();
    let set = build(filter, &names).unwrap();
    for name in &names {
        assert!(set.contains(name));
        assert!(in_denylist(&format!("www.{}", name), &set));
    }
}
