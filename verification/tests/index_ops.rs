use proxy_registry::index::RegistryIndex;
use proxy_registry::record::ProxyRecord;

fn record(id: i64, domain: &str, port: u16, enabled: bool) -> ProxyRecord {
    ProxyRecord { id, domain: domain.to_string(), port, enabled }
}

fn sorted(mut records: Vec<ProxyRecord>) -> Vec<ProxyRecord> {
    records.sort_by_key(|r| r.id);
    records
}

#[test]
fn new_record_is_enabled() {
    let r = ProxyRecord::new(7, "a.com".to_string(), 8080);
    assert_eq!(r, record(7, "a.com", 8080, true));
}

#[test]
fn with_enabled_changes_only_the_flag() {
    let r = record(7, "a.com", 8080, true);
    assert_eq!(r.with_enabled(false), record(7, "a.com", 8080, false));
    assert_eq!(r.with_enabled(true), r);
    assert_eq!(r.clone(), r);
}

#[test]
fn new_index_is_empty() {
    let index = RegistryIndex::new();
    assert!(index.snapshot_all().is_empty());
    assert!(!index.contains_domain("a.com"));
}

#[test]
fn upsert_files_under_domain() {
    let mut index = RegistryIndex::new();
    index.upsert(record(1, "a.com", 80, true));
    assert!(index.contains_domain("a.com"));
    assert!(!index.contains_domain("A.com"));
    assert!(!index.contains_domain("b.com"));
    assert_eq!(index.snapshot_all(), vec![record(1, "a.com", 80, true)]);
}

#[test]
fn upsert_replaces_entry_of_same_domain() {
    let mut index = RegistryIndex::new();
    index.upsert(record(1, "a.com", 80, true));
    index.upsert(record(2, "a.com", 81, false));
    assert_eq!(index.snapshot_all(), vec![record(2, "a.com", 81, false)]);
}

#[test]
fn remove_by_domain_removes_only_that_entry() {
    let mut index = RegistryIndex::new();
    index.upsert(record(1, "a.com", 80, true));
    index.upsert(record(2, "b.com", 81, true));
    index.remove_by_domain("a.com");
    assert!(!index.contains_domain("a.com"));
    assert_eq!(index.snapshot_all(), vec![record(2, "b.com", 81, true)]);
    index.remove_by_domain("missing.com");
    assert_eq!(index.snapshot_all(), vec![record(2, "b.com", 81, true)]);
}

#[test]
fn remove_by_id_finds_the_domain() {
    let mut index = RegistryIndex::new();
    index.upsert(record(1, "a.com", 80, true));
    index.upsert(record(2, "b.com", 81, true));
    index.upsert(record(3, "c.com", 82, true));
    assert!(index.remove_by_id(2));
    assert_eq!(
        sorted(index.snapshot_all()),
        vec![record(1, "a.com", 80, true), record(3, "c.com", 82, true)]
    );
    assert!(!index.remove_by_id(2));
    assert!(!index.remove_by_id(99));
    assert_eq!(index.snapshot_all().len(), 2);
}

#[test]
fn update_enabled_by_id_flips_flag_and_returns_record() {
    let mut index = RegistryIndex::new();
    index.upsert(record(1, "a.com", 80, true));
    index.upsert(record(2, "b.com", 81, true));
    let updated = index.update_enabled_by_id(2, false);
    assert_eq!(updated, Some(record(2, "b.com", 81, false)));
    assert_eq!(
        sorted(index.snapshot_all()),
        vec![record(1, "a.com", 80, true), record(2, "b.com", 81, false)]
    );
    let again = index.update_enabled_by_id(2, true);
    assert_eq!(again, Some(record(2, "b.com", 81, true)));
}

#[test]
fn update_enabled_by_id_reports_absence() {
    let mut index = RegistryIndex::new();
    index.upsert(record(1, "a.com", 80, true));
    assert_eq!(index.update_enabled_by_id(5, false), None);
    assert_eq!(index.snapshot_all(), vec![record(1, "a.com", 80, true)]);
}

#[test]
fn rebuild_from_clears_and_repopulates() {
    let mut index = RegistryIndex::new();
    index.upsert(record(9, "old.com", 1, true));
    index.rebuild_from(&vec![record(1, "a.com", 80, true), record(2, "b.com", 81, false)]);
    assert!(!index.contains_domain("old.com"));
    assert_eq!(
        sorted(index.snapshot_all()),
        vec![record(1, "a.com", 80, true), record(2, "b.com", 81, false)]
    );
    index.rebuild_from(&Vec::new());
    assert!(index.snapshot_all().is_empty());
}

#[test]
fn rebuild_from_keeps_the_later_of_two_with_one_domain() {
    let mut index = RegistryIndex::new();
    index.rebuild_from(&vec![record(1, "a.com", 80, true), record(2, "a.com", 81, false)]);
    assert_eq!(index.snapshot_all(), vec![record(2, "a.com", 81, false)]);
}

#[test]
fn snapshot_is_a_copy() {
    let mut index = RegistryIndex::new();
    index.upsert(record(1, "a.com", 80, true));
    let before = index.snapshot_all();
    index.remove_by_domain("a.com");
    assert_eq!(before, vec![record(1, "a.com", 80, true)]);
    assert!(index.snapshot_all().is_empty());
}
