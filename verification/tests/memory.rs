use telos_agent::memory::{
    MemoryCategory, MemoryEntry, MemoryMaintenanceActionKind, MemoryMaintenancePolicy,
    MemoryStatus, MemoryStore,
};

fn entry(name: &str, category: MemoryCategory, status: MemoryStatus, tags: &[&str], used: u64, updated: &str) -> MemoryEntry {
    MemoryEntry {
        name: name.into(),
        category,
        status,
        tags: tags.iter().map(|t| t.to_string()).collect(),
        times_used: used,
        updated: updated.into(),
    }
}

fn names(report: &telos_agent::memory::MemoryMaintenanceReport) -> Vec<(String, String)> {
    report.actions.iter().map(|a| (a.name.clone(), a.reason.clone())).collect()
}

#[test]
fn default_policy_archives_deprecated_and_keeps_twenty_commands() {
    let policy = MemoryMaintenancePolicy::default();
    assert_eq!(policy.max_auto_learned_commands, Some(20));
    assert_eq!(policy.max_active_entries, None);
    assert!(policy.archive_deprecated);
}

#[test]
fn deprecated_memories_are_archived_in_name_order() {
    let mut store = MemoryStore::new();
    store.insert(entry("zeta", MemoryCategory::Fact, MemoryStatus::Deprecated, &[], 0, "1"));
    store.insert(entry("alpha", MemoryCategory::Fact, MemoryStatus::Deprecated, &[], 0, "1"));
    store.insert(entry("beta", MemoryCategory::Fact, MemoryStatus::Verified, &[], 0, "1"));
    let report = store.maintenance_report(&MemoryMaintenancePolicy::default());
    assert!(!report.applied);
    assert_eq!(report.active_before, 3);
    assert_eq!(report.archived_count, 0);
    assert_eq!(
        names(&report),
        vec![
            ("alpha".to_string(), "status is deprecated".to_string()),
            ("zeta".to_string(), "status is deprecated".to_string()),
        ]
    );
    assert!(report.actions.iter().all(|a| a.action == MemoryMaintenanceActionKind::Archive));
}

#[test]
fn least_used_auto_learned_commands_beyond_the_limit_are_archived() {
    let mut store = MemoryStore::new();
    store.insert(entry("cmd-a", MemoryCategory::Command, MemoryStatus::Working, &["Auto-Learned"], 5, "10"));
    store.insert(entry("cmd-b", MemoryCategory::Command, MemoryStatus::Working, &["auto-learned"], 1, "30"));
    store.insert(entry("cmd-c", MemoryCategory::Command, MemoryStatus::Working, &["auto-learned"], 1, "20"));
    store.insert(entry("cmd-d", MemoryCategory::Command, MemoryStatus::Working, &["manual"], 0, "0"));
    let policy = MemoryMaintenancePolicy { max_auto_learned_commands: Some(1), max_active_entries: None, archive_deprecated: true };
    let report = store.maintenance_report(&policy);
    let reason = "exceeds auto-learned command retention limit".to_string();
    assert_eq!(names(&report), vec![("cmd-c".to_string(), reason.clone()), ("cmd-b".to_string(), reason)]);
}

#[test]
fn overall_limit_archives_least_trusted_first() {
    let mut store = MemoryStore::new();
    store.insert(entry("v", MemoryCategory::Fact, MemoryStatus::Verified, &[], 0, "1"));
    store.insert(entry("w", MemoryCategory::Fact, MemoryStatus::Working, &[], 9, "1"));
    store.insert(entry("d", MemoryCategory::Fact, MemoryStatus::Deprecated, &[], 9, "1"));
    let policy = MemoryMaintenancePolicy { max_auto_learned_commands: None, max_active_entries: Some(1), archive_deprecated: false };
    let report = store.maintenance_report(&policy);
    let reason = "exceeds active memory retention limit".to_string();
    assert_eq!(names(&report), vec![("d".to_string(), reason.clone()), ("w".to_string(), reason)]);
}

#[test]
fn applying_maintenance_archives_the_planned_memories() {
    let mut store = MemoryStore::new();
    store.insert(entry("old", MemoryCategory::Fact, MemoryStatus::Deprecated, &[], 0, "1"));
    store.insert(entry("keep", MemoryCategory::Fact, MemoryStatus::Verified, &[], 0, "1"));
    let report = store.apply_maintenance(&MemoryMaintenancePolicy::default());
    assert!(report.applied);
    assert_eq!(report.archived_count, 1);
    assert_eq!(store.len(), 1);
    assert!(store.read("old").is_none());
    assert!(store.read("keep").is_some());
}

#[test]
fn inserting_a_name_again_replaces_the_memory() {
    let mut store = MemoryStore::new();
    store.insert(entry("a", MemoryCategory::Fact, MemoryStatus::Working, &[], 0, "1"));
    store.insert(entry("a", MemoryCategory::Fact, MemoryStatus::Verified, &[], 3, "2"));
    assert_eq!(store.len(), 1);
    assert_eq!(store.read("a").unwrap().times_used, 3);
}
