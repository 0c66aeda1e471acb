use rpm_repo_search::package::Package;
use rpm_repo_search::sync::{classify, SnapshotEntry};
use rpm_repo_search::version::RpmVersion;

fn pkg(name: &str, arch: &str, epoch: Option<i64>, version: &str, release: &str) -> Package {
    Package {
        pkg_id: None,
        name: name.to_string(),
        epoch,
        version: version.to_string(),
        release: release.to_string(),
        arch: arch.to_string(),
        summary: String::new(),
        description: String::new(),
        license: None,
        vcs: None,
        repo: "base".to_string(),
        requires: vec![],
        provides: vec![],
    }
}

fn entry(id: i64, name: &str, arch: &str, epoch: i64, version: &str, release: &str) -> SnapshotEntry {
    SnapshotEntry {
        pkg_id: id,
        name: name.to_string(),
        arch: arch.to_string(),
        version: RpmVersion::new(Some(epoch), version.to_string(), release.to_string()),
    }
}

fn names(ps: &[Package]) -> Vec<String> {
    let mut v: Vec<String> = ps.iter().map(|p| format!("{}.{}", p.name, p.arch)).collect();
    v.sort();
    v
}

#[test]
fn update_scenario() {
    let existing = vec![entry(11, "bash", "x86_64", 0, "5.1", "1")];
    let incoming = vec![pkg("bash", "x86_64", Some(0), "5.2", "1")];
    let plan = classify(&existing, incoming);
    assert_eq!(plan.inserts.len(), 0);
    assert_eq!(plan.deletes.len(), 0);
    assert_eq!(plan.updates.len(), 1);
    assert_eq!(plan.updates[0].0, 11);
    assert_eq!(plan.updates[0].1.version, "5.2");
    assert_eq!(plan.counts(), (0, 1, 0));
}

#[test]
fn delete_scenario() {
    let existing = vec![entry(3, "foo", "noarch", 0, "1.0", "1")];
    let plan = classify(&existing, vec![]);
    assert_eq!(plan.inserts.len(), 0);
    assert_eq!(plan.updates.len(), 0);
    assert_eq!(plan.deletes, vec![("foo".to_string(), "noarch".to_string())]);
}

#[test]
fn equal_versions_are_unchanged() {
    let existing = vec![entry(1, "zlib", "x86_64", 0, "1.2.11", "1")];
    // A missing epoch is epoch 0, and "1.2.011" has the same segments.
    let incoming = vec![pkg("zlib", "x86_64", None, "1.2.011", "1")];
    let plan = classify(&existing, incoming);
    assert_eq!(plan.counts(), (0, 0, 0));
}

#[test]
fn every_key_in_exactly_one_category() {
    let existing = vec![
        entry(1, "a", "x86_64", 0, "1", "1"),
        entry(2, "b", "x86_64", 0, "1", "1"),
        entry(3, "c", "x86_64", 0, "1", "1"),
    ];
    let incoming = vec![
        pkg("b", "x86_64", None, "2", "1"),
        pkg("c", "x86_64", None, "1", "1"),
        pkg("d", "x86_64", None, "1", "1"),
        pkg("a", "noarch", None, "1", "1"),
    ];
    let plan = classify(&existing, incoming);
    assert_eq!(names(&plan.inserts), vec!["a.noarch".to_string(), "d.x86_64".to_string()]);
    assert_eq!(plan.updates.len(), 1);
    assert_eq!(plan.updates[0].0, 2);
    assert_eq!(plan.deletes, vec![("a".to_string(), "x86_64".to_string())]);
}

#[test]
fn shuffled_incoming_gives_same_sets() {
    let existing = vec![
        entry(1, "a", "x86_64", 0, "1", "1"),
        entry(2, "b", "x86_64", 0, "1", "1"),
        entry(3, "gone", "x86_64", 0, "1", "1"),
    ];
    let make = || {
        vec![
            pkg("a", "x86_64", None, "1", "2"),
            pkg("b", "x86_64", None, "1", "1"),
            pkg("new1", "x86_64", None, "1", "1"),
            pkg("new2", "i686", None, "1", "1"),
        ]
    };
    let first = classify(&existing, make());
    let mut shuffled = make();
    shuffled.reverse();
    shuffled.swap(0, 2);
    let second = classify(&existing, shuffled);
    assert_eq!(names(&first.inserts), names(&second.inserts));
    let ups = |p: &rpm_repo_search::sync::SyncPlan| {
        let mut v: Vec<(i64, String)> = p.updates.iter().map(|(id, p)| (*id, p.release.clone())).collect();
        v.sort();
        v
    };
    assert_eq!(ups(&first), ups(&second));
    assert_eq!(first.deletes, second.deletes);
    assert_eq!(first.deletes, vec![("gone".to_string(), "x86_64".to_string())]);
}

#[test]
fn empty_batch_and_empty_snapshot() {
    let plan = classify(&vec![], vec![]);
    assert_eq!(plan.counts(), (0, 0, 0));
    let plan = classify(&vec![], vec![pkg("x", "noarch", None, "1", "1")]);
    assert_eq!(plan.counts(), (1, 0, 0));
}
