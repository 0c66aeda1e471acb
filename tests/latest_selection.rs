use rpm_repo_search::latest::filter_latest;
use rpm_repo_search::package::Package;

fn pkg(name: &str, arch: &str, epoch: Option<i64>, version: &str, repo: &str) -> Package {
    Package {
        pkg_id: None,
        name: name.to_string(),
        epoch,
        version: version.to_string(),
        release: "1".to_string(),
        arch: arch.to_string(),
        summary: String::new(),
        description: String::new(),
        license: None,
        vcs: None,
        repo: repo.to_string(),
        requires: vec![],
        provides: vec![],
    }
}

fn show(ps: &[Package]) -> Vec<String> {
    ps.iter().map(|p| format!("{}.{}-{}@{}", p.name, p.arch, p.full_version(), p.repo)).collect()
}

#[test]
fn keeps_newest_per_name_and_arch_sorted() {
    let xs = vec![
        pkg("zsh", "x86_64", None, "5.8", "a"),
        pkg("bash", "x86_64", None, "5.1", "a"),
        pkg("bash", "x86_64", None, "5.10", "b"),
        pkg("bash", "i686", None, "5.0", "a"),
        pkg("zsh", "x86_64", Some(1), "1.0", "b"),
        pkg("bash", "x86_64", None, "5.2", "c"),
    ];
    let r = filter_latest(xs);
    assert_eq!(
        show(&r),
        vec![
            "bash.i686-5.0-1@a".to_string(),
            "bash.x86_64-5.10-1@b".to_string(),
            "zsh.x86_64-1:1.0-1@b".to_string(),
        ]
    );
}

#[test]
fn first_seen_wins_ties() {
    let xs = vec![
        pkg("a", "noarch", None, "1.0", "first"),
        pkg("a", "noarch", Some(0), "1.00", "second"),
    ];
    let r = filter_latest(xs);
    assert_eq!(show(&r), vec!["a.noarch-1.0-1@first".to_string()]);
}

#[test]
fn selecting_twice_changes_nothing() {
    let make = || {
        vec![
            pkg("b", "x86_64", None, "2", "r"),
            pkg("a", "x86_64", None, "1", "r"),
            pkg("b", "x86_64", None, "3", "s"),
            pkg("a", "aarch64", None, "1", "r"),
        ]
    };
    let once = filter_latest(make());
    let once_shown = show(&once);
    let twice = filter_latest(once);
    assert_eq!(show(&twice), once_shown);
    assert!(filter_latest(vec![]).is_empty());
}
