use rpm_repo_search::package::{Dependency, Package};
use rpm_repo_search::repomd::{RpmDependency, RpmPackage};

fn pkg(name: &str, epoch: Option<i64>, version: &str, release: &str) -> Package {
    Package {
        pkg_id: None,
        name: name.to_string(),
        epoch,
        version: version.to_string(),
        release: release.to_string(),
        arch: "x86_64".to_string(),
        summary: "".to_string(),
        description: "".to_string(),
        license: None,
        vcs: None,
        repo: "".to_string(),
        requires: vec![],
        provides: vec![],
    }
}

#[test]
fn test_build_embedding_text() {
    let pkg = Package {
        pkg_id: None,
        name: "openssl".to_string(),
        epoch: Some(1),
        version: "3.0.0".to_string(),
        release: "1.el9".to_string(),
        arch: "x86_64".to_string(),
        summary: "Cryptography library".to_string(),
        description: "OpenSSL is a robust cryptography library".to_string(),
        license: None,
        vcs: None,
        repo: "baseos".to_string(),
        requires: vec![Dependency {
            name: "glibc".to_string(),
            flags: Some(">=".to_string()),
            version: Some("2.34".to_string()),
        }],
        provides: vec![Dependency {
            name: "libssl.so.3".to_string(),
            flags: None,
            version: None,
        }],
    };

    let text = pkg.build_embedding_text();
    assert!(text.contains("Package: openssl"));
    assert!(text.contains("Name: openssl"));
    assert!(text.contains("Architecture: x86_64"));
    assert!(text.contains("Summary: Cryptography library"));
    assert!(text.contains("Provides: libssl.so.3"));
    assert!(text.contains("Requires: glibc"));
}

#[test]
fn embedding_text_exact_and_truncated() {
    let mut p = pkg("a", None, "1", "1");
    p.summary = "s".to_string();
    p.description = "d".to_string();
    assert_eq!(
        p.build_embedding_text(),
        "Package: a\nName: a\nArchitecture: x86_64\nSummary: s\nDescription:\nd\n"
    );

    p.description = "x".repeat(450);
    let text = p.build_embedding_text();
    assert!(text.contains(&format!("Description:\n{}\n", "x".repeat(400))));
    assert!(!text.contains(&"x".repeat(401)));

    // A two-byte character that starts before byte 400 is kept whole.
    p.description = format!("{}é{}", "y".repeat(399), "z".repeat(10));
    let text = p.build_embedding_text();
    assert!(text.contains(&format!("{}é\n", "y".repeat(399))));

    p.description = "d".to_string();
    p.provides = (0..25)
        .map(|i| Dependency { name: format!("cap{}", i), flags: None, version: None })
        .collect();
    let text = p.build_embedding_text();
    assert!(text.contains("Provides: cap0, cap1, cap2"));
    assert!(text.contains("cap19\n"));
    assert!(!text.contains("cap20"));
}

#[test]
fn test_full_version() {
    let pkg = Package {
        pkg_id: None,
        name: "test".to_string(),
        epoch: Some(2),
        version: "1.0.0".to_string(),
        release: "1.el9".to_string(),
        arch: "x86_64".to_string(),
        summary: "".to_string(),
        description: "".to_string(),
        license: None,
        vcs: None,
        repo: "".to_string(),
        requires: vec![],
        provides: vec![],
    };

    assert_eq!(pkg.full_version(), "2:1.0.0-1.el9");
}

#[test]
fn full_version_without_and_with_large_epoch() {
    assert_eq!(pkg("a", None, "1.2", "3").full_version(), "1.2-3");
    assert_eq!(pkg("a", Some(0), "1", "1").full_version(), "0:1-1");
    assert_eq!(pkg("a", Some(-5), "1", "1").full_version(), "-5:1-1");
    assert_eq!(
        pkg("a", Some(i64::MIN), "1", "1").full_version(),
        "-9223372036854775808:1-1"
    );
}

#[test]
fn test_version_comparison() {
    let pkg1 = Package {
        pkg_id: None,
        name: "kernel".to_string(),
        epoch: None,
        version: "5.14.0".to_string(),
        release: "279.el9".to_string(),
        arch: "x86_64".to_string(),
        summary: "".to_string(),
        description: "".to_string(),
        license: None,
        vcs: None,
        repo: "".to_string(),
        requires: vec![],
        provides: vec![],
    };

    let pkg2 = Package {
        pkg_id: None,
        name: "kernel".to_string(),
        epoch: None,
        version: "5.14.0".to_string(),
        release: "754.el9".to_string(),
        arch: "x86_64".to_string(),
        summary: "".to_string(),
        description: "".to_string(),
        license: None,
        vcs: None,
        repo: "".to_string(),
        requires: vec![],
        provides: vec![],
    };

    assert!(pkg1 < pkg2);
}

#[test]
fn package_test_epoch_comparison() {
    let pkg1 = Package {
        pkg_id: None,
        name: "glibc".to_string(),
        epoch: Some(1),
        version: "2.34".to_string(),
        release: "1.el9".to_string(),
        arch: "x86_64".to_string(),
        summary: "".to_string(),
        description: "".to_string(),
        license: None,
        vcs: None,
        repo: "".to_string(),
        requires: vec![],
        provides: vec![],
    };

    let pkg2 = Package {
        pkg_id: None,
        name: "glibc".to_string(),
        epoch: None,
        version: "3.0".to_string(),
        release: "1.el9".to_string(),
        arch: "x86_64".to_string(),
        summary: "".to_string(),
        description: "".to_string(),
        license: None,
        vcs: None,
        repo: "".to_string(),
        requires: vec![],
        provides: vec![],
    };

    assert!(pkg1 > pkg2);
}

#[test]
fn packages_order_by_name_before_version() {
    assert!(pkg("a", Some(9), "9", "9") < pkg("b", None, "1", "1"));
    assert!(pkg("bash", None, "5.1", "1") == pkg("bash", Some(0), "5.01", "1"));
}

#[test]
fn from_rpm_package_joins_dependency_versions() {
    let raw = RpmPackage {
        name: "foo".to_string(),
        epoch: Some(2),
        version: "1.0".to_string(),
        release: "3".to_string(),
        arch: "noarch".to_string(),
        summary: "sum".to_string(),
        description: "desc".to_string(),
        license: Some("MIT".to_string()),
        vcs: None,
        packager: None,
        url: None,
        requires: vec![
            RpmDependency {
                name: "bar".to_string(),
                flags: Some("GE".to_string()),
                epoch: Some("1".to_string()),
                version: Some("2.0".to_string()),
                release: Some("4".to_string()),
            },
            RpmDependency::new("baz".to_string()).with_version("EQ".to_string(), "3".to_string()),
            RpmDependency::new("qux".to_string()),
        ],
        provides: vec![],
        files: vec![],
    };
    let p = Package::from_rpm_package(raw, "base".to_string());
    assert_eq!(p.repo, "base");
    assert_eq!(p.name, "foo");
    assert_eq!(p.requires.len(), 3);
    assert_eq!(p.requires[0].version.as_deref(), Some("1:2.0-4"));
    assert_eq!(p.requires[1].version.as_deref(), Some("3"));
    assert_eq!(p.requires[1].flags.as_deref(), Some("EQ"));
    assert_eq!(p.requires[2].version, None);
    let rv = p.to_rpm_version();
    assert_eq!(rv.epoch, 2);
    assert_eq!(rv.version, "1.0");
}
