use rpm_repo_search::version::RpmVersion;
use std::cmp::Ordering;

fn v(epoch: Option<i64>, version: &str, release: &str) -> RpmVersion {
    RpmVersion::new(epoch, version.to_string(), release.to_string())
}

#[test]
fn version_test_epoch_comparison() {
    let v1 = RpmVersion::new(Some(1), "1.0".to_string(), "1".to_string());
    let v2 = RpmVersion::new(Some(2), "1.0".to_string(), "1".to_string());
    assert!(v1 < v2);
}

#[test]
fn test_version_numeric() {
    let v1 = RpmVersion::new(None, "1.0".to_string(), "1".to_string());
    let v2 = RpmVersion::new(None, "2.0".to_string(), "1".to_string());
    assert!(v1 < v2);

    let v3 = RpmVersion::new(None, "1.10".to_string(), "1".to_string());
    let v4 = RpmVersion::new(None, "1.2".to_string(), "1".to_string());
    assert!(v3 > v4);
}

#[test]
fn test_version_alpha() {
    let v1 = RpmVersion::new(None, "1.0a".to_string(), "1".to_string());
    let v2 = RpmVersion::new(None, "1.0b".to_string(), "1".to_string());
    assert!(v1 < v2);
}

#[test]
fn test_release_comparison() {
    let v1 = RpmVersion::new(None, "1.0".to_string(), "1.el9".to_string());
    let v2 = RpmVersion::new(None, "1.0".to_string(), "2.el9".to_string());
    assert!(v1 < v2);
}

#[test]
fn test_numeric_vs_alpha() {
    let v1 = RpmVersion::new(None, "1.0.1".to_string(), "1".to_string());
    let v2 = RpmVersion::new(None, "1.0.a".to_string(), "1".to_string());
    assert!(v1 > v2);
}

#[test]
fn test_real_world_versions() {
    let v1 = RpmVersion::new(None, "2.6.32".to_string(), "279.el6".to_string());
    let v2 = RpmVersion::new(None, "2.6.32".to_string(), "754.el6".to_string());
    assert!(v1 < v2);

    let v3 = RpmVersion::new(Some(1), "2.6.32".to_string(), "100.el6".to_string());
    let v4 = RpmVersion::new(None, "3.0.0".to_string(), "1.el6".to_string());
    assert!(v3 > v4);
}

#[test]
fn test_tilde_versions() {
    let v1 = RpmVersion::new(None, "1.0~rc1".to_string(), "1".to_string());
    let v2 = RpmVersion::new(None, "1.0".to_string(), "1".to_string());
    assert_eq!(v1.cmp(&v2), Ordering::Less);

    let v3 = RpmVersion::new(None, "1.0~alpha".to_string(), "1".to_string());
    let v4 = RpmVersion::new(None, "1.0~beta".to_string(), "1".to_string());
    assert_eq!(v3.cmp(&v4), Ordering::Less);

    let v5 = RpmVersion::new(None, "1.0~rc1".to_string(), "1".to_string());
    let v6 = RpmVersion::new(None, "1.0~rc2".to_string(), "1".to_string());
    assert_eq!(v5.cmp(&v6), Ordering::Less);

    let v7 = RpmVersion::new(None, "2.0~1".to_string(), "1".to_string());
    let v8 = RpmVersion::new(None, "2.0~2".to_string(), "1".to_string());
    assert_eq!(v7.cmp(&v8), Ordering::Less);

    let v9 = RpmVersion::new(None, "1.0".to_string(), "1~rc1".to_string());
    let v10 = RpmVersion::new(None, "1.0".to_string(), "1".to_string());
    assert_eq!(v9.cmp(&v10), Ordering::Less);
}

#[test]
fn test_segment_comparison() {
    assert_eq!(RpmVersion::compare_segments("1.0", "1.0"), Ordering::Equal);
    assert_eq!(RpmVersion::compare_segments("1.0", "2.0"), Ordering::Less);
    assert_eq!(RpmVersion::compare_segments("2.0", "1.0"), Ordering::Greater);
    assert_eq!(RpmVersion::compare_segments("1.10", "1.2"), Ordering::Greater);
    assert_eq!(RpmVersion::compare_segments("1a", "1b"), Ordering::Less);
    assert_eq!(RpmVersion::compare_segments("1.0~rc1", "1.0"), Ordering::Less);
    assert_eq!(RpmVersion::compare_segments("1.0~alpha", "1.0~beta"), Ordering::Less);
    assert_eq!(RpmVersion::compare_segments("2.0~1", "2.0~2"), Ordering::Less);
}

#[test]
fn tilde_precedence_scenarios() {
    assert_eq!(v(Some(0), "1.0~rc1", "1").cmp(&v(Some(0), "1.0", "1")), Ordering::Less);
    assert_eq!(v(Some(0), "1.0~alpha", "1").cmp(&v(Some(0), "1.0~beta", "1")), Ordering::Less);
    assert_eq!(v(Some(0), "1.0", "1").cmp(&v(Some(0), "1.0.1", "1")), Ordering::Less);
}

#[test]
fn numeric_over_alpha_scenario() {
    assert_eq!(v(Some(0), "1.0.1", "1").cmp(&v(Some(0), "1.0.a", "1")), Ordering::Greater);
}

#[test]
fn numeric_magnitude_scenario() {
    assert_eq!(v(Some(0), "1.10", "1").cmp(&v(Some(0), "1.2", "1")), Ordering::Greater);
}

#[test]
fn epoch_dominates_version_and_release() {
    assert_eq!(v(Some(1), "0.1", "1").cmp(&v(Some(0), "99.9", "99")), Ordering::Greater);
    assert_eq!(v(None, "99", "99").cmp(&v(Some(1), "1", "1")), Ordering::Less);
    assert_eq!(v(None, "1.0", "1").cmp(&v(Some(0), "1.0", "1")), Ordering::Equal);
}

#[test]
fn total_order_on_samples() {
    let samples = [
        v(None, "1.0~rc1", "1"),
        v(None, "1.0", "1"),
        v(None, "1.0.1", "1"),
        v(None, "1.0.a", "1"),
        v(None, "1.10", "1"),
        v(None, "1.2", "1"),
        v(Some(1), "0.1", "1"),
        v(None, "1.00", "1"),
    ];
    for a in samples.iter() {
        assert_eq!(a.cmp(a), Ordering::Equal);
        for b in samples.iter() {
            assert_eq!(a.cmp(b), b.cmp(a).reverse());
            for c in samples.iter() {
                if a.cmp(b) == Ordering::Less && b.cmp(c) == Ordering::Less {
                    assert_eq!(a.cmp(c), Ordering::Less);
                }
            }
        }
    }
}

#[test]
fn leading_zeros_and_long_numbers() {
    assert_eq!(RpmVersion::compare_segments("1.01", "1.1"), Ordering::Equal);
    assert_eq!(
        RpmVersion::compare_segments("1.123456789012345678901234567890", "1.99999999999999999999"),
        Ordering::Greater
    );
    assert_eq!(RpmVersion::compare_segments("", ""), Ordering::Equal);
    assert_eq!(RpmVersion::compare_segments("", "0"), Ordering::Less);
    assert_eq!(RpmVersion::compare_segments("~", ""), Ordering::Less);
    assert_eq!(RpmVersion::compare_segments("1..0", "1.0"), Ordering::Equal);
    assert!(v(None, "1.0", "1") == v(Some(0), "1.00", "1"));
}

#[test]
fn unicode_letters_and_separators() {
    // A non-ASCII letter forms an alphabetic segment; it sorts by code point.
    assert_eq!(RpmVersion::compare_segments("1é", "1e"), Ordering::Greater);
    assert_eq!(RpmVersion::compare_segments("1+2", "1.2"), Ordering::Equal);
    assert_eq!(RpmVersion::compare_segments("1_2", "1-2"), Ordering::Equal);
}
