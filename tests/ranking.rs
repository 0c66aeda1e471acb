use rpm_repo_search::fusion::{
    fuse_scores, FusionWeights, MIN_SCORE_THRESHOLD, SCORE_SCALE, WEIGHT_SCALE,
};
use rpm_repo_search::package::{Dependency, Package};
use rpm_repo_search::planner::{
    apply_post_filters, matches_filters, plan_search, semantic_limit, skip_semantic, SearchFilters,
    SearchPlan, SearchQuery,
};

fn score(x: f64) -> u64 {
    (x * SCORE_SCALE as f64).round() as u64
}

fn no_filters() -> SearchFilters {
    SearchFilters { name: None, arch: None, repos: vec![], not_requiring: None, providing: None }
}

#[test]
fn fusion_scenario() {
    let lexical = vec![(42, score(1.0))];
    let semantic = vec![(42, score(0.9)), (7, score(0.6))];
    let r = fuse_scores(&lexical, &semantic, 10, FusionWeights::standard());
    assert_eq!(r, vec![(42, 94_500_000), (7, 33_000_000)]);
    let one = (SCORE_SCALE * WEIGHT_SCALE) as f64;
    assert!((r[0].1 as f64 / one - 0.945).abs() < 1e-9);
    assert!((r[1].1 as f64 / one - 0.33).abs() < 1e-9);
}

#[test]
fn fusion_threshold_and_cap() {
    let lexical = vec![(1, score(0.2)), (2, score(1.0)), (3, score(0.5))];
    let semantic = vec![(4, score(0.2)), (3, score(0.5)), (5, score(1.0))];
    let r = fuse_scores(&lexical, &semantic, 10, FusionWeights::standard());
    // 1: 0.09 dropped; 4: 0.11 dropped.
    assert_eq!(r.iter().map(|e| e.0).collect::<Vec<_>>(), vec![5, 3, 2]);
    for (_, s) in &r {
        assert!(*s >= MIN_SCORE_THRESHOLD && *s <= SCORE_SCALE * WEIGHT_SCALE);
    }
    let capped = fuse_scores(&lexical, &semantic, 2, FusionWeights::standard());
    assert_eq!(capped.len(), 2);
    assert_eq!(fuse_scores(&lexical, &semantic, 0, FusionWeights::standard()).len(), 0);
}

#[test]
fn fusion_ties_keep_first_appearance() {
    let lexical = vec![(9, score(1.0)), (8, score(1.0))];
    let semantic = vec![(6, score(1.0))];
    let w = FusionWeights { structured: 55, semantic: 55, min_score: 0 };
    let r = fuse_scores(&lexical, &semantic, 10, w);
    assert_eq!(r.iter().map(|e| e.0).collect::<Vec<_>>(), vec![9, 8, 6]);
}

#[test]
fn fusion_is_deterministic_and_handles_empty_inputs() {
    let lexical = vec![(1, score(0.7)), (2, score(0.3))];
    let semantic = vec![(2, score(0.8)), (3, score(0.9))];
    let a = fuse_scores(&lexical, &semantic, 5, FusionWeights::standard());
    let b = fuse_scores(&lexical, &semantic, 5, FusionWeights::standard());
    assert_eq!(a, b);
    assert!(a.len() <= 3);
    assert!(fuse_scores(&vec![], &vec![], 5, FusionWeights::standard()).is_empty());
}

#[test]
fn planner_paths() {
    let q = SearchQuery {
        query_text: String::new(),
        filters: SearchFilters { name: Some("bash".to_string()), ..no_filters() },
        top_k: None,
    };
    assert!(matches!(plan_search(&q, 50), SearchPlan::ExactName(n) if n == "bash"));

    let q = SearchQuery { query_text: "web server".to_string(), filters: no_filters(), top_k: Some(5) };
    assert!(matches!(
        plan_search(&q, 50),
        SearchPlan::Hybrid { top_k: 5, semantic_limit: 30, prefilter: false }
    ));

    let q = SearchQuery {
        query_text: "ssl".to_string(),
        filters: SearchFilters { repos: vec!["base".to_string()], ..no_filters() },
        top_k: None,
    };
    assert!(matches!(
        plan_search(&q, 50),
        SearchPlan::Hybrid { top_k: 50, semantic_limit: 150, prefilter: true }
    ));
    assert_eq!(semantic_limit(usize::MAX), usize::MAX);
    assert!(skip_semantic(true, 0));
    assert!(!skip_semantic(true, 3));
    assert!(!skip_semantic(false, 0));
}

fn pkg(name: &str, arch: &str, repo: &str, req: &[&str], prov: &[&str]) -> Package {
    let dep = |n: &&str| Dependency { name: n.to_string(), flags: None, version: None };
    Package {
        pkg_id: None,
        name: name.to_string(),
        epoch: None,
        version: "1".to_string(),
        release: "1".to_string(),
        arch: arch.to_string(),
        summary: String::new(),
        description: String::new(),
        license: None,
        vcs: None,
        repo: repo.to_string(),
        requires: req.iter().map(dep).collect(),
        provides: prov.iter().map(dep).collect(),
    }
}

#[test]
fn post_filters_drop_without_replacing() {
    let filters = SearchFilters {
        name: None,
        arch: Some("x86_64".to_string()),
        repos: vec!["base".to_string(), "extra".to_string()],
        not_requiring: Some("python3".to_string()),
        providing: Some("webserver".to_string()),
    };
    assert!(matches_filters(&filters, &pkg("nginx", "x86_64", "base", &["openssl"], &["webserver"])));
    assert!(!matches_filters(&filters, &pkg("nginx", "aarch64", "base", &[], &["webserver"])));
    assert!(!matches_filters(&filters, &pkg("nginx", "x86_64", "other", &[], &["webserver"])));
    assert!(!matches_filters(&filters, &pkg("x", "x86_64", "base", &["python3"], &["webserver"])));
    assert!(!matches_filters(&filters, &pkg("x", "x86_64", "base", &[], &[])));

    let hydrated = vec![
        (pkg("a", "x86_64", "base", &[], &["webserver"]), 90),
        (pkg("b", "x86_64", "base", &["python3"], &["webserver"]), 80),
        (pkg("c", "x86_64", "extra", &[], &["webserver"]), 70),
    ];
    let kept = apply_post_filters(&filters, hydrated);
    assert_eq!(kept.iter().map(|(p, s)| (p.name.clone(), *s)).collect::<Vec<_>>(),
        vec![("a".to_string(), 90), ("c".to_string(), 70)]);
    assert!(matches_filters(&no_filters(), &pkg("any", "noarch", "r", &[], &[])));
}
