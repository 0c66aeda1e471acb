use ini::Ini;
use rpm_repo_search::gbs::{GbsConfig, IniSection};

fn parse(content: &str) -> GbsConfig {
    let ini = Ini::load_from_str(content).unwrap();
    let sections: Vec<IniSection> = ini
        .iter()
        .map(|(name, props)| IniSection {
            name: name.map(|n| n.to_string()),
            entries: props.iter().map(|(k, v)| (k.to_string(), v.to_string())).collect(),
        })
        .collect();
    GbsConfig::from_sections(&sections, "gbs.conf".to_string())
}

fn repo_url<'a>(cfg: &'a GbsConfig, name: &str) -> Option<&'a str> {
    cfg.repos.iter().find(|r| r.name == name).map(|r| r.url.as_str())
}

#[test]
fn test_parse_with_repos() {
    let config = r#"
[general]
profile = profile.tizen

[profile.tizen]
repos = repo.base, repo.unified

[repo.base]
url = http://download.tizen.org/base/packages/

[repo.unified]
url = http://download.tizen.org/unified/packages/
"#;
    let parsed = parse(config);

    assert_eq!(parsed.default_profile, Some("tizen".to_string()));
    assert_eq!(parsed.profiles.len(), 1);
    assert_eq!(parsed.repos.len(), 2);

    assert_eq!(repo_url(&parsed, "base").unwrap(), "http://download.tizen.org/base/packages/");
    assert_eq!(
        repo_url(&parsed, "unified").unwrap(),
        "http://download.tizen.org/unified/packages/"
    );
    assert_eq!(parsed.profiles[0].repos, vec!["repo.base".to_string(), "repo.unified".to_string()]);
}

#[test]
fn test_get_repo_urls() {
    let config = r#"
[general]
profile = profile.tizen

[profile.tizen]
repos = repo.base, repo.unified

[repo.base]
url = http://example.com/base/

[repo.unified]
url = http://example.com/unified/
"#;
    let parsed = parse(config);

    let urls = parsed.get_repo_urls(None).unwrap();
    assert_eq!(urls.len(), 2);
    assert!(urls.iter().any(|(n, _)| n == "base"));
    assert!(urls.iter().any(|(n, _)| n == "unified"));
}

#[test]
fn test_to_sync_config() {
    let config = r#"
[general]
profile = profile.tizen

[profile.tizen]
repos = repo.base, repo.unified

[repo.base]
url = http://example.com/base/

[repo.unified]
url = http://example.com/unified/
"#;
    let parsed = parse(config);

    let sync_config = parsed.to_sync_config(None).unwrap();
    assert_eq!(sync_config.repositories.len(), 2);

    let base_repo = sync_config.repositories.iter().find(|r| r.name == "base").unwrap();
    assert_eq!(base_repo.base_url, "http://example.com/base");
    assert!(base_repo.enabled);
}

#[test]
fn test_explicit_profile_selection() {
    let config = r#"
[general]
profile = profile.default

[profile.default]
repos = repo.a

[profile.custom]
repos = repo.b

[repo.a]
url = http://example.com/a/

[repo.b]
url = http://example.com/b/
"#;
    let parsed = parse(config);

    let urls = parsed.get_repo_urls(None).unwrap();
    assert_eq!(urls.len(), 1);
    assert_eq!(urls[0].0, "a");

    let urls = parsed.get_repo_urls(Some("custom")).unwrap();
    assert_eq!(urls.len(), 1);
    assert_eq!(urls[0].0, "b");
}

#[test]
fn test_missing_repo_section() {
    let config = r#"
[general]
profile = profile.tizen

[profile.tizen]
repos = repo.base, repo.missing

[repo.base]
url = http://example.com/base/
"#;
    let parsed = parse(config);

    let result = parsed.get_repo_urls(None);
    assert!(result.is_err());
    let err_msg = result.unwrap_err().message();
    assert!(err_msg.contains("missing"));
}

#[test]
fn test_nonexistent_profile() {
    let config = r#"
[general]
profile = profile.tizen

[profile.tizen]
repos = repo.base

[repo.base]
url = http://example.com/base/
"#;
    let parsed = parse(config);

    let result = parsed.get_repo_urls(Some("nonexistent"));
    assert!(result.is_err());
    let err_msg = result.unwrap_err().message();
    assert!(err_msg.contains("nonexistent"));
}

#[test]
fn test_default_profile_selection() {
    let config = r#"
[profile.only_one]
repos = repo.a

[repo.a]
url = http://example.com/a/
"#;
    let parsed = parse(config);

    assert_eq!(parsed.default_profile, None);
    let urls = parsed.get_repo_urls(None).unwrap();
    assert_eq!(urls.len(), 1);
}

#[test]
fn test_trailing_slash_normalization() {
    let config = r#"
[general]
profile = profile.test

[profile.test]
repos = repo.a

[repo.a]
url = http://example.com/packages/
"#;
    let parsed = parse(config);

    let sync_config = parsed.to_sync_config(None).unwrap();
    assert_eq!(sync_config.repositories[0].base_url, "http://example.com/packages");
}

#[test]
fn later_section_replaces_earlier_and_spaces_are_trimmed() {
    let sections = vec![
        IniSection {
            name: Some("profile.p".to_string()),
            entries: vec![("repos".to_string(), "a".to_string())],
        },
        IniSection {
            name: Some("profile.p".to_string()),
            entries: vec![("repos".to_string(), " x ,\u{3000}y,".to_string())],
        },
        IniSection { name: Some("repo.nourl".to_string()), entries: vec![] },
    ];
    let cfg = GbsConfig::from_sections(&sections, String::new());
    assert_eq!(cfg.profiles.len(), 1);
    assert_eq!(cfg.profiles[0].repos, vec!["x".to_string(), "y".to_string(), "".to_string()]);
    assert!(cfg.repos.is_empty());
    assert_eq!(cfg.default_profile, None);
}
