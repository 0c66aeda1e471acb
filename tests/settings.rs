use rpm_repo_search::config::{
    default_enabled, default_interval, default_work_dir, Config, ModelType, SyncConfig,
    SyncResult, SyncScheduler, SyncStatus,
};
use rpm_repo_search::error::RpmSearchError;
use rpm_repo_search::gbs::{GbsConfig, ProfileConfig, RepoConfig};
use rpm_repo_search::protocol::{InitializeResult, TextContent, ToolResult};
use rpm_repo_search::repomd::{RpmDependency, RpmFileType};

#[test]
fn model_type_strings() {
    let m = ModelType::Minilm;
    let e = ModelType::E5Multilingual;
    assert_eq!(m.default_model_path(), "models/all-MiniLM-L6-v2");
    assert_eq!(e.default_tokenizer_path(), "models/multilingual-e5-small/tokenizer.json");
    assert_eq!(m.display_name(), "all-MiniLM-L6-v2");
    assert_eq!(e.as_db_str(), "e5-multilingual");
    assert_eq!(ModelType::from_db_str("minilm"), Some(ModelType::Minilm));
    assert_eq!(ModelType::from_db_str("e5-multilingual"), Some(ModelType::E5Multilingual));
    assert_eq!(ModelType::from_db_str("bert"), None);
    assert_eq!(e.huggingface_url(), "https://huggingface.co/intfloat/multilingual-e5-small");
    assert!(e.requires_prefix() && !m.requires_prefix());
    assert_eq!(ModelType::default(), ModelType::Minilm);
}

#[test]
fn config_defaults_and_model_switch() {
    let c = Config::new("x.db".to_string());
    assert_eq!(c.db_path, "x.db");
    assert_eq!((c.embedding_dim, c.batch_size, c.top_k), (384, 32, 50));
    let c = c.with_model_type(ModelType::E5Multilingual);
    assert_eq!(c.model_path, "models/multilingual-e5-small");
    assert_eq!(c.model_type, ModelType::E5Multilingual);
    assert_eq!(Config::default().db_path, "rpm_search.db");
}

#[test]
fn sync_settings() {
    assert_eq!(default_interval(), 3600);
    assert!(default_enabled());
    assert_eq!(default_work_dir(), ".rpm-sync");
    let ex = SyncConfig::example();
    assert_eq!(ex.repositories.len(), 2);
    assert_eq!(ex.repositories[1].name, "rocky9-appstream");
    assert_eq!(ex.repositories[0].arch.as_deref(), Some("x86_64"));
    let mut s = SyncScheduler::new(ex, Config::default());
    assert!(s.embedding_enabled);
    s.set_embedding_enabled(false);
    assert!(!s.embedding_enabled);
    assert_eq!(SyncStatus::InProgress.as_str(), "in-progress");
}

#[test]
fn protocol_messages() {
    let t = TextContent::new("hi".to_string());
    assert_eq!(t.content_type, "text");
    let ok = ToolResult::success("done".to_string());
    assert_eq!(ok.content[0].text, "done");
    assert_eq!(ok.is_error, None);
    let err = ToolResult::error("bad".to_string());
    assert_eq!(err.is_error, Some(true));
    let init = InitializeResult::new();
    assert_eq!(init.protocol_version, "2024-11-05");
    assert_eq!(init.server_info.name, "rpm-repo-search");
    assert!(!init.capabilities.tools.list_changed);
}

#[test]
fn file_types_and_dependencies() {
    assert_eq!(RpmFileType::Dir.as_i32(), 1);
    assert_eq!(RpmFileType::from_i32(2), RpmFileType::GhostFile);
    assert_eq!(RpmFileType::from_i32(7), RpmFileType::File);
    let d = RpmDependency::new("glibc".to_string()).with_version("GE".to_string(), "2.34".to_string());
    assert_eq!(d.flags.as_deref(), Some("GE"));
    assert_eq!(d.version.as_deref(), Some("2.34"));
    assert!(d.epoch.is_none());
}

fn gbs() -> GbsConfig {
    GbsConfig {
        config_path: "gbs.conf".to_string(),
        default_profile: Some("tizen".to_string()),
        profiles: vec![
            ProfileConfig {
                name: "tizen".to_string(),
                repos: vec!["repo.tizen_base".to_string(), "tizen_unified".to_string()],
            },
            ProfileConfig { name: "other".to_string(), repos: vec!["repo.missing".to_string()] },
        ],
        repos: vec![
            RepoConfig { name: "tizen_base".to_string(), url: "http://example.org/base/".to_string() },
            RepoConfig { name: "tizen_unified".to_string(), url: "http://example.org/unified".to_string() },
        ],
    }
}

#[test]
fn gbs_profiles_and_repositories() {
    let g = gbs();
    assert_eq!(g.resolve_profile(None).unwrap(), "tizen");
    assert_eq!(g.resolve_profile(Some("other")).unwrap(), "other");
    assert!(matches!(g.resolve_profile(Some("nope")), Err(RpmSearchError::Config(_))));
    let urls = g.get_repo_urls(None).unwrap();
    assert_eq!(
        urls,
        vec![
            ("tizen_base".to_string(), "http://example.org/base/".to_string()),
            ("tizen_unified".to_string(), "http://example.org/unified".to_string()),
        ]
    );
    assert!(matches!(g.get_repo_urls(Some("other")), Err(RpmSearchError::Config(_))));
    let sc = g.to_sync_config(None).unwrap();
    assert_eq!(sc.repositories[0].base_url, "http://example.org/base");
    assert_eq!(sc.repositories[0].interval_seconds, 3600);
    assert_eq!(sc.work_dir, ".rpm-sync");
    assert_eq!(g.get_profile_names(), vec!["tizen".to_string(), "other".to_string()]);

    let empty = GbsConfig { config_path: String::new(), default_profile: None, profiles: vec![], repos: vec![] };
    assert!(matches!(empty.resolve_profile(None), Err(RpmSearchError::Config(_))));
    let no_default = GbsConfig { default_profile: Some("gone".to_string()), ..gbs() };
    assert_eq!(no_default.resolve_profile(None).unwrap(), "tizen");
}

#[test]
fn scheduler_decisions() {
    let mut cfg = SyncConfig::example();
    cfg.repositories[0].enabled = false;
    let s = SyncScheduler::new(cfg, Config::default());
    assert_eq!(s.enabled_repositories(), vec![1]);
    let r = SyncResult { changed: true, checksum: "c".to_string(), packages_synced: 3 };
    assert!(r.needs_embeddings(true));
    assert!(!r.needs_embeddings(false));
    let unchanged = SyncResult { changed: false, checksum: "c".to_string(), packages_synced: 0 };
    assert!(!unchanged.needs_embeddings(true));
}
