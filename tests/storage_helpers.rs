use rpm_repo_search::package::Package;
use rpm_repo_search::query::{
    build_download_url, checksum_changed, format_querystring, replace_text, resolve_repos,
};
use rpm_repo_search::storage::{split_path, wildcard_to_like, FindFilter};

#[test]
fn test_split_path_regular() {
    assert_eq!(split_path("/usr/bin/bash", false), ("/usr/bin", "bash"));
    assert_eq!(split_path("/usr/lib64/libssl.so.3", false), ("/usr/lib64", "libssl.so.3"));
}

#[test]
fn test_split_path_root() {
    assert_eq!(split_path("/bash", false), ("/", "bash"));
    assert_eq!(split_path("/", false), ("/", ""));
}

#[test]
fn test_split_path_dir() {
    assert_eq!(split_path("/etc/nginx", true), ("/etc/nginx", ""));
    assert_eq!(split_path("/usr/share/locale", true), ("/usr/share/locale", ""));
}

#[test]
fn split_path_without_slash() {
    assert_eq!(split_path("bash", false), ("/", "bash"));
    assert_eq!(split_path("a/b/", false), ("a/b", ""));
}

#[test]
fn test_wildcard_to_like() {
    assert_eq!(wildcard_to_like("ssl"), "%ssl%");
    assert_eq!(wildcard_to_like("python3"), "%python3%");

    assert_eq!(wildcard_to_like("lib*ssl*"), "lib%ssl%");
    assert_eq!(wildcard_to_like("python?.?"), "python_._");
    assert_eq!(wildcard_to_like("*"), "%");

    assert_eq!(wildcard_to_like("100%"), "%100\\%%");
    assert_eq!(wildcard_to_like("a_b"), "%a\\_b%");
}

#[test]
fn wildcard_with_escapes() {
    assert_eq!(wildcard_to_like("a_*"), "a\\_%");
    assert_eq!(wildcard_to_like(""), "%%");
}

#[test]
fn find_filter_default_limit() {
    let f = FindFilter::default();
    assert_eq!(f.limit, 50);
    assert!(f.name.is_none() && f.repo.is_none());
}

#[test]
fn querystring_fills_placeholders() {
    let p = Package {
        pkg_id: None,
        name: "bash".to_string(),
        epoch: Some(1),
        version: "5.2".to_string(),
        release: "3.el9".to_string(),
        arch: "x86_64".to_string(),
        summary: "shell".to_string(),
        description: "The GNU shell".to_string(),
        license: None,
        vcs: None,
        repo: "baseos".to_string(),
        requires: vec![],
        provides: vec![],
    };
    assert_eq!(
        format_querystring("%{name}|%{epoch}|%{nevra}|%{license}|%{repo}\\n", &p),
        "bash|1|bash-1:5.2-3.el9.x86_64||baseos\n"
    );
    assert_eq!(format_querystring("%{arch}\\t%{summary}", &p), "x86_64\tshell");
}

#[test]
fn download_urls_and_repo_lists() {
    assert_eq!(
        build_download_url("http://x/os//", "/Packages/b/bash.rpm"),
        "http://x/os/Packages/b/bash.rpm"
    );
    assert_eq!(build_download_url("", ""), "/");
    let merged = resolve_repos(
        vec!["base".to_string()],
        vec![("base".to_string(), "u1".to_string()), ("extra".to_string(), "u2".to_string())],
    );
    assert_eq!(merged, vec!["base".to_string(), "extra".to_string()]);
    assert!(checksum_changed(None, "abc"));
    assert!(!checksum_changed(Some("abc"), "abc"));
    assert!(checksum_changed(Some("abc"), "abd"));
    assert_eq!(replace_text("aaa", "aa", "b"), "ba");
    assert_eq!(replace_text("abc", "", "x"), "abc");
}
