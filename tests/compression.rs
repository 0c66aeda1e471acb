use rpm_repo_search::error::RpmSearchError;
use rpm_repo_search::repomd::RepoFetcher;
use flate2::write::GzEncoder;
use flate2::Compression;
use std::io::Write;

#[test]
fn test_gz_compression_support() {
    let raw_xml = b"<?xml version=\"1.0\"?><metadata></metadata>";
    let mut encoder = GzEncoder::new(Vec::new(), Compression::default());
    encoder.write_all(raw_xml).unwrap();
    let compressed = encoder.finish().unwrap();

    let decompressed = RepoFetcher::auto_decompress("primary.xml.gz", &compressed).unwrap();

    assert_eq!(raw_xml.to_vec(), decompressed);
}

#[test]
fn test_zstd_compression_support() {
    let raw_xml = b"<?xml version=\"1.0\"?><metadata></metadata>";

    let compressed = zstd::encode_all(&raw_xml[..], 3).unwrap();

    let decompressed = RepoFetcher::auto_decompress("primary.xml.zst", &compressed).unwrap();

    assert_eq!(raw_xml.to_vec(), decompressed);
    let again = RepoFetcher::auto_decompress("primary.xml.zstd", &compressed).unwrap();
    assert_eq!(raw_xml.to_vec(), again);
}

#[test]
fn test_auto_detect_extensions() {
    let extensions = vec![
        ("test.xml.gz", "gz"),
        ("test.xml.zst", "zst"),
        ("test.xml.zstd", "zstd"),
        ("test.xml", "xml"),
        ("test", ""),
    ];

    for (filename, expected) in extensions {
        let ext = RepoFetcher::extension(filename);
        assert_eq!(ext, expected, "Failed for {}", filename);
    }
}

#[test]
fn extension_edge_cases() {
    assert_eq!(RepoFetcher::extension("/var/repo.d/primary"), "");
    assert_eq!(RepoFetcher::extension(".hidden"), "");
    assert_eq!(RepoFetcher::extension("dir/a.tar.gz"), "gz");
    assert_eq!(RepoFetcher::extension("x."), "");
}

#[test]
fn plain_data_passes_through_and_bad_data_fails() {
    let data = b"<metadata/>".to_vec();
    assert_eq!(RepoFetcher::auto_decompress("primary.xml", &data).unwrap(), data);
    match RepoFetcher::auto_decompress("primary.xml.gz", &data) {
        Err(RpmSearchError::Io(_)) => {}
        _ => panic!("expected a decompression error"),
    }
    match RepoFetcher::auto_decompress("primary.xml.zst", &data) {
        Err(RpmSearchError::Io(_)) => {}
        _ => panic!("expected a decompression error"),
    }
}
