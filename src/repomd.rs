//! Package records as repository metadata describes them, and the
//! decompression step that precedes reading that metadata.
use std::io::Read;
use crate::error::RpmSearchError;
use crate::text::{char_vec, text_eq};
use vstd::prelude::*;
use vstd::slice::slice_to_vec;
use vstd::string::{StrSliceExecFns, StringExecFns};

verus! {

/// Raw package metadata from a repository's primary list.
#[derive(Debug)]
pub struct RpmPackage {
    pub name: String,
    pub epoch: Option<i64>,
    pub version: String,
    pub release: String,
    pub arch: String,
    pub summary: String,
    pub description: String,
    pub license: Option<String>,
    pub vcs: Option<String>,
    pub packager: Option<String>,
    pub url: Option<String>,
    pub requires: Vec<RpmDependency>,
    pub provides: Vec<RpmDependency>,
    pub files: Vec<String>,
}

/// A dependency entry: a capability name with an optional version bound
/// (`flags` is one of "EQ", "LT", "GT", "LE", "GE").
#[derive(Debug)]
pub struct RpmDependency {
    pub name: String,
    pub flags: Option<String>,
    pub epoch: Option<String>,
    pub version: Option<String>,
    pub release: Option<String>,
}

impl RpmDependency {
    /// A dependency on a name alone.
    pub fn new(name: String) -> (r: RpmDependency)
        ensures
            r.name@ == name@,
            r.flags is None,
            r.epoch is None,
            r.version is None,
            r.release is None,
    {
        RpmDependency { name, flags: None, epoch: None, version: None, release: None }
    }

    /// The same dependency with a version bound.
    pub fn with_version(self, flags: String, version: String) -> (r: RpmDependency)
        ensures
            r.name@ == self.name@,
            r.flags == Some(flags),
            r.version == Some(version),
            r.epoch == self.epoch,
            r.release == self.release,
    {
        let mut d = self;
        d.flags = Some(flags);
        d.version = Some(version);
        d
    }
}

/// Kind of an entry of a package's file list.
#[derive(Debug, Clone, Copy, PartialEq, Eq, Structural)]
pub enum RpmFileType {
    File,
    Dir,
    GhostFile,
}

impl RpmFileType {
    /// Storage code: 0 for a file, 1 for a directory, 2 for a ghost entry.
    pub fn as_i32(&self) -> (r: i32)
        ensures
            r == match *self {
                RpmFileType::File => 0i32,
                RpmFileType::Dir => 1i32,
                RpmFileType::GhostFile => 2i32,
            },
    {
        match self {
            RpmFileType::File => 0,
            RpmFileType::Dir => 1,
            RpmFileType::GhostFile => 2,
        }
    }

    /// Reads a storage code; any code but 1 and 2 reads as a file.
    pub fn from_i32(v: i32) -> (r: RpmFileType)
        ensures
            r == (if v == 1 {
                RpmFileType::Dir
            } else if v == 2 {
                RpmFileType::GhostFile
            } else {
                RpmFileType::File
            }),
    {
        match v {
            1 => RpmFileType::Dir,
            2 => RpmFileType::GhostFile,
            _ => RpmFileType::File,
        }
    }
}

/// One entry of a package's file list.
#[derive(Debug)]
pub struct RpmFileEntry {
    pub path: String,
    pub file_type: RpmFileType,
}

/// A package's file list, matched to a stored package by name, arch and
/// epoch:version-release.
#[derive(Debug)]
pub struct FilelistsPackage {
    pub name: String,
    pub arch: String,
    pub epoch: Option<i64>,
    pub version: String,
    pub release: String,
    pub files: Vec<RpmFileEntry>,
}

/// Where a metadata file lives and how to check it.
#[derive(Debug)]
pub struct RepoMetadata {
    pub location: String,
    pub checksum: String,
    pub timestamp: i64,
}

/// Marker type for the primary list reader.
pub struct PrimaryXmlParser;

/// Marker type for the file list reader.
pub struct FilelistsXmlParser;

/// What gzip decoding makes of a byte string, `None` where it is not valid
/// gzip data.
pub uninterp spec fn gunzip_of(data: Seq<u8>) -> Option<Seq<u8>>;

/// What zstd decoding makes of a byte string, `None` where it is not valid
/// zstd data.
pub uninterp spec fn unzstd_of(data: Seq<u8>) -> Option<Seq<u8>>;

/// Relies on `flate2::read::GzDecoder` read to the end: the decoded bytes,
/// or an error for input that is not gzip data.
#[verifier::external_body]
fn gunzip(data: &[u8]) -> (r: Result<Vec<u8>, String>)
    ensures
        match r {
            Ok(out) => gunzip_of(data@) == Some(out@),
            Err(_) => gunzip_of(data@) is None,
        },
{
    let mut decoder = flate2::read::GzDecoder::new(data);
    let mut out = Vec::new();
    match decoder.read_to_end(&mut out) {
        Ok(_) => Ok(out),
        Err(e) => Err(e.to_string()),
    }
}

/// Relies on `zstd::decode_all`: the decoded bytes, or an error for input
/// that is not zstd data.
#[verifier::external_body]
fn unzstd(data: &[u8]) -> (r: Result<Vec<u8>, String>)
    ensures
        match r {
            Ok(out) => unzstd_of(data@) == Some(out@),
            Err(_) => unzstd_of(data@) is None,
        },
{
    zstd::decode_all(data).map_err(|e| e.to_string())
}

/// Compression of a metadata file, told by its extension.
#[derive(Debug, Clone, Copy, PartialEq, Eq, Structural)]
pub enum Compression {
    Gzip,
    Zstd,
    Plain,
}

/// The extension of the last component of a path: what follows its last
/// dot, or nothing where it has no dot but a leading one.
pub open spec fn file_name_of(path: Seq<char>) -> Seq<char>
    decreases path.len(),
{
    if path.len() == 0 {
        path
    } else if path.last() == '/' {
        Seq::empty()
    } else {
        file_name_of(path.drop_last()).push(path.last())
    }
}

pub open spec fn last_dot(name: Seq<char>) -> Option<int>
    decreases name.len(),
{
    if name.len() == 0 {
        None
    } else if name.last() == '.' {
        Some(name.len() - 1)
    } else {
        last_dot(name.drop_last())
    }
}

pub open spec fn extension_of(path: Seq<char>) -> Seq<char> {
    let name = file_name_of(path);
    match last_dot(name) {
        Some(d) => if d == 0 || name == seq!['.', '.'] {
            Seq::empty()
        } else {
            name.skip(d + 1)
        },
        None => Seq::empty(),
    }
}

pub open spec fn compression_of(ext: Seq<char>) -> Compression {
    if ext == seq!['g', 'z'] {
        Compression::Gzip
    } else if ext == seq!['z', 's', 't'] || ext == seq!['z', 's', 't', 'd'] {
        Compression::Zstd
    } else {
        Compression::Plain
    }
}

/// Reads repository metadata files.
pub struct RepoFetcher;

impl RepoFetcher {
    /// The extension of the last component of `path`.
    pub fn extension(path: &str) -> (r: String)
        ensures
            r@ == extension_of(path@),
    {
        let v = char_vec(path);
        let n = v.len();
        let mut start = n;
        assert(v@.take(n as int) =~= v@);
        assert(v@.subrange(n as int, n as int) =~= Seq::<char>::empty());
        while start > 0 && v[start - 1] != '/'
            invariant
                start <= n == v@.len(),
                v@ == path@,
                file_name_of(path@) == file_name_of(v@.take(start as int)) + v@.subrange(
                    start as int,
                    n as int,
                ),
            decreases start,
        {
            assert(v@.take(start as int).drop_last() =~= v@.take(start - 1));
            assert(v@.subrange(start - 1, n as int) =~= seq![v@[start - 1]] + v@.subrange(
                start as int,
                n as int,
            ));
            start = start - 1;
        }
        let ghost name = v@.subrange(start as int, n as int);
        assert(file_name_of(path@) =~= name);
        let mut dot = n;
        assert(name.take((n - start) as int) =~= name);
        while dot > start && v[dot - 1] != '.'
            invariant
                start <= dot <= n == v@.len(),
                name == v@.subrange(start as int, n as int),
                last_dot(name) == last_dot(name.take(dot - start)),
            decreases dot,
        {
            assert(name.take(dot - start).drop_last() =~= name.take(dot - 1 - start));
            dot = dot - 1;
        }
        if dot == start {
            return String::new();
        }
        let d = dot - 1 - start;
        proof {
            reveal_strlit("..");
        }
        if d == 0 || (n - start == 2 && v[start] == '.' && v[start + 1] == '.') {
            proof {
                if n - start == 2 && v@[start as int] == '.' && v@[start + 1] == '.' {
                    assert(name =~= seq!['.', '.']);
                }
            }
            return String::new();
        }
        assert(name != seq!['.', '.']);
        let tail = path.substring_char(dot, n);
        assert(tail@ =~= name.skip(d + 1));
        String::from_str(tail)
    }

    /// Decompresses metadata by the extension of the file it came from:
    /// gzip for `gz`, zstd for `zst` and `zstd`, and anything else as it is.
    pub fn auto_decompress(path: &str, data: &[u8]) -> (r: Result<Vec<u8>, RpmSearchError>)
        ensures
            match compression_of(extension_of(path@)) {
                Compression::Gzip => match r {
                    Ok(out) => gunzip_of(data@) == Some(out@),
                    Err(e) => gunzip_of(data@) is None && e is Io,
                },
                Compression::Zstd => match r {
                    Ok(out) => unzstd_of(data@) == Some(out@),
                    Err(e) => unzstd_of(data@) is None && e is Io,
                },
                Compression::Plain => r matches Ok(out) && out@ == data@,
            },
    {
        let ext = RepoFetcher::extension(path);
        proof {
            reveal_strlit("gz");
            reveal_strlit("zst");
            reveal_strlit("zstd");
        }
        if text_eq(ext.as_str(), "gz") {
            assert("gz"@ =~= seq!['g', 'z']);
            match gunzip(data) {
                Ok(out) => Ok(out),
                Err(msg) => Err(RpmSearchError::Io(msg)),
            }
        } else if text_eq(ext.as_str(), "zst") || text_eq(ext.as_str(), "zstd") {
            assert("zst"@ =~= seq!['z', 's', 't']);
            assert("zstd"@ =~= seq!['z', 's', 't', 'd']);
            match unzstd(data) {
                Ok(out) => Ok(out),
                Err(msg) => Err(RpmSearchError::Io(msg)),
            }
        } else {
            assert("gz"@ =~= seq!['g', 'z']);
            assert("zst"@ =~= seq!['z', 's', 't']);
            assert("zstd"@ =~= seq!['z', 's', 't', 'd']);
            Ok(slice_to_vec(data))
        }
    }
}

} // verus!
