//! The normalized package record and its natural order.
use crate::repomd::{RpmDependency, RpmPackage};
use crate::text::{compare_text, int_to_text, lex_cmp, utf8_width, char_utf8_width};
use crate::version::RpmVersion;
use core::cmp::Ordering;
use vstd::prelude::*;
use vstd::string::{StrSliceExecFns, StringExecFns};

verus! {

/// Longest description, in bytes, that goes into the embedding text.
pub const MAX_DESCRIPTION_CHARS: usize = 400;

/// Most provides or requires entries that go into the embedding text.
pub const MAX_DEPS_COUNT: usize = 20;

/// A dependency with its version bound written as one string.
#[derive(Debug)]
pub struct Dependency {
    pub name: String,
    pub flags: Option<String>,
    pub version: Option<String>,
}

/// A stored package.
#[derive(Debug)]
pub struct Package {
    pub pkg_id: Option<i64>,
    pub name: String,
    pub epoch: Option<i64>,
    pub version: String,
    pub release: String,
    pub arch: String,
    pub summary: String,
    pub description: String,
    pub license: Option<String>,
    pub vcs: Option<String>,
    pub repo: String,
    pub requires: Vec<Dependency>,
    pub provides: Vec<Dependency>,
}

pub open spec fn opt_view(o: Option<String>) -> Option<Seq<char>> {
    match o {
        Some(s) => Some(s@),
        None => None,
    }
}

/// `epoch:version-release` of a dependency bound, each part present only
/// where the entry has it; nothing without a version.
pub open spec fn dependency_version_text(d: RpmDependency) -> Option<Seq<char>> {
    match d.version {
        Some(v) => Some(
            match d.epoch {
                Some(e) => e@ + seq![':'],
                None => Seq::empty(),
            } + v@ + match d.release {
                Some(r) => seq!['-'] + r@,
                None => Seq::empty(),
            },
        ),
        None => None,
    }
}

/// A dependency made from a raw entry.
pub open spec fn dependency_from(dep: Dependency, raw: RpmDependency) -> bool {
    &&& dep.name@ == raw.name@
    &&& dep.flags == raw.flags
    &&& opt_view(dep.version) == dependency_version_text(raw)
}

pub open spec fn dependencies_from(deps: Seq<Dependency>, raw: Seq<RpmDependency>) -> bool {
    &&& deps.len() == raw.len()
    &&& forall|i: int| 0 <= i < deps.len() ==> dependency_from(#[trigger] deps[i], raw[i])
}

impl Dependency {
    /// Writes the bound of a raw entry as `epoch:version-release`.
    pub fn from_rpm_dependency(raw: RpmDependency) -> (r: Dependency)
        ensures
            dependency_from(r, raw),
    {
        let ghost g = raw;
        let RpmDependency { name, flags, epoch, version, release } = raw;
        let version = match version {
            Some(ver) => {
                let mut full = String::new();
                match &epoch {
                    Some(e) => {
                        full.append(e.as_str());
                        proof {
                            reveal_strlit(":");
                        }
                        full.append(":");
                    },
                    None => {},
                }
                full.append(ver.as_str());
                match &release {
                    Some(rel) => {
                        proof {
                            reveal_strlit("-");
                        }
                        full.append("-");
                        full.append(rel.as_str());
                    },
                    None => {},
                }
                assert(Some(full@) == dependency_version_text(g));
                Some(full)
            },
            None => None,
        };
        Dependency { name, flags, version }
    }
}

fn dependencies_from_raw(raw: Vec<RpmDependency>) -> (r: Vec<Dependency>)
    ensures
        dependencies_from(r@, raw@),
{
    let ghost g = raw@;
    let n = raw.len();
    let mut rest = raw;
    let mut out: Vec<Dependency> = Vec::new();
    let mut i: usize = 0;
    while rest.len() > 0
        invariant
            i + rest@.len() == g.len(),
            n == g.len(),
            rest@ == g.skip(i as int),
            dependencies_from(out@, g.take(i as int)),
        decreases rest@.len(),
    {
        let d = rest.remove(0);
        let dep = Dependency::from_rpm_dependency(d);
        out.push(dep);
        i = i + 1;
        assert(rest@ =~= g.skip(i as int));
        assert(out@.len() == g.take(i as int).len());
        assert forall|k: int| 0 <= k < out@.len() implies dependency_from(
            #[trigger] out@[k],
            g.take(i as int)[k],
        ) by {
            if k < out@.len() - 1 {
                assert(g.take(i as int)[k] == g.take(i - 1)[k]);
            }
        }
    }
    assert(g.take(i as int) =~= g);
    out
}

/// The description as far as it goes into the embedding text: the
/// characters that start before `limit` bytes of UTF-8.
pub open spec fn kept_chars(d: Seq<char>, offset: nat, limit: nat) -> nat
    decreases d.len(),
{
    if d.len() == 0 || offset >= limit {
        0
    } else {
        1 + kept_chars(d.drop_first(), offset + utf8_width(d[0]), limit)
    }
}

pub open spec fn truncated_description(d: Seq<char>) -> Seq<char> {
    d.take(kept_chars(d, 0, MAX_DESCRIPTION_CHARS as nat) as int)
}

/// The first entries of a dependency list, at most `MAX_DEPS_COUNT`.
pub open spec fn first_deps(ds: Seq<Dependency>) -> Seq<Dependency> {
    if ds.len() > MAX_DEPS_COUNT {
        ds.take(MAX_DEPS_COUNT as int)
    } else {
        ds
    }
}

/// Names of dependencies separated by ", ".
pub open spec fn joined_names(ds: Seq<Dependency>) -> Seq<char>
    decreases ds.len(),
{
    if ds.len() == 0 {
        Seq::empty()
    } else if ds.len() == 1 {
        ds[0].name@
    } else {
        joined_names(ds.drop_last()) + ", "@ + ds.last().name@
    }
}

pub open spec fn deps_line(label: Seq<char>, ds: Seq<Dependency>) -> Seq<char> {
    if ds.len() == 0 {
        Seq::empty()
    } else {
        label + joined_names(first_deps(ds)) + "\n"@
    }
}

proof fn lemma_kept_chars_bound(d: Seq<char>, offset: nat, limit: nat)
    ensures
        kept_chars(d, offset, limit) <= d.len(),
    decreases d.len(),
{
    if d.len() > 0 && offset < limit {
        lemma_kept_chars_bound(d.drop_first(), offset + utf8_width(d[0]), limit);
    }
}

fn description_prefix(d: &str) -> (r: &str)
    ensures
        r@ == truncated_description(d@),
{
    let n = d.unicode_len();
    let mut k: usize = 0;
    let mut offset: usize = 0;
    assert(d@.skip(0) =~= d@);
    while k < n && offset < MAX_DESCRIPTION_CHARS
        invariant
            n == d@.len(),
            k <= n,
            offset < MAX_DESCRIPTION_CHARS + 4,
            kept_chars(d@, 0, MAX_DESCRIPTION_CHARS as nat) == k + kept_chars(
                d@.skip(k as int),
                offset as nat,
                MAX_DESCRIPTION_CHARS as nat,
            ),
        decreases n - k,
    {
        let c = d.get_char(k);
        assert(d@.skip(k as int).drop_first() =~= d@.skip(k + 1));
        offset = offset + char_utf8_width(c);
        k = k + 1;
    }
    proof {
        lemma_kept_chars_bound(d@, 0, MAX_DESCRIPTION_CHARS as nat);
    }
    d.substring_char(0, k)
}

fn join_dep_names(ds: &Vec<Dependency>) -> (r: String)
    ensures
        r@ == joined_names(first_deps(ds@)),
{
    let count = if ds.len() > MAX_DEPS_COUNT {
        MAX_DEPS_COUNT
    } else {
        ds.len()
    };
    let ghost fd = first_deps(ds@);
    assert(fd.len() == count);
    let mut s = String::new();
    let mut i: usize = 0;
    while i < count
        invariant
            i <= count == fd.len(),
            count <= ds@.len(),
            forall|k: int| 0 <= k < count ==> fd[k] == ds@[k],
            s@ == joined_names(fd.take(i as int)),
        decreases count - i,
    {
        assert(fd.take(i + 1).drop_last() =~= fd.take(i as int));
        if i > 0 {
            s.append(", ");
        }
        s.append(ds[i].name.as_str());
        i = i + 1;
    }
    assert(fd.take(count as int) =~= fd);
    s
}

/// The text that stands for a package in the vector index.
pub open spec fn embedding_text(p: Package) -> Seq<char> {
    "Package: "@ + p.name@ + "\n"@ + "Name: "@ + p.name@ + "\n"@ + "Architecture: "@ + p.arch@
        + "\n"@ + "Summary: "@ + p.summary@ + "\n"@ + "Description:\n"@ + truncated_description(
        p.description@,
    ) + "\n"@ + deps_line("Provides: "@, p.provides@) + deps_line("Requires: "@, p.requires@)
}

/// `epoch:version-release`, the epoch and its colon only where there is one.
pub open spec fn full_version_text(p: Package) -> Seq<char> {
    let epoch_part = match p.epoch {
        Some(e) => crate::text::decimal(e as int) + seq![':'],
        None => Seq::empty(),
    };
    epoch_part + p.version@ + seq!['-'] + p.release@
}

pub open spec fn epoch_or_zero(e: Option<i64>) -> i64 {
    match e {
        Some(x) => x,
        None => 0,
    }
}

impl Package {
    /// The package's epoch, version and release, a missing epoch read as 0.
    pub open spec fn rpm_version(&self) -> RpmVersion {
        RpmVersion { epoch: epoch_or_zero(self.epoch), version: self.version, release: self.release }
    }

    /// Order by name, then arch, then version.
    pub open spec fn spec_cmp(&self, other: &Package) -> Ordering {
        if lex_cmp(self.name@, other.name@) != Ordering::Equal {
            lex_cmp(self.name@, other.name@)
        } else if lex_cmp(self.arch@, other.arch@) != Ordering::Equal {
            lex_cmp(self.arch@, other.arch@)
        } else {
            self.rpm_version().spec_cmp(&other.rpm_version())
        }
    }

    /// Normalizes a raw package of repository `repo`.
    pub fn from_rpm_package(rpm_pkg: RpmPackage, repo: String) -> (r: Package)
        ensures
            r.pkg_id is None,
            r.name == rpm_pkg.name,
            r.epoch == rpm_pkg.epoch,
            r.version == rpm_pkg.version,
            r.release == rpm_pkg.release,
            r.arch == rpm_pkg.arch,
            r.summary == rpm_pkg.summary,
            r.description == rpm_pkg.description,
            r.license == rpm_pkg.license,
            r.vcs == rpm_pkg.vcs,
            r.repo == repo,
            dependencies_from(r.requires@, rpm_pkg.requires@),
            dependencies_from(r.provides@, rpm_pkg.provides@),
    {
        let reqs = dependencies_from_raw(rpm_pkg.requires);
        let provs = dependencies_from_raw(rpm_pkg.provides);
        let RpmPackage {
            name,
            epoch,
            version,
            release,
            arch,
            summary,
            description,
            license,
            vcs,
            packager: _,
            url: _,
            files: _,
            ..
        } = rpm_pkg;
        Package {
            pkg_id: None,
            name,
            epoch,
            version,
            release,
            arch,
            summary,
            description,
            license,
            vcs,
            repo, requires: reqs,
            provides: provs,
        }
    }

    /// The package's version for comparison.
    pub fn to_rpm_version(&self) -> (r: RpmVersion)
        ensures
            r == self.rpm_version(),
    {
        RpmVersion::new(self.epoch, self.version.clone(), self.release.clone())
    }

    /// The text embedded for semantic search: the name twice, then arch,
    /// summary, description (cut to `MAX_DESCRIPTION_CHARS` bytes at a
    /// character boundary) and up to `MAX_DEPS_COUNT` provides and requires.
    pub fn build_embedding_text(&self) -> (r: String)
        ensures
            r@ == embedding_text(*self),
    {
        let mut text = String::new();
        text.append("Package: ");
        text.append(self.name.as_str());
        text.append("\n");
        text.append("Name: ");
        text.append(self.name.as_str());
        text.append("\n");
        text.append("Architecture: ");
        text.append(self.arch.as_str());
        text.append("\n");
        text.append("Summary: ");
        text.append(self.summary.as_str());
        text.append("\n");
        text.append("Description:\n");
        text.append(description_prefix(self.description.as_str()));
        text.append("\n");
        let ghost before_deps = text@;
        if self.provides.len() > 0 {
            text.append("Provides: ");
            let names = join_dep_names(&self.provides);
            text.append(names.as_str());
            text.append("\n");
        }
        assert(text@ =~= before_deps + deps_line("Provides: "@, self.provides@));
        let ghost mid = text@;
        if self.requires.len() > 0 {
            text.append("Requires: ");
            let names = join_dep_names(&self.requires);
            text.append(names.as_str());
            text.append("\n");
        }
        assert(text@ =~= mid + deps_line("Requires: "@, self.requires@));
        text
    }

    /// The version written as `epoch:version-release`.
    pub fn full_version(&self) -> (r: String)
        ensures
            r@ == full_version_text(*self),
    {
        let mut version = String::new();
        match self.epoch {
            Some(e) => {
                let digits = int_to_text(e);
                version.append(digits.as_str());
                proof {
                    reveal_strlit(":");
                }
                version.append(":");
            },
            None => {},
        }
        version.append(self.version.as_str());
        proof {
            reveal_strlit("-");
        }
        version.append("-");
        version.append(self.release.as_str());
        version
    }

    /// Compares name, then arch, then version.
    pub fn cmp(&self, other: &Package) -> (r: Ordering)
        ensures
            r == self.spec_cmp(other),
    {
        let n = compare_text(self.name.as_str(), other.name.as_str());
        match n {
            Ordering::Equal => {},
            _ => {
                return n;
            },
        }
        let a = compare_text(self.arch.as_str(), other.arch.as_str());
        match a {
            Ordering::Equal => {},
            _ => {
                return a;
            },
        }
        let mine = self.to_rpm_version();
        let theirs = other.to_rpm_version();
        mine.cmp(&theirs)
    }
}

impl PartialEq for Package {
    fn eq(&self, other: &Package) -> bool {
        match self.cmp(other) {
            Ordering::Equal => true,
            _ => false,
        }
    }
}

impl vstd::std_specs::cmp::PartialEqSpecImpl for Package {
    open spec fn obeys_eq_spec() -> bool {
        true
    }

    open spec fn eq_spec(&self, other: &Package) -> bool {
        self.spec_cmp(other) == Ordering::Equal
    }
}

impl Eq for Package {

}

impl PartialOrd for Package {
    fn partial_cmp(&self, other: &Package) -> Option<Ordering> {
        Some(self.cmp(other))
    }
}

impl vstd::std_specs::cmp::PartialOrdSpecImpl for Package {
    open spec fn obeys_partial_cmp_spec() -> bool {
        true
    }

    open spec fn partial_cmp_spec(&self, other: &Package) -> Option<Ordering> {
        Some(self.spec_cmp(other))
    }
}

} // verus!
