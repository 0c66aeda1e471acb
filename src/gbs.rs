//! Profiles and repositories of a GBS configuration, and the sync settings
//! they give.
use crate::config::{RepoSyncConfig, SyncConfig, default_work_dir};
use crate::error::RpmSearchError;
use crate::text::{char_vec, text_eq};
use vstd::prelude::*;
use vstd::string::{StrSliceExecFns, StringExecFns};

verus! {

/// Sync interval of a repository taken from a GBS profile.
pub const GBS_SYNC_INTERVAL: u64 = 3600;

/// A `[profile.*]` section.
#[derive(Debug)]
pub struct ProfileConfig {
    /// Name after the `profile.` prefix.
    pub name: String,
    /// Repository references, such as `repo.tizen_base`.
    pub repos: Vec<String>,
}

/// A `[repo.*]` section.
#[derive(Debug)]
pub struct RepoConfig {
    /// Name after the `repo.` prefix.
    pub name: String,
    pub url: String,
}

/// A parsed GBS configuration. Profiles and repositories keep the order of
/// their sections.
#[derive(Debug)]
pub struct GbsConfig {
    pub config_path: String,
    /// Profile named in the `[general]` section.
    pub default_profile: Option<String>,
    pub profiles: Vec<ProfileConfig>,
    pub repos: Vec<RepoConfig>,
}

pub open spec fn has_profile(ps: Seq<ProfileConfig>, name: Seq<char>) -> bool {
    exists|i: int| 0 <= i < ps.len() && (#[trigger] ps[i]).name@ == name
}

/// The first profile of the given name.
pub open spec fn profile_named(ps: Seq<ProfileConfig>, name: Seq<char>) -> Option<ProfileConfig>
    decreases ps.len(),
{
    if ps.len() == 0 {
        None
    } else if ps[0].name@ == name {
        Some(ps[0])
    } else {
        profile_named(ps.drop_first(), name)
    }
}

/// The first repository of the given name.
pub open spec fn repo_named(rs: Seq<RepoConfig>, name: Seq<char>) -> Option<RepoConfig>
    decreases rs.len(),
{
    if rs.len() == 0 {
        None
    } else if rs[0].name@ == name {
        Some(rs[0])
    } else {
        repo_named(rs.drop_first(), name)
    }
}

/// A repository reference without its `repo.` prefix.
pub open spec fn repo_key(r: Seq<char>) -> Seq<char> {
    if r.len() >= 5 && r.take(5) == "repo."@ {
        r.skip(5)
    } else {
        r
    }
}

/// Name and URL of each referenced repository, in order; `None` where a
/// reference names no repository.
pub open spec fn repo_urls_of(rs: Seq<RepoConfig>, refs: Seq<String>) -> Option<
    Seq<(Seq<char>, Seq<char>)>,
>
    decreases refs.len(),
{
    if refs.len() == 0 {
        Some(Seq::empty())
    } else {
        match (repo_urls_of(rs, refs.drop_last()), repo_named(rs, repo_key(refs.last()@))) {
            (Some(done), Some(r)) => Some(done.push((r.name@, r.url@))),
            _ => None,
        }
    }
}

/// A URL without its trailing slashes.
pub open spec fn trim_slashes(u: Seq<char>) -> Seq<char>
    decreases u.len(),
{
    if u.len() > 0 && u.last() == '/' {
        trim_slashes(u.drop_last())
    } else {
        u
    }
}

pub open spec fn pairs_view(v: Seq<(String, String)>) -> Seq<(Seq<char>, Seq<char>)> {
    v.map_values(|p: (String, String)| (p.0@, p.1@))
}

impl GbsConfig {
    /// The profile in effect: the one asked for, which must exist; else the
    /// default profile, where it exists; else the first profile.
    pub open spec fn spec_resolve(&self, profile: Option<Seq<char>>) -> Option<Seq<char>> {
        match profile {
            Some(n) => if has_profile(self.profiles@, n) {
                Some(n)
            } else {
                None
            },
            None => match self.default_profile {
                Some(d) if has_profile(self.profiles@, d@) => Some(d@),
                _ => if self.profiles@.len() > 0 {
                    Some(self.profiles@[0].name@)
                } else {
                    None
                },
            },
        }
    }

    /// Name and URL of each repository of the profile in effect.
    pub open spec fn spec_repo_urls(&self, profile: Option<Seq<char>>) -> Option<
        Seq<(Seq<char>, Seq<char>)>,
    > {
        match self.spec_resolve(profile) {
            Some(n) => match profile_named(self.profiles@, n) {
                Some(p) => repo_urls_of(self.repos@, p.repos@),
                None => None,
            },
            None => None,
        }
    }

    fn find_profile(&self, name: &str) -> (r: Option<usize>)
        ensures
            match r {
                Some(i) => i < self.profiles@.len() && profile_named(self.profiles@, name@) == Some(
                    self.profiles@[i as int],
                ),
                None => profile_named(self.profiles@, name@) is None,
            },
            r is Some <==> has_profile(self.profiles@, name@),
    {
        let ghost ps = self.profiles@;
        let mut i: usize = 0;
        assert(ps.skip(0) =~= ps);
        while i < self.profiles.len()
            invariant
                ps == self.profiles@,
                i <= ps.len(),
                profile_named(ps, name@) == profile_named(ps.skip(i as int), name@),
                forall|k: int| 0 <= k < i ==> (#[trigger] ps[k]).name@ != name@,
            decreases ps.len() - i,
        {
            assert(ps.skip(i as int).drop_first() =~= ps.skip(i + 1));
            if text_eq(self.profiles[i].name.as_str(), name) {
                return Some(i);
            }
            i = i + 1;
        }
        None
    }

    fn find_repo(&self, name: &str) -> (r: Option<usize>)
        ensures
            match r {
                Some(i) => i < self.repos@.len() && repo_named(self.repos@, name@) == Some(
                    self.repos@[i as int],
                ),
                None => repo_named(self.repos@, name@) is None,
            },
    {
        let ghost rs = self.repos@;
        let mut i: usize = 0;
        assert(rs.skip(0) =~= rs);
        while i < self.repos.len()
            invariant
                rs == self.repos@,
                i <= rs.len(),
                repo_named(rs, name@) == repo_named(rs.skip(i as int), name@),
            decreases rs.len() - i,
        {
            assert(rs.skip(i as int).drop_first() =~= rs.skip(i + 1));
            if text_eq(self.repos[i].name.as_str(), name) {
                return Some(i);
            }
            i = i + 1;
        }
        None
    }

    /// Names of all profiles, in order.
    pub fn get_profile_names(&self) -> (r: Vec<String>)
        ensures
            r@.len() == self.profiles@.len(),
            forall|i: int| 0 <= i < r@.len() ==> (#[trigger] r@[i]) == self.profiles@[i].name,
    {
        let mut names: Vec<String> = Vec::new();
        let mut i: usize = 0;
        while i < self.profiles.len()
            invariant
                i <= self.profiles@.len(),
                names@.len() == i,
                forall|k: int| 0 <= k < i ==> (#[trigger] names@[k]) == self.profiles@[k].name,
            decreases self.profiles@.len() - i,
        {
            names.push(self.profiles[i].name.clone());
            i = i + 1;
        }
        names
    }

    fn profile_not_found(&self, name: &str) -> (r: RpmSearchError)
        ensures
            r is Config,
    {
        let mut msg = String::from_str("GBS profile '");
        msg.append(name);
        msg.append("' not found. Available profiles: ");
        let names = self.get_profile_names();
        let mut i: usize = 0;
        while i < names.len()
            decreases names@.len() - i,
        {
            if i > 0 {
                msg.append(", ");
            }
            msg.append(names[i].as_str());
            i = i + 1;
        }
        RpmSearchError::Config(msg)
    }

    /// The profile in effect: `profile` where given (an error if there is
    /// no such profile), else the default profile where it exists, else the
    /// first profile (an error if there is none).
    pub fn resolve_profile(&self, profile: Option<&str>) -> (r: Result<String, RpmSearchError>)
        ensures
            match r {
                Ok(n) => self.spec_resolve(
                    match profile {
                        Some(p) => Some(p@),
                        None => None,
                    },
                ) == Some(n@),
                Err(e) => e is Config && self.spec_resolve(
                    match profile {
                        Some(p) => Some(p@),
                        None => None,
                    },
                ) is None,
            },
    {
        match profile {
            Some(name) => {
                match self.find_profile(name) {
                    Some(_) => Ok(String::from_str(name)),
                    None => Err(self.profile_not_found(name)),
                }
            },
            None => {
                match &self.default_profile {
                    Some(d) => {
                        if self.find_profile(d.as_str()).is_some() {
                            return Ok(d.clone());
                        }
                    },
                    None => {},
                }
                if self.profiles.len() > 0 {
                    Ok(self.profiles[0].name.clone())
                } else {
                    Err(RpmSearchError::Config(String::from_str("No profiles found in GBS config")))
                }
            },
        }
    }

    /// Name and URL of each repository that the profile in effect
    /// references (a `repo.` prefix of a reference is ignored); an error
    /// where no profile is in effect or a reference names no repository.
    pub fn get_repo_urls(&self, profile: Option<&str>) -> (r: Result<
        Vec<(String, String)>,
        RpmSearchError,
    >)
        ensures
            match r {
                Ok(v) => self.spec_repo_urls(
                    match profile {
                        Some(p) => Some(p@),
                        None => None,
                    },
                ) == Some(pairs_view(v@)),
                Err(e) => e is Config && self.spec_repo_urls(
                    match profile {
                        Some(p) => Some(p@),
                        None => None,
                    },
                ) is None,
            },
    {
        let profile_name = match self.resolve_profile(profile) {
            Ok(n) => n,
            Err(e) => {
                return Err(e);
            },
        };
        let pi = match self.find_profile(profile_name.as_str()) {
            Some(i) => i,
            None => {
                return Err(RpmSearchError::Config(String::from_str("GBS profile not found")));
            },
        };
        let refs = &self.profiles[pi].repos;
        let ghost asked = match profile {
            Some(p) => Some(p@),
            None => None,
        };
        assert(self.spec_repo_urls(asked) == repo_urls_of(self.repos@, refs@));
        let mut result: Vec<(String, String)> = Vec::new();
        let mut i: usize = 0;
        while i < refs.len()
            invariant
                i <= refs@.len(),
                asked == match profile {
                    Some(p) => Some(p@),
                    None => None,
                },
                self.spec_repo_urls(asked) == repo_urls_of(self.repos@, refs@),
                repo_urls_of(self.repos@, refs@.take(i as int)) == Some(pairs_view(result@)),
            decreases refs@.len() - i,
        {
            assert(refs@.take(i + 1).drop_last() =~= refs@.take(i as int));
            assert(refs@.take(i + 1).last() == refs@[i as int]);
            let key = strip_repo_prefix(refs[i].as_str());
            match self.find_repo(key) {
                Some(k) => {
                    let ghost before = result@;
                    result.push((self.repos[k].name.clone(), self.repos[k].url.clone()));
                    assert(pairs_view(result@) =~= pairs_view(before).push(
                        (self.repos@[k as int].name@, self.repos@[k as int].url@),
                    ));
                },
                None => {
                    proof {
                        lemma_repo_urls_missing(self.repos@, refs@, i as int);
                    }
                    let mut msg = String::from_str("GBS config: repository section [repo.");
                    msg.append(key);
                    msg.append("] not found (referenced by profile '");
                    msg.append(profile_name.as_str());
                    msg.append("')");
                    return Err(RpmSearchError::Config(msg));
                },
            }
            i = i + 1;
        }
        assert(refs@.take(i as int) =~= refs@);
        Ok(result)
    }

    /// Sync settings for the repositories of the profile in effect: each
    /// synced hourly, enabled, with no arch filter and no file lists, its
    /// URL without trailing slashes.
    pub fn to_sync_config(&self, profile: Option<&str>) -> (r: Result<SyncConfig, RpmSearchError>)
        ensures
            match r {
                Ok(c) => match self.spec_repo_urls(
                    match profile {
                        Some(p) => Some(p@),
                        None => None,
                    },
                ) {
                    Some(urls) => {
                        &&& c.repositories@.len() == urls.len()
                        &&& forall|i: int|
                            0 <= i < urls.len() ==> {
                                let rc = #[trigger] c.repositories@[i];
                                &&& rc.name@ == urls[i].0
                                &&& rc.base_url@ == trim_slashes(urls[i].1)
                                &&& rc.interval_seconds == GBS_SYNC_INTERVAL
                                &&& rc.enabled
                                &&& rc.arch is None
                                &&& !rc.sync_filelists
                            }
                        &&& c.work_dir@ == ".rpm-sync"@
                    },
                    None => false,
                },
                Err(e) => e is Config && self.spec_repo_urls(
                    match profile {
                        Some(p) => Some(p@),
                        None => None,
                    },
                ) is None,
            },
    {
        let urls = match self.get_repo_urls(profile) {
            Ok(v) => v,
            Err(e) => {
                return Err(e);
            },
        };
        let ghost uv = pairs_view(urls@);
        let mut repositories: Vec<RepoSyncConfig> = Vec::new();
        let mut i: usize = 0;
        while i < urls.len()
            invariant
                i <= urls@.len(),
                uv == pairs_view(urls@),
                repositories@.len() == i,
                forall|k: int|
                    0 <= k < i ==> {
                        let rc = #[trigger] repositories@[k];
                        &&& rc.name@ == uv[k].0
                        &&& rc.base_url@ == trim_slashes(uv[k].1)
                        &&& rc.interval_seconds == GBS_SYNC_INTERVAL
                        &&& rc.enabled
                        &&& rc.arch is None
                        &&& !rc.sync_filelists
                    },
            decreases urls@.len() - i,
        {
            let base = trim_trailing_slashes(urls[i].1.as_str());
            repositories.push(
                RepoSyncConfig {
                    name: urls[i].0.clone(),
                    base_url: String::from_str(base),
                    interval_seconds: GBS_SYNC_INTERVAL,
                    enabled: true,
                    arch: None,
                    sync_filelists: false,
                },
            );
            i = i + 1;
        }
        Ok(SyncConfig { repositories, work_dir: default_work_dir() })
    }
}

proof fn lemma_repo_urls_missing(rs: Seq<RepoConfig>, refs: Seq<String>, i: int)
    requires
        0 <= i < refs.len(),
        repo_named(rs, repo_key(refs[i]@)) is None,
    ensures
        repo_urls_of(rs, refs) is None,
    decreases refs.len(),
{
    if i < refs.len() - 1 {
        lemma_repo_urls_missing(rs, refs.drop_last(), i);
    }
}

/// A reference without its `repo.` prefix.
fn strip_repo_prefix(r: &str) -> (k: &str)
    ensures
        k@ == repo_key(r@),
{
    proof {
        reveal_strlit("repo.");
    }
    let n = r.unicode_len();
    if n >= 5 {
        let head = r.substring_char(0, 5);
        if text_eq(head, "repo.") {
            return r.substring_char(5, n);
        }
    }
    r
}

/// A URL without its trailing slashes.
fn trim_trailing_slashes(u: &str) -> (r: &str)
    ensures
        r@ == trim_slashes(u@),
{
    let v = char_vec(u);
    let mut k = v.len();
    assert(v@.take(k as int) =~= v@);
    while k > 0 && v[k - 1] == '/'
        invariant
            k <= v@.len(),
            v@ == u@,
            trim_slashes(u@) == trim_slashes(v@.take(k as int)),
        decreases k,
    {
        assert(v@.take(k as int).drop_last() =~= v@.take(k - 1));
        k = k - 1;
    }
    u.substring_char(0, k)
}

/// One section of an INI file: its name (`None` for the entries before the
/// first header) and its entries in file order.
#[derive(Debug)]
pub struct IniSection {
    pub name: Option<String>,
    pub entries: Vec<(String, String)>,
}

/// Unicode `White_Space` characters.
pub open spec fn is_white(c: char) -> bool {
    let u = c as u32;
    (0x09 <= u && u <= 0x0D) || u == 0x20 || u == 0x85 || u == 0xA0 || u == 0x1680 || (0x2000
        <= u && u <= 0x200A) || u == 0x2028 || u == 0x2029 || u == 0x202F || u == 0x205F || u
        == 0x3000
}

fn is_white_char(c: char) -> (r: bool)
    ensures
        r == is_white(c),
{
    let u = c as u32;
    (0x09 <= u && u <= 0x0D) || u == 0x20 || u == 0x85 || u == 0xA0 || u == 0x1680 || (0x2000
        <= u && u <= 0x200A) || u == 0x2028 || u == 0x2029 || u == 0x202F || u == 0x205F || u
        == 0x3000
}

pub open spec fn trim_white_end(s: Seq<char>) -> Seq<char>
    decreases s.len(),
{
    if s.len() > 0 && is_white(s.last()) {
        trim_white_end(s.drop_last())
    } else {
        s
    }
}

pub open spec fn trim_white_start(s: Seq<char>) -> Seq<char>
    decreases s.len(),
{
    if s.len() > 0 && is_white(s[0]) {
        trim_white_start(s.drop_first())
    } else {
        s
    }
}

/// A string without leading and trailing white space.
pub open spec fn trim_white(s: Seq<char>) -> Seq<char> {
    trim_white_start(trim_white_end(s))
}

/// The pieces of `s` between commas; a string without commas is one piece.
pub open spec fn split_commas(s: Seq<char>) -> Seq<Seq<char>>
    decreases s.len(),
{
    if s.len() == 0 {
        seq![Seq::empty()]
    } else if s.last() == ',' {
        split_commas(s.drop_last()).push(Seq::empty())
    } else {
        let parts = split_commas(s.drop_last());
        parts.update(parts.len() - 1, parts.last().push(s.last()))
    }
}

proof fn lemma_split_commas_nonempty(s: Seq<char>)
    ensures
        split_commas(s).len() > 0,
    decreases s.len(),
{
    if s.len() > 0 {
        lemma_split_commas_nonempty(s.drop_last());
    }
}

/// The first value of `key` among the entries of a section.
pub open spec fn first_value(entries: Seq<(String, String)>, key: Seq<char>) -> Option<Seq<char>>
    decreases entries.len(),
{
    if entries.len() == 0 {
        None
    } else if entries[0].0@ == key {
        Some(entries[0].1@)
    } else {
        first_value(entries.drop_first(), key)
    }
}

pub open spec fn has_prefix(s: Seq<char>, p: Seq<char>) -> bool {
    p.len() <= s.len() && s.take(p.len() as int) == p
}

/// The first section with the given name.
pub open spec fn section_named(secs: Seq<IniSection>, name: Seq<char>) -> Option<IniSection>
    decreases secs.len(),
{
    if secs.len() == 0 {
        None
    } else if secs[0].name matches Some(n) && n@ == name {
        Some(secs[0])
    } else {
        section_named(secs.drop_first(), name)
    }
}

/// The default profile: the `profile` entry of `[general]`, without a
/// `profile.` prefix.
pub open spec fn default_profile_of(secs: Seq<IniSection>) -> Option<Seq<char>> {
    match section_named(secs, "general"@) {
        Some(g) => match first_value(g.entries@, "profile"@) {
            Some(v) => Some(
                if has_prefix(v, "profile."@) {
                    v.skip(8)
                } else {
                    v
                },
            ),
            None => None,
        },
        None => None,
    }
}

pub open spec fn key_index<V>(m: Seq<(Seq<char>, V)>, k: Seq<char>) -> Option<int>
    decreases m.len(),
{
    if m.len() == 0 {
        None
    } else if m.last().0 == k {
        Some(m.len() - 1)
    } else {
        key_index(m.drop_last(), k)
    }
}

/// `m` with the value of `k` set to `v`: in place where `k` is there,
/// appended where it is not.
pub open spec fn upsert<V>(m: Seq<(Seq<char>, V)>, k: Seq<char>, v: V) -> Seq<(Seq<char>, V)> {
    match key_index(m, k) {
        Some(i) => m.update(i, (k, v)),
        None => m.push((k, v)),
    }
}

/// The repository references of a `repos` entry.
pub open spec fn repo_refs_of(v: Option<Seq<char>>) -> Seq<Seq<char>> {
    match v {
        Some(text) => split_commas(text).map_values(|p: Seq<char>| trim_white(p)),
        None => Seq::empty(),
    }
}

/// Each `[profile.NAME]` section, in order, sets the references of NAME.
pub open spec fn profiles_from(secs: Seq<IniSection>) -> Seq<(Seq<char>, Seq<Seq<char>>)>
    decreases secs.len(),
{
    if secs.len() == 0 {
        Seq::empty()
    } else {
        let rest = profiles_from(secs.drop_last());
        let sec = secs.last();
        match sec.name {
            Some(n) => if has_prefix(n@, "profile."@) {
                upsert(rest, n@.skip(8), repo_refs_of(first_value(sec.entries@, "repos"@)))
            } else {
                rest
            },
            None => rest,
        }
    }
}

/// Each `[repo.NAME]` section with a `url` entry, in order, sets the URL of
/// NAME.
pub open spec fn repos_from(secs: Seq<IniSection>) -> Seq<(Seq<char>, Seq<char>)>
    decreases secs.len(),
{
    if secs.len() == 0 {
        Seq::empty()
    } else {
        let rest = repos_from(secs.drop_last());
        let sec = secs.last();
        match sec.name {
            Some(n) => if has_prefix(n@, "repo."@) && !has_prefix(n@, "profile."@) {
                match first_value(sec.entries@, "url"@) {
                    Some(u) => upsert(rest, n@.skip(5), u),
                    None => rest,
                }
            } else {
                rest
            },
            None => rest,
        }
    }
}

pub open spec fn profiles_view(ps: Seq<ProfileConfig>) -> Seq<(Seq<char>, Seq<Seq<char>>)> {
    ps.map_values(|p: ProfileConfig| (p.name@, p.repos@.map_values(|r: String| r@)))
}

pub open spec fn repos_view(rs: Seq<RepoConfig>) -> Seq<(Seq<char>, Seq<char>)> {
    rs.map_values(|r: RepoConfig| (r.name@, r.url@))
}

fn first_entry<'a>(entries: &'a Vec<(String, String)>, key: &str) -> (r: Option<&'a String>)
    ensures
        match r {
            Some(v) => first_value(entries@, key@) == Some(v@),
            None => first_value(entries@, key@) is None,
        },
{
    let ghost es = entries@;
    let mut i: usize = 0;
    assert(es.skip(0) =~= es);
    while i < entries.len()
        invariant
            es == entries@,
            i <= es.len(),
            first_value(es, key@) == first_value(es.skip(i as int), key@),
        decreases es.len() - i,
    {
        assert(es.skip(i as int).drop_first() =~= es.skip(i + 1));
        if text_eq(entries[i].0.as_str(), key) {
            return Some(&entries[i].1);
        }
        i = i + 1;
    }
    None
}

fn starts_with_text(s: &str, p: &str) -> (r: bool)
    ensures
        r == has_prefix(s@, p@),
{
    let n = s.unicode_len();
    let m = p.unicode_len();
    if m > n {
        return false;
    }
    let head = s.substring_char(0, m);
    text_eq(head, p)
}

/// A string without leading and trailing white space.
pub fn trim_text(s: &str) -> (r: String)
    ensures
        r@ == trim_white(s@),
{
    let v = char_vec(s);
    let mut e = v.len();
    assert(v@.take(e as int) =~= v@);
    while e > 0 && is_white_char(v[e - 1])
        invariant
            e <= v@.len(),
            v@ == s@,
            trim_white_end(s@) == trim_white_end(v@.take(e as int)),
        decreases e,
    {
        assert(v@.take(e as int).drop_last() =~= v@.take(e - 1));
        e = e - 1;
    }
    let ghost t = v@.take(e as int);
    let mut b: usize = 0;
    assert(t.skip(0) =~= t);
    while b < e && is_white_char(v[b])
        invariant
            b <= e <= v@.len(),
            t == v@.take(e as int),
            trim_white_start(t) == trim_white_start(t.skip(b as int)),
        decreases e - b,
    {
        assert(t.skip(b as int).drop_first() =~= t.skip(b + 1));
        b = b + 1;
    }
    assert(t.skip(b as int) =~= v@.subrange(b as int, e as int));
    String::from_str(s.substring_char(b, e))
}

fn split_and_trim(text: &str) -> (r: Vec<String>)
    ensures
        r@.map_values(|x: String| x@) == repo_refs_of(Some(text@)),
{
    let v = char_vec(text);
    let n = v.len();
    let mut parts: Vec<String> = Vec::new();
    let mut start: usize = 0;
    let mut i: usize = 0;
    proof {
        lemma_split_commas_nonempty(v@.take(0));
    }
    assert(v@.take(0) =~= Seq::<char>::empty());
    while i < n
        invariant
            n == v@.len(),
            v@ == text@,
            start <= i <= n,
            split_commas(v@.take(i as int)) == parts@.map_values(|x: String| x@).push(
                v@.subrange(start as int, i as int),
            ),
        decreases n - i,
    {
        let ghost before = parts@.map_values(|x: String| x@);
        assert(v@.take(i + 1).drop_last() =~= v@.take(i as int));
        assert(v@.take(i + 1).last() == v@[i as int]);
        if v[i] == ',' {
            parts.push(String::from_str(text.substring_char(start, i)));
            assert(parts@.map_values(|x: String| x@) =~= before.push(
                v@.subrange(start as int, i as int),
            ));
            i = i + 1;
            start = i;
            assert(v@.subrange(start as int, i as int) =~= Seq::<char>::empty());
        } else {
            assert(v@.subrange(start as int, i + 1) =~= v@.subrange(start as int, i as int).push(
                v@[i as int],
            ));
            i = i + 1;
            assert(before.push(v@.subrange(start as int, (i - 1) as int)).update(
                before.len() as int,
                v@.subrange(start as int, i as int),
            ) =~= before.push(v@.subrange(start as int, i as int)));
        }
    }
    assert(v@.take(n as int) =~= v@);
    parts.push(String::from_str(text.substring_char(start, n)));
    let ghost raw = parts@.map_values(|x: String| x@);
    assert(raw =~= split_commas(text@));
    let mut out: Vec<String> = Vec::new();
    let mut k: usize = 0;
    while k < parts.len()
        invariant
            k <= parts@.len(),
            raw == parts@.map_values(|x: String| x@),
            out@.len() == k,
            forall|j: int| 0 <= j < k ==> (#[trigger] out@[j])@ == trim_white(raw[j]),
        decreases parts@.len() - k,
    {
        out.push(trim_text(parts[k].as_str()));
        k = k + 1;
    }
    assert(out@.map_values(|x: String| x@) =~= raw.map_values(|p: Seq<char>| trim_white(p)));
    out
}

fn find_profile_index(ps: &Vec<ProfileConfig>, name: &str) -> (r: Option<usize>)
    ensures
        match r {
            Some(i) => i < ps@.len() && key_index(profiles_view(ps@), name@) == Some(i as int),
            None => key_index(profiles_view(ps@), name@) is None,
        },
{
    let ghost pv = profiles_view(ps@);
    let mut k = ps.len();
    assert(pv.take(k as int) =~= pv);
    while k > 0
        invariant
            k <= ps@.len(),
            pv == profiles_view(ps@),
            key_index(pv, name@) == key_index(pv.take(k as int), name@),
        decreases k,
    {
        assert(pv.take(k as int).drop_last() =~= pv.take(k - 1));
        assert(pv.take(k as int).last() == pv[k - 1]);
        if text_eq(ps[k - 1].name.as_str(), name) {
            return Some(k - 1);
        }
        k = k - 1;
    }
    None
}

fn find_repo_index(rs: &Vec<RepoConfig>, name: &str) -> (r: Option<usize>)
    ensures
        match r {
            Some(i) => i < rs@.len() && key_index(repos_view(rs@), name@) == Some(i as int),
            None => key_index(repos_view(rs@), name@) is None,
        },
{
    let ghost rv = repos_view(rs@);
    let mut k = rs.len();
    assert(rv.take(k as int) =~= rv);
    while k > 0
        invariant
            k <= rs@.len(),
            rv == repos_view(rs@),
            key_index(rv, name@) == key_index(rv.take(k as int), name@),
        decreases k,
    {
        assert(rv.take(k as int).drop_last() =~= rv.take(k - 1));
        assert(rv.take(k as int).last() == rv[k - 1]);
        if text_eq(rs[k - 1].name.as_str(), name) {
            return Some(k - 1);
        }
        k = k - 1;
    }
    None
}

fn find_section<'a>(secs: &'a Vec<IniSection>, name: &str) -> (r: Option<&'a IniSection>)
    ensures
        match r {
            Some(s) => section_named(secs@, name@) == Some(*s),
            None => section_named(secs@, name@) is None,
        },
{
    let ghost ss = secs@;
    let mut i: usize = 0;
    assert(ss.skip(0) =~= ss);
    while i < secs.len()
        invariant
            ss == secs@,
            i <= ss.len(),
            section_named(ss, name@) == section_named(ss.skip(i as int), name@),
        decreases ss.len() - i,
    {
        assert(ss.skip(i as int).drop_first() =~= ss.skip(i + 1));
        match &secs[i].name {
            Some(n) => {
                if text_eq(n.as_str(), name) {
                    return Some(&secs[i]);
                }
            },
            None => {},
        }
        i = i + 1;
    }
    None
}

impl GbsConfig {
    /// Reads the profiles and repositories of a GBS configuration from its
    /// INI sections: the default profile from `[general]`, each
    /// `[profile.NAME]` with its comma-separated `repos` references, each
    /// `[repo.NAME]` that has a `url`. A later section of the same name
    /// replaces an earlier one.
    pub fn from_sections(sections: &Vec<IniSection>, config_path: String) -> (r: GbsConfig)
        ensures
            r.config_path == config_path,
            opt_view_text(r.default_profile) == default_profile_of(sections@),
            profiles_view(r.profiles@) == profiles_from(sections@),
            repos_view(r.repos@) == repos_from(sections@),
    {
        proof {
            reveal_strlit("profile.");
            reveal_strlit("repo.");
        }
        let default_profile = match find_section(sections, "general") {
            Some(g) => match first_entry(&g.entries, "profile") {
                Some(v) => {
                    if starts_with_text(v.as_str(), "profile.") {
                        let n = v.as_str().unicode_len();
                        Some(String::from_str(v.as_str().substring_char(8, n)))
                    } else {
                        Some(v.clone())
                    }
                },
                None => None,
            },
            None => None,
        };
        let mut profiles: Vec<ProfileConfig> = Vec::new();
        let mut repos: Vec<RepoConfig> = Vec::new();
        let ghost ss = sections@;
        let mut i: usize = 0;
        while i < sections.len()
            invariant
                ss == sections@,
                i <= ss.len(),
                profiles_view(profiles@) == profiles_from(ss.take(i as int)),
                repos_view(repos@) == repos_from(ss.take(i as int)),
            decreases ss.len() - i,
        {
            proof {
                reveal_strlit("profile.");
                reveal_strlit("repo.");
                assert("profile."@.len() == 8);
                assert("repo."@.len() == 5);
            }
            assert(ss.take(i + 1).drop_last() =~= ss.take(i as int));
            assert(ss.take(i + 1).last() == ss[i as int]);
            let sec = &sections[i];
            match &sec.name {
                Some(n) => {
                    let len = n.as_str().unicode_len();
                    if starts_with_text(n.as_str(), "profile.") {
                        let pname = n.as_str().substring_char(8, len);
                        let refs = match first_entry(&sec.entries, "repos") {
                            Some(v) => split_and_trim(v.as_str()),
                            None => Vec::new(),
                        };
                        assert(refs@.map_values(|x: String| x@) =~= repo_refs_of(
                            first_value(sec.entries@, "repos"@),
                        ));
                        let ghost pv = profiles_view(profiles@);
                        let entry = ProfileConfig { name: String::from_str(pname), repos: refs };
                        match find_profile_index(&profiles, pname) {
                            Some(k) => {
                                profiles.remove(k);
                                profiles.insert(k, entry);
                            },
                            None => {
                                profiles.push(entry);
                            },
                        }
                        assert(profiles_view(profiles@) =~= upsert(
                            pv,
                            n@.skip(8),
                            repo_refs_of(first_value(sec.entries@, "repos"@)),
                        ));
                    } else if starts_with_text(n.as_str(), "repo.") {
                        match first_entry(&sec.entries, "url") {
                            Some(u) => {
                                let rname = n.as_str().substring_char(5, len);
                                let ghost rv = repos_view(repos@);
                                let entry = RepoConfig { name: String::from_str(rname), url: u.clone() };
                                match find_repo_index(&repos, rname) {
                                    Some(k) => {
                                        repos.remove(k);
                                        repos.insert(k, entry);
                                    },
                                    None => {
                                        repos.push(entry);
                                    },
                                }
                                assert(repos_view(repos@) =~= upsert(rv, n@.skip(5), u@));
                            },
                            None => {},
                        }
                    }
                },
                None => {},
            }
            i = i + 1;
        }
        assert(ss.take(i as int) =~= ss);
        GbsConfig { config_path, default_profile, profiles, repos }
    }
}

pub open spec fn opt_view_text(o: Option<String>) -> Option<Seq<char>> {
    match o {
        Some(s) => Some(s@),
        None => None,
    }
}

} // verus!
