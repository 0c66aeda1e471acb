//! Output formatting and small helpers of the query commands.
use crate::package::{full_version_text, Package};
use crate::text::{char_vec, decimal, int_to_text, text_eq};
use vstd::prelude::*;
use vstd::string::{StrSliceExecFns, StringExecFns};

verus! {

/// `s` with every occurrence of `pat` replaced by `rep`, scanning left to
/// right and never matching inside a replacement.
pub open spec fn replaced(s: Seq<char>, pat: Seq<char>, rep: Seq<char>) -> Seq<char>
    decreases s.len(),
{
    if s.len() == 0 {
        Seq::empty()
    } else if pat.len() > 0 && pat.len() <= s.len() && s.take(pat.len() as int) == pat {
        rep + replaced(s.skip(pat.len() as int), pat, rep)
    } else {
        seq![s[0]] + replaced(s.drop_first(), pat, rep)
    }
}

fn starts_at(v: &Vec<char>, i: usize, p: &Vec<char>) -> (r: bool)
    requires
        i <= v@.len(),
    ensures
        r == (p@.len() <= v@.len() - i && v@.skip(i as int).take(p@.len() as int) == p@),
{
    if p.len() > v.len() - i {
        return false;
    }
    let vn = v.len();
    let mut k: usize = 0;
    while k < p.len()
        invariant
            vn == v@.len(),
            i + p@.len() <= vn,
            k <= p@.len(),
            forall|j: int| 0 <= j < k ==> v@[i + j] == p@[j],
        decreases p@.len() - k,
    {
        if v[i + k] != p[k] {
            assert(v@.skip(i as int).take(p@.len() as int)[k as int] != p@[k as int]);
            return false;
        }
        k = k + 1;
    }
    assert(v@.skip(i as int).take(p@.len() as int) =~= p@);
    true
}

/// Replaces every occurrence of `pat` in `s` by `rep`.
pub fn replace_text(s: &str, pat: &str, rep: &str) -> (r: String)
    ensures
        r@ == replaced(s@, pat@, rep@),
{
    let v = char_vec(s);
    let p = char_vec(pat);
    let n = v.len();
    let mut out = String::new();
    let mut i: usize = 0;
    assert(v@.skip(0) =~= v@);
    while i < n
        invariant
            n == v@.len(),
            v@ == s@,
            p@ == pat@,
            i <= n,
            out@ + replaced(v@.skip(i as int), pat@, rep@) == replaced(s@, pat@, rep@),
        decreases n - i,
    {
        let ghost t = v@.skip(i as int);
        if p.len() > 0 && starts_at(&v, i, &p) {
            assert(t.skip(p@.len() as int) =~= v@.skip(i + p@.len()));
            assert(out@ + rep@ + replaced(v@.skip(i + p@.len()), pat@, rep@) =~= out@ + (rep@
                + replaced(t.skip(p@.len() as int), pat@, rep@)));
            out.append(rep);
            i = i + p.len();
        } else {
            let one = s.substring_char(i, i + 1);
            assert(one@ =~= seq![t[0]]);
            assert(t.drop_first() =~= v@.skip(i + 1));
            assert(out@ + one@ + replaced(v@.skip(i + 1), pat@, rep@) =~= out@ + (seq![t[0]]
                + replaced(t.drop_first(), pat@, rep@)));
            out.append(one);
            i = i + 1;
        }
    }
    assert(v@.skip(n as int) =~= Seq::<char>::empty());
    assert(out@ + Seq::<char>::empty() =~= out@);
    out
}

pub open spec fn text_or_empty(o: Option<String>) -> Seq<char> {
    match o {
        Some(s) => s@,
        None => Seq::empty(),
    }
}

pub open spec fn nevra_text(p: Package) -> Seq<char> {
    p.name@ + seq!['-'] + full_version_text(p) + seq!['.'] + p.arch@
}

/// A query format filled in for a package: `%{name}`, `%{version}`,
/// `%{release}`, `%{epoch}`, `%{arch}`, `%{summary}`, `%{description}`,
/// `%{license}`, `%{repo}`, `%{vcs}` and `%{nevra}` are replaced in this
/// order, then `\n` and `\t` become a newline and a tab.
pub open spec fn querystring(fmt: Seq<char>, p: Package) -> Seq<char> {
    let s = replaced(fmt, "%{name}"@, p.name@);
    let s = replaced(s, "%{version}"@, p.version@);
    let s = replaced(s, "%{release}"@, p.release@);
    let s = replaced(
        s,
        "%{epoch}"@,
        match p.epoch {
            Some(e) => decimal(e as int),
            None => Seq::empty(),
        },
    );
    let s = replaced(s, "%{arch}"@, p.arch@);
    let s = replaced(s, "%{summary}"@, p.summary@);
    let s = replaced(s, "%{description}"@, p.description@);
    let s = replaced(s, "%{license}"@, text_or_empty(p.license));
    let s = replaced(s, "%{repo}"@, p.repo@);
    let s = replaced(s, "%{vcs}"@, text_or_empty(p.vcs));
    let s = replaced(s, "%{nevra}"@, nevra_text(p));
    let s = replaced(s, "\\n"@, "\n"@);
    replaced(s, "\\t"@, "\t"@)
}

fn opt_str(o: &Option<String>) -> (r: &str)
    ensures
        r@ == text_or_empty(*o),
{
    proof {
        reveal_strlit("");
    }
    match o {
        Some(s) => s.as_str(),
        None => "",
    }
}

/// Fills in a query format for a package.
pub fn format_querystring(fmt: &str, pkg: &Package) -> (r: String)
    ensures
        r@ == querystring(fmt@, *pkg),
{
    let epoch = match pkg.epoch {
        Some(e) => int_to_text(e),
        None => String::new(),
    };
    let mut nevra = String::from_str(pkg.name.as_str());
    proof {
        reveal_strlit("-");
        reveal_strlit(".");
        assert("-"@ =~= seq!['-']);
        assert("."@ =~= seq!['.']);
    }
    nevra.append("-");
    let fv = pkg.full_version();
    nevra.append(fv.as_str());
    nevra.append(".");
    nevra.append(pkg.arch.as_str());
    assert(nevra@ =~= nevra_text(*pkg));
    let s = replace_text(fmt, "%{name}", pkg.name.as_str());
    let s = replace_text(s.as_str(), "%{version}", pkg.version.as_str());
    let s = replace_text(s.as_str(), "%{release}", pkg.release.as_str());
    let s = replace_text(s.as_str(), "%{epoch}", epoch.as_str());
    let s = replace_text(s.as_str(), "%{arch}", pkg.arch.as_str());
    let s = replace_text(s.as_str(), "%{summary}", pkg.summary.as_str());
    let s = replace_text(s.as_str(), "%{description}", pkg.description.as_str());
    let s = replace_text(s.as_str(), "%{license}", opt_str(&pkg.license));
    let s = replace_text(s.as_str(), "%{repo}", pkg.repo.as_str());
    let s = replace_text(s.as_str(), "%{vcs}", opt_str(&pkg.vcs));
    let s = replace_text(s.as_str(), "%{nevra}", nevra.as_str());
    let s = replace_text(s.as_str(), "\\n", "\n");
    replace_text(s.as_str(), "\\t", "\t")
}

pub open spec fn trim_end_slashes(u: Seq<char>) -> Seq<char>
    decreases u.len(),
{
    if u.len() > 0 && u.last() == '/' {
        trim_end_slashes(u.drop_last())
    } else {
        u
    }
}

pub open spec fn trim_start_slashes(u: Seq<char>) -> Seq<char>
    decreases u.len(),
{
    if u.len() > 0 && u[0] == '/' {
        trim_start_slashes(u.drop_first())
    } else {
        u
    }
}

/// The URL of a file of a repository: the base URL without trailing
/// slashes, one slash, and the location without leading slashes.
pub fn build_download_url(base_url: &str, location: &str) -> (r: String)
    ensures
        r@ == trim_end_slashes(base_url@) + seq!['/'] + trim_start_slashes(location@),
{
    let b = char_vec(base_url);
    let mut e = b.len();
    assert(b@.take(e as int) =~= b@);
    while e > 0 && b[e - 1] == '/'
        invariant
            e <= b@.len(),
            b@ == base_url@,
            trim_end_slashes(base_url@) == trim_end_slashes(b@.take(e as int)),
        decreases e,
    {
        assert(b@.take(e as int).drop_last() =~= b@.take(e - 1));
        e = e - 1;
    }
    let l = char_vec(location);
    let mut s: usize = 0;
    assert(l@.skip(0) =~= l@);
    while s < l.len() && l[s] == '/'
        invariant
            s <= l@.len(),
            l@ == location@,
            trim_start_slashes(location@) == trim_start_slashes(l@.skip(s as int)),
        decreases l@.len() - s,
    {
        assert(l@.skip(s as int).drop_first() =~= l@.skip(s + 1));
        s = s + 1;
    }
    let mut url = String::from_str(base_url.substring_char(0, e));
    proof {
        reveal_strlit("/");
    }
    url.append("/");
    url.append(location.substring_char(s, l.len()));
    url
}

pub open spec fn names_contain(v: Seq<String>, n: Seq<char>) -> bool {
    exists|i: int| 0 <= i < v.len() && (#[trigger] v[i])@ == n
}

/// `repos` followed by each name of `extra` that is not yet among them.
pub open spec fn merged_names(repos: Seq<String>, extra: Seq<(String, String)>) -> Seq<String>
    decreases extra.len(),
{
    if extra.len() == 0 {
        repos
    } else {
        let done = merged_names(repos, extra.drop_last());
        if names_contain(done, extra.last().0@) {
            done
        } else {
            done.push(extra.last().0)
        }
    }
}

/// Adds the repository names of a GBS profile to the names given on the
/// command line, skipping those already there.
pub fn resolve_repos(repo: Vec<String>, gbs_repos: Vec<(String, String)>) -> (r: Vec<String>)
    ensures
        r@ == merged_names(repo@, gbs_repos@),
{
    let mut repos = repo;
    let ghost start = repos@;
    let mut i: usize = 0;
    while i < gbs_repos.len()
        invariant
            i <= gbs_repos@.len(),
            repos@ == merged_names(start, gbs_repos@.take(i as int)),
        decreases gbs_repos@.len() - i,
    {
        assert(gbs_repos@.take(i + 1).drop_last() =~= gbs_repos@.take(i as int));
        assert(gbs_repos@.take(i + 1).last() == gbs_repos@[i as int]);
        let name = &gbs_repos[i].0;
        let mut found = false;
        let mut k: usize = 0;
        while k < repos.len()
            invariant
                k <= repos@.len(),
                found == exists|j: int| 0 <= j < k && (#[trigger] repos@[j])@ == name@,
            decreases repos@.len() - k,
        {
            if text_eq(repos[k].as_str(), name.as_str()) {
                found = true;
            }
            k = k + 1;
        }
        if !found {
            repos.push(name.clone());
        }
        i = i + 1;
    }
    assert(gbs_repos@.take(i as int) =~= gbs_repos@);
    repos
}

/// Whether a repository needs reindexing: it does unless the checksum of
/// its primary list is the one recorded at the last sync.
pub fn checksum_changed(last: Option<&str>, current: &str) -> (r: bool)
    ensures
        r == match last {
            Some(l) => l@ != current@,
            None => true,
        },
{
    match last {
        Some(l) => !text_eq(l, current),
        None => true,
    }
}

} // verus!
