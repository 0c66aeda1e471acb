//! The decisions of a search around the fusion: which path a query takes,
//! how many semantic candidates it asks for, and which hydrated records the
//! filters keep.
use crate::fusion::MIN_SEMANTIC_CANDIDATES;
use crate::package::{Dependency, Package};
use crate::text::text_eq;
use vstd::prelude::*;
use vstd::string::StrSliceExecFns;

verus! {

/// Restrictions on the records a search returns.
#[derive(Debug)]
pub struct SearchFilters {
    /// An exact package name.
    pub name: Option<String>,
    pub arch: Option<String>,
    /// Repositories to search; empty means all.
    pub repos: Vec<String>,
    /// Drop packages that require this capability.
    pub not_requiring: Option<String>,
    /// Keep only packages that provide this capability.
    pub providing: Option<String>,
}

/// A search request.
#[derive(Debug)]
pub struct SearchQuery {
    pub query_text: String,
    pub filters: SearchFilters,
    pub top_k: Option<usize>,
}

/// How a query is to be answered.
#[derive(Debug)]
pub enum SearchPlan {
    /// Look the name up and score every hit 1.0; no fusion.
    ExactName(String),
    /// Fuse lexical and semantic scores. With `prefilter`, the semantic
    /// search is restricted to the ids that match the arch and repository
    /// filters.
    Hybrid { top_k: usize, semantic_limit: usize, prefilter: bool },
}

/// Number of semantic candidates asked for: three times `top_k`, at least
/// `MIN_SEMANTIC_CANDIDATES` (and `usize::MAX` where three times `top_k`
/// does not fit).
pub open spec fn semantic_limit_of(top_k: nat) -> nat {
    if 3 * top_k > usize::MAX {
        usize::MAX as nat
    } else if 3 * top_k < MIN_SEMANTIC_CANDIDATES {
        MIN_SEMANTIC_CANDIDATES as nat
    } else {
        3 * top_k
    }
}

pub fn semantic_limit(top_k: usize) -> (r: usize)
    ensures
        r == semantic_limit_of(top_k as nat),
{
    if top_k > usize::MAX / 3 {
        usize::MAX
    } else if 3 * top_k < MIN_SEMANTIC_CANDIDATES {
        MIN_SEMANTIC_CANDIDATES
    } else {
        3 * top_k
    }
}

pub open spec fn effective_top_k(q: SearchQuery, default_top_k: usize) -> usize {
    match q.top_k {
        Some(k) => k,
        None => default_top_k,
    }
}

/// Decides how a query is answered: an exact name with no query text is a
/// plain lookup; everything else is fused, pre-filtered where an arch or
/// repository filter is given.
pub fn plan_search(query: &SearchQuery, default_top_k: usize) -> (r: SearchPlan)
    ensures
        (query.filters.name is Some && query.query_text@.len() == 0) ==> r == SearchPlan::ExactName(
            query.filters.name->0,
        ),
        !(query.filters.name is Some && query.query_text@.len() == 0) ==> r == (SearchPlan::Hybrid {
            top_k: effective_top_k(*query, default_top_k),
            semantic_limit: semantic_limit_of(effective_top_k(*query, default_top_k) as nat) as usize,
            prefilter: query.filters.arch is Some || query.filters.repos@.len() > 0,
        }),
{
    let top_k = match query.top_k {
        Some(k) => k,
        None => default_top_k,
    };
    match &query.filters.name {
        Some(n) => {
            if query.query_text.as_str().unicode_len() == 0 {
                return SearchPlan::ExactName(n.clone());
            }
        },
        None => {},
    }
    let prefilter = query.filters.arch.is_some() || query.filters.repos.len() > 0;
    SearchPlan::Hybrid { top_k, semantic_limit: semantic_limit(top_k), prefilter }
}

/// Whether the semantic search is skipped: a pre-filter that no package
/// meets leaves nothing to score.
pub fn skip_semantic(prefilter: bool, candidate_count: usize) -> (r: bool)
    ensures
        r == (prefilter && candidate_count == 0),
{
    prefilter && candidate_count == 0
}

pub open spec fn text_in(xs: Seq<String>, s: Seq<char>) -> bool {
    exists|i: int| 0 <= i < xs.len() && (#[trigger] xs[i])@ == s
}

pub open spec fn dep_named(ds: Seq<Dependency>, n: Seq<char>) -> bool {
    exists|i: int| 0 <= i < ds.len() && (#[trigger] ds[i]).name@ == n
}

/// Whether a hydrated record meets the arch, repository, "does not
/// require" and "provides" filters.
pub open spec fn passes_filters(f: SearchFilters, p: Package) -> bool {
    &&& match f.arch {
        Some(a) => p.arch@ == a@,
        None => true,
    }
    &&& (f.repos@.len() == 0 || text_in(f.repos@, p.repo@))
    &&& match f.not_requiring {
        Some(x) => !dep_named(p.requires@, x@),
        None => true,
    }
    &&& match f.providing {
        Some(y) => dep_named(p.provides@, y@),
        None => true,
    }
}

/// The scored records that meet the filters, in order.
pub open spec fn filtered_results(f: SearchFilters, s: Seq<(Package, u64)>) -> Seq<(Package, u64)>
    decreases s.len(),
{
    if s.len() == 0 {
        Seq::empty()
    } else if passes_filters(f, s.last().0) {
        filtered_results(f, s.drop_last()).push(s.last())
    } else {
        filtered_results(f, s.drop_last())
    }
}

fn contains_text(xs: &Vec<String>, s: &String) -> (r: bool)
    ensures
        r == text_in(xs@, s@),
{
    let mut i: usize = 0;
    while i < xs.len()
        invariant
            i <= xs@.len(),
            forall|k: int| 0 <= k < i ==> (#[trigger] xs@[k])@ != s@,
        decreases xs@.len() - i,
    {
        if text_eq(xs[i].as_str(), s.as_str()) {
            return true;
        }
        i = i + 1;
    }
    false
}

fn has_dep_named(ds: &Vec<Dependency>, n: &String) -> (r: bool)
    ensures
        r == dep_named(ds@, n@),
{
    let mut i: usize = 0;
    while i < ds.len()
        invariant
            i <= ds@.len(),
            forall|k: int| 0 <= k < i ==> (#[trigger] ds@[k]).name@ != n@,
        decreases ds@.len() - i,
    {
        if text_eq(ds[i].name.as_str(), n.as_str()) {
            return true;
        }
        i = i + 1;
    }
    false
}

/// Whether a record meets every filter that applies after scoring.
pub fn matches_filters(filters: &SearchFilters, pkg: &Package) -> (r: bool)
    ensures
        r == passes_filters(*filters, *pkg),
{
    match &filters.arch {
        Some(a) => {
            if !text_eq(pkg.arch.as_str(), a.as_str()) {
                return false;
            }
        },
        None => {},
    }
    if filters.repos.len() > 0 && !contains_text(&filters.repos, &pkg.repo) {
        return false;
    }
    match &filters.not_requiring {
        Some(x) => {
            if has_dep_named(&pkg.requires, x) {
                return false;
            }
        },
        None => {},
    }
    match &filters.providing {
        Some(y) => has_dep_named(&pkg.provides, y),
        None => true,
    }
}

/// Drops the hydrated records that fail a filter; the order stays, and
/// nothing takes a dropped record's place.
pub fn apply_post_filters(filters: &SearchFilters, hydrated: Vec<(Package, u64)>) -> (r: Vec<
    (Package, u64),
>)
    ensures
        r@ == filtered_results(*filters, hydrated@),
        r@.len() <= hydrated@.len(),
{
    let ghost s = hydrated@;
    let n = hydrated.len();
    let mut rest = hydrated;
    let mut out: Vec<(Package, u64)> = Vec::new();
    let mut i: usize = 0;
    assert(s.skip(0) =~= s);
    while rest.len() > 0
        invariant
            n == s.len(),
            i + rest@.len() == n,
            rest@ == s.skip(i as int),
            out@ == filtered_results(*filters, s.take(i as int)),
            out@.len() <= i,
        decreases rest@.len(),
    {
        let item = rest.remove(0);
        assert(item == s[i as int]);
        assert(s.take(i + 1).drop_last() =~= s.take(i as int));
        assert(s.take(i + 1).last() == item);
        if matches_filters(filters, &item.0) {
            out.push(item);
        }
        i = i + 1;
        assert(rest@ =~= s.skip(i as int));
    }
    assert(s.take(i as int) =~= s);
    out
}

} // verus!
