//! Incremental sync: which incoming packages are new, which replace a stored
//! package of the same name and arch, and which stored packages are gone.
use crate::package::Package;
use crate::text::text_eq;
use crate::version::RpmVersion;
use core::cmp::Ordering;
use vstd::multiset::{lemma_multiset_empty_len, Multiset};
use vstd::prelude::*;
use vstd::seq_lib::group_to_multiset_ensures;

verus! {

/// What the store holds for one name and arch of a repository.
#[derive(Debug)]
pub struct SnapshotEntry {
    pub pkg_id: i64,
    pub name: String,
    pub arch: String,
    pub version: RpmVersion,
}

/// The changes that one sync pass makes; they are to be applied together.
#[derive(Debug)]
pub struct SyncPlan {
    pub inserts: Vec<Package>,
    /// The id of the stored package and the record that replaces it.
    pub updates: Vec<(i64, Package)>,
    /// Name and arch of each stored package that is gone.
    pub deletes: Vec<(String, String)>,
}

/// What one incoming record asks for.
pub enum SyncAction {
    Insert,
    Update(i64),
    Unchanged,
}

pub open spec fn same_key(e: SnapshotEntry, p: Package) -> bool {
    e.name@ == p.name@ && e.arch@ == p.arch@
}

/// The first stored entry with the name and arch of `p`.
pub open spec fn find_entry(ex: Seq<SnapshotEntry>, p: Package) -> Option<SnapshotEntry>
    decreases ex.len(),
{
    if ex.len() == 0 {
        None
    } else if same_key(ex[0], p) {
        Some(ex[0])
    } else {
        find_entry(ex.drop_first(), p)
    }
}

pub open spec fn action_of(ex: Seq<SnapshotEntry>, p: Package) -> SyncAction {
    match find_entry(ex, p) {
        None => SyncAction::Insert,
        Some(e) => if p.rpm_version().spec_cmp(&e.version) == Ordering::Equal {
            SyncAction::Unchanged
        } else {
            SyncAction::Update(e.pkg_id)
        },
    }
}

/// The incoming records whose name and arch are not stored, in order.
pub open spec fn plan_inserts(ex: Seq<SnapshotEntry>, inc: Seq<Package>) -> Seq<Package>
    decreases inc.len(),
{
    if inc.len() == 0 {
        Seq::empty()
    } else {
        let rest = plan_inserts(ex, inc.drop_last());
        if action_of(ex, inc.last()) is Insert {
            rest.push(inc.last())
        } else {
            rest
        }
    }
}

/// The incoming records whose version differs from the stored one, each
/// with the id of the stored package, in order.
pub open spec fn plan_updates(ex: Seq<SnapshotEntry>, inc: Seq<Package>) -> Seq<(i64, Package)>
    decreases inc.len(),
{
    if inc.len() == 0 {
        Seq::empty()
    } else {
        let rest = plan_updates(ex, inc.drop_last());
        match action_of(ex, inc.last()) {
            SyncAction::Update(id) => rest.push((id, inc.last())),
            _ => rest,
        }
    }
}

pub open spec fn key_incoming(e: SnapshotEntry, inc: Seq<Package>) -> bool {
    exists|m: int| 0 <= m < inc.len() && same_key(e, #[trigger] inc[m])
}

/// Name and arch of the stored entries that no incoming record has, in
/// stored order.
pub open spec fn plan_deletes(ex: Seq<SnapshotEntry>, inc: Seq<Package>) -> Seq<(Seq<char>, Seq<char>)>
    decreases ex.len(),
{
    if ex.len() == 0 {
        Seq::empty()
    } else {
        let rest = plan_deletes(ex.drop_last(), inc);
        if key_incoming(ex.last(), inc) {
            rest
        } else {
            rest.push((ex.last().name@, ex.last().arch@))
        }
    }
}

pub open spec fn deletes_view(d: Seq<(String, String)>) -> Seq<(Seq<char>, Seq<char>)> {
    d.map_values(|x: (String, String)| (x.0@, x.1@))
}

/// The position of the stored entry with the name and arch of `p`.
fn find_snapshot(ex: &Vec<SnapshotEntry>, p: &Package) -> (r: Option<usize>)
    ensures
        match r {
            Some(i) => i < ex@.len() && find_entry(ex@, *p) == Some(ex@[i as int]),
            None => find_entry(ex@, *p) is None,
        },
{
    let mut i: usize = 0;
    assert(ex@.skip(0) =~= ex@);
    while i < ex.len()
        invariant
            i <= ex@.len(),
            find_entry(ex@, *p) == find_entry(ex@.skip(i as int), *p),
        decreases ex@.len() - i,
    {
        assert(ex@.skip(i as int).drop_first() =~= ex@.skip(i + 1));
        if text_eq(ex[i].name.as_str(), p.name.as_str()) && text_eq(
            ex[i].arch.as_str(),
            p.arch.as_str(),
        ) {
            return Some(i);
        }
        i = i + 1;
    }
    None
}

/// Whether some incoming record has the name and arch of `e`.
fn has_incoming(e: &SnapshotEntry, inc: &Vec<Package>) -> (r: bool)
    ensures
        r == key_incoming(*e, inc@),
{
    let mut m: usize = 0;
    while m < inc.len()
        invariant
            m <= inc@.len(),
            forall|k: int| 0 <= k < m ==> !same_key(*e, #[trigger] inc@[k]),
        decreases inc@.len() - m,
    {
        if text_eq(inc[m].name.as_str(), e.name.as_str()) && text_eq(
            inc[m].arch.as_str(),
            e.arch.as_str(),
        ) {
            assert(same_key(*e, inc@[m as int]));
            return true;
        }
        m = m + 1;
    }
    false
}

/// Sorts an incoming batch against the stored snapshot of a repository: a
/// record whose name and arch are not stored is an insert; one whose
/// version differs from the stored one (under the version order) is an
/// update of the stored package; one with an equal version needs nothing;
/// and a stored name and arch that no record has is a delete.
pub fn classify(existing: &Vec<SnapshotEntry>, incoming: Vec<Package>) -> (r: SyncPlan)
    ensures
        r.inserts@ == plan_inserts(existing@, incoming@),
        r.updates@ == plan_updates(existing@, incoming@),
        deletes_view(r.deletes@) == plan_deletes(existing@, incoming@),
{
    let mut deletes: Vec<(String, String)> = Vec::new();
    let mut j: usize = 0;
    while j < existing.len()
        invariant
            j <= existing@.len(),
            deletes_view(deletes@) == plan_deletes(existing@.take(j as int), incoming@),
        decreases existing@.len() - j,
    {
        assert(existing@.take(j + 1).drop_last() =~= existing@.take(j as int));
        let e = &existing[j];
        if !has_incoming(e, &incoming) {
            deletes.push((e.name.clone(), e.arch.clone()));
        }
        j = j + 1;
        assert(deletes_view(deletes@) =~= plan_deletes(existing@.take(j as int), incoming@));
    }
    assert(existing@.take(j as int) =~= existing@);
    let ghost inc = incoming@;
    let n = incoming.len();
    let mut rest = incoming;
    let mut inserts: Vec<Package> = Vec::new();
    let mut updates: Vec<(i64, Package)> = Vec::new();
    let mut i: usize = 0;
    assert(inc.skip(0) =~= inc);
    while rest.len() > 0
        invariant
            n == inc.len(),
            i + rest@.len() == n,
            rest@ == inc.skip(i as int),
            inserts@ == plan_inserts(existing@, inc.take(i as int)),
            updates@ == plan_updates(existing@, inc.take(i as int)),
        decreases rest@.len(),
    {
        let p = rest.remove(0);
        assert(p == inc[i as int]);
        assert(inc.take(i + 1).drop_last() =~= inc.take(i as int));
        assert(inc.take(i + 1).last() == p);
        match find_snapshot(existing, &p) {
            None => {
                inserts.push(p);
            },
            Some(k) => {
                let v = p.to_rpm_version();
                match v.cmp(&existing[k].version) {
                    Ordering::Equal => {},
                    _ => {
                        updates.push((existing[k].pkg_id, p));
                    },
                }
            },
        }
        i = i + 1;
        assert(rest@ =~= inc.skip(i as int));
    }
    assert(inc.take(i as int) =~= inc);
    SyncPlan { inserts, updates, deletes }
}

pub open spec fn key_of(p: Package) -> (Seq<char>, Seq<char>) {
    (p.name@, p.arch@)
}

pub open spec fn entry_key(e: SnapshotEntry) -> (Seq<char>, Seq<char>) {
    (e.name@, e.arch@)
}

/// No two stored entries share a name and arch.
pub open spec fn snapshot_keys_unique(ex: Seq<SnapshotEntry>) -> bool {
    forall|i: int, j: int|
        0 <= i < j < ex.len() ==> entry_key(#[trigger] ex[i]) != entry_key(#[trigger] ex[j])
}

/// No two incoming records share a name and arch.
pub open spec fn incoming_keys_unique(inc: Seq<Package>) -> bool {
    forall|i: int, j: int| 0 <= i < j < inc.len() ==> key_of(#[trigger] inc[i]) != key_of(#[trigger] inc[j])
}

pub open spec fn key_inserted(ex: Seq<SnapshotEntry>, inc: Seq<Package>, k: (Seq<char>, Seq<char>)) -> bool {
    exists|p: Package| plan_inserts(ex, inc).contains(p) && key_of(p) == k
}

pub open spec fn key_updated(ex: Seq<SnapshotEntry>, inc: Seq<Package>, k: (Seq<char>, Seq<char>)) -> bool {
    exists|u: (i64, Package)| plan_updates(ex, inc).contains(u) && key_of(u.1) == k
}

pub open spec fn key_deleted(ex: Seq<SnapshotEntry>, inc: Seq<Package>, k: (Seq<char>, Seq<char>)) -> bool {
    plan_deletes(ex, inc).contains(k)
}

pub open spec fn key_unchanged(ex: Seq<SnapshotEntry>, inc: Seq<Package>, k: (Seq<char>, Seq<char>)) -> bool {
    exists|p: Package| inc.contains(p) && key_of(p) == k && action_of(ex, p) is Unchanged
}

proof fn lemma_inserts_contains(ex: Seq<SnapshotEntry>, inc: Seq<Package>, p: Package)
    ensures
        plan_inserts(ex, inc).contains(p) <==> (inc.contains(p) && action_of(ex, p) is Insert),
    decreases inc.len(),
{
    if inc.len() > 0 {
        lemma_inserts_contains(ex, inc.drop_last(), p);
        assert(inc =~= inc.drop_last().push(inc.last()));
        let rest = plan_inserts(ex, inc.drop_last());
        if inc.drop_last().contains(p) {
            let m = choose|m: int| 0 <= m < inc.drop_last().len() && inc.drop_last()[m] == p;
            assert(inc[m] == p);
        }
        if inc.contains(p) && p != inc.last() {
            let m = choose|m: int| 0 <= m < inc.len() && inc[m] == p;
            assert(inc.drop_last()[m] == p);
        }
        if action_of(ex, inc.last()) is Insert {
            assert(rest.push(inc.last())[rest.len() as int] == inc.last());
            if rest.contains(p) {
                let m = choose|m: int| 0 <= m < rest.len() && rest[m] == p;
                assert(rest.push(inc.last())[m] == p);
            }
            if rest.push(inc.last()).contains(p) && p != inc.last() {
                let m = choose|m: int| 0 <= m < rest.len() + 1 && rest.push(inc.last())[m] == p;
                assert(rest[m] == p);
            }
        }
    }
}

proof fn lemma_updates_contains(ex: Seq<SnapshotEntry>, inc: Seq<Package>, u: (i64, Package))
    ensures
        plan_updates(ex, inc).contains(u) <==> (inc.contains(u.1) && action_of(ex, u.1)
            == SyncAction::Update(u.0)),
    decreases inc.len(),
{
    if inc.len() > 0 {
        lemma_updates_contains(ex, inc.drop_last(), u);
        let p = u.1;
        let rest = plan_updates(ex, inc.drop_last());
        if inc.drop_last().contains(p) {
            let m = choose|m: int| 0 <= m < inc.drop_last().len() && inc.drop_last()[m] == p;
            assert(inc[m] == p);
        }
        if inc.contains(p) && p != inc.last() {
            let m = choose|m: int| 0 <= m < inc.len() && inc[m] == p;
            assert(inc.drop_last()[m] == p);
        }
        match action_of(ex, inc.last()) {
            SyncAction::Update(id) => {
                let x = (id, inc.last());
                assert(rest.push(x)[rest.len() as int] == x);
                if rest.contains(u) {
                    let m = choose|m: int| 0 <= m < rest.len() && rest[m] == u;
                    assert(rest.push(x)[m] == u);
                }
                if rest.push(x).contains(u) && u != x {
                    let m = choose|m: int| 0 <= m < rest.len() + 1 && rest.push(x)[m] == u;
                    assert(rest[m] == u);
                }
            },
            _ => {},
        }
    }
}

proof fn lemma_deletes_contains(ex: Seq<SnapshotEntry>, inc: Seq<Package>, k: (Seq<char>, Seq<char>))
    ensures
        plan_deletes(ex, inc).contains(k) <==> exists|i: int|
            0 <= i < ex.len() && entry_key(#[trigger] ex[i]) == k && !key_incoming(ex[i], inc),
    decreases ex.len(),
{
    if ex.len() > 0 {
        let e = ex.last();
        let d = ex.drop_last();
        lemma_deletes_contains(d, inc, k);
        let rest = plan_deletes(d, inc);
        if exists|i: int| 0 <= i < d.len() && entry_key(#[trigger] d[i]) == k && !key_incoming(d[i], inc) {
            let i = choose|i: int| 0 <= i < d.len() && entry_key(#[trigger] d[i]) == k && !key_incoming(d[i], inc);
            assert(ex[i] == d[i]);
        }
        if exists|i: int| 0 <= i < ex.len() && entry_key(#[trigger] ex[i]) == k && !key_incoming(ex[i], inc) {
            let i = choose|i: int| 0 <= i < ex.len() && entry_key(#[trigger] ex[i]) == k && !key_incoming(ex[i], inc);
            if i < ex.len() - 1 {
                assert(d[i] == ex[i]);
            }
        }
        if !key_incoming(e, inc) {
            let x = (e.name@, e.arch@);
            assert(rest.push(x)[rest.len() as int] == x);
            if rest.contains(k) {
                let m = choose|m: int| 0 <= m < rest.len() && rest[m] == k;
                assert(rest.push(x)[m] == k);
            }
            if rest.push(x).contains(k) && k != x {
                let m = choose|m: int| 0 <= m < rest.len() + 1 && rest.push(x)[m] == k;
                assert(rest[m] == k);
            }
        }
    }
}

/// Every name and arch that is stored or incoming falls in exactly one of
/// four kinds: inserted, updated, deleted, or unchanged (stored, incoming,
/// and the versions compare equal). This holds where neither side holds a
/// name and arch twice.
pub proof fn lemma_sync_completeness(
    ex: Seq<SnapshotEntry>,
    inc: Seq<Package>,
    k: (Seq<char>, Seq<char>),
)
    requires
        snapshot_keys_unique(ex),
        incoming_keys_unique(inc),
        (exists|i: int| 0 <= i < ex.len() && entry_key(#[trigger] ex[i]) == k) || (exists|m: int|
            0 <= m < inc.len() && key_of(#[trigger] inc[m]) == k),
    ensures
        key_inserted(ex, inc, k) || key_updated(ex, inc, k) || key_deleted(ex, inc, k)
            || key_unchanged(ex, inc, k),
        !(key_inserted(ex, inc, k) && key_updated(ex, inc, k)),
        !(key_inserted(ex, inc, k) && key_deleted(ex, inc, k)),
        !(key_inserted(ex, inc, k) && key_unchanged(ex, inc, k)),
        !(key_updated(ex, inc, k) && key_deleted(ex, inc, k)),
        !(key_updated(ex, inc, k) && key_unchanged(ex, inc, k)),
        !(key_deleted(ex, inc, k) && key_unchanged(ex, inc, k)),
{
    lemma_deletes_contains(ex, inc, k);
    assert forall|p: Package| #[trigger] plan_inserts(ex, inc).contains(p) <==> (inc.contains(p)
        && action_of(ex, p) is Insert) by {
        lemma_inserts_contains(ex, inc, p);
    }
    assert forall|u: (i64, Package)| #[trigger] plan_updates(ex, inc).contains(u) <==> (
    inc.contains(u.1) && action_of(ex, u.1) == SyncAction::Update(u.0)) by {
        lemma_updates_contains(ex, inc, u);
    }
    // Two incoming records with the key are the same record.
    assert forall|p: Package, q: Package|
        inc.contains(p) && inc.contains(q) && key_of(p) == k && key_of(q) == k implies p == q by {
        let a = choose|a: int| 0 <= a < inc.len() && inc[a] == p;
        let b = choose|b: int| 0 <= b < inc.len() && inc[b] == q;
        if a < b {
            assert(key_of(inc[a]) != key_of(inc[b]));
        } else if b < a {
            assert(key_of(inc[b]) != key_of(inc[a]));
        }
    }
    if exists|m: int| 0 <= m < inc.len() && key_of(#[trigger] inc[m]) == k {
        let m = choose|m: int| 0 <= m < inc.len() && key_of(#[trigger] inc[m]) == k;
        let p = inc[m];
        assert(inc.contains(p));
        assert forall|i: int| 0 <= i < ex.len() && entry_key(#[trigger] ex[i]) == k implies key_incoming(
            ex[i],
            inc,
        ) by {
            assert(same_key(ex[i], inc[m]));
        }
        match action_of(ex, p) {
            SyncAction::Insert => {
                assert(plan_inserts(ex, inc).contains(p));
            },
            SyncAction::Update(id) => {
                assert(plan_updates(ex, inc).contains((id, p)));
            },
            SyncAction::Unchanged => {},
        }
    } else {
        let i = choose|i: int| 0 <= i < ex.len() && entry_key(#[trigger] ex[i]) == k;
        assert(!key_incoming(ex[i], inc)) by {
            if key_incoming(ex[i], inc) {
                let m = choose|m: int| 0 <= m < inc.len() && same_key(ex[i], #[trigger] inc[m]);
                assert(key_of(inc[m]) == k);
            }
        }
        assert forall|p: Package| inc.contains(p) implies key_of(p) != k by {
            let m = choose|m: int| 0 <= m < inc.len() && inc[m] == p;
            assert(key_of(inc[m]) != k);
        }
    }
}

proof fn lemma_inserts_count(ex: Seq<SnapshotEntry>, inc: Seq<Package>, p: Package)
    ensures
        plan_inserts(ex, inc).to_multiset().count(p) == if action_of(ex, p) is Insert {
            inc.to_multiset().count(p)
        } else {
            0
        },
    decreases inc.len(),
{
    broadcast use group_to_multiset_ensures;
    broadcast use lemma_multiset_empty_len;

    if inc.len() > 0 {
        lemma_inserts_count(ex, inc.drop_last(), p);
        assert(inc =~= inc.drop_last().push(inc.last()));
    } else {
        assert(inc.to_multiset() =~= Multiset::empty());
        assert(plan_inserts(ex, inc).to_multiset() =~= Multiset::empty());
    }
}

proof fn lemma_updates_count(ex: Seq<SnapshotEntry>, inc: Seq<Package>, u: (i64, Package))
    ensures
        plan_updates(ex, inc).to_multiset().count(u) == if action_of(ex, u.1) == SyncAction::Update(
            u.0,
        ) {
            inc.to_multiset().count(u.1)
        } else {
            0
        },
    decreases inc.len(),
{
    broadcast use group_to_multiset_ensures;
    broadcast use lemma_multiset_empty_len;

    if inc.len() > 0 {
        lemma_updates_count(ex, inc.drop_last(), u);
        assert(inc =~= inc.drop_last().push(inc.last()));
    } else {
        assert(inc.to_multiset() =~= Multiset::empty());
        assert(plan_updates(ex, inc).to_multiset() =~= Multiset::empty());
    }
}

proof fn lemma_deletes_same_keys(ex: Seq<SnapshotEntry>, inc: Seq<Package>, inc2: Seq<Package>)
    requires
        forall|e: SnapshotEntry| key_incoming(e, inc) == key_incoming(e, inc2),
    ensures
        plan_deletes(ex, inc) == plan_deletes(ex, inc2),
    decreases ex.len(),
{
    if ex.len() > 0 {
        lemma_deletes_same_keys(ex.drop_last(), inc, inc2);
    }
}

/// The order of the incoming records does not matter: a reordering of them
/// gives the same inserts and updates, as multisets, and the same deletes.
pub proof fn lemma_sync_order_independent(
    ex: Seq<SnapshotEntry>,
    inc: Seq<Package>,
    inc2: Seq<Package>,
)
    requires
        inc.to_multiset() == inc2.to_multiset(),
    ensures
        plan_inserts(ex, inc).to_multiset() == plan_inserts(ex, inc2).to_multiset(),
        plan_updates(ex, inc).to_multiset() == plan_updates(ex, inc2).to_multiset(),
        plan_deletes(ex, inc) == plan_deletes(ex, inc2),
{
    broadcast use group_to_multiset_ensures;

    assert forall|p: Package| #[trigger] plan_inserts(ex, inc).to_multiset().count(p) == plan_inserts(
        ex,
        inc2,
    ).to_multiset().count(p) by {
        lemma_inserts_count(ex, inc, p);
        lemma_inserts_count(ex, inc2, p);
    }
    assert(plan_inserts(ex, inc).to_multiset() =~= plan_inserts(ex, inc2).to_multiset());
    assert forall|u: (i64, Package)| #[trigger] plan_updates(ex, inc).to_multiset().count(u)
        == plan_updates(ex, inc2).to_multiset().count(u) by {
        lemma_updates_count(ex, inc, u);
        lemma_updates_count(ex, inc2, u);
    }
    assert(plan_updates(ex, inc).to_multiset() =~= plan_updates(ex, inc2).to_multiset());
    assert forall|e: SnapshotEntry| key_incoming(e, inc) == key_incoming(e, inc2) by {
        if key_incoming(e, inc) {
            let m = choose|m: int| 0 <= m < inc.len() && same_key(e, #[trigger] inc[m]);
            assert(inc.contains(inc[m]));
            assert(inc2.to_multiset().count(inc[m]) > 0);
            let m2 = choose|m2: int| 0 <= m2 < inc2.len() && inc2[m2] == inc[m];
            assert(same_key(e, inc2[m2]));
        }
        if key_incoming(e, inc2) {
            let m = choose|m: int| 0 <= m < inc2.len() && same_key(e, #[trigger] inc2[m]);
            assert(inc2.contains(inc2[m]));
            assert(inc.to_multiset().count(inc2[m]) > 0);
            let m2 = choose|m2: int| 0 <= m2 < inc.len() && inc[m2] == inc2[m];
            assert(same_key(e, inc[m2]));
        }
    }
    lemma_deletes_same_keys(ex, inc, inc2);
}

impl SyncPlan {
    /// Numbers of packages added, updated and removed.
    pub fn counts(&self) -> (r: (usize, usize, usize))
        ensures
            r.0 == self.inserts@.len(),
            r.1 == self.updates@.len(),
            r.2 == self.deletes@.len(),
    {
        (self.inserts.len(), self.updates.len(), self.deletes.len())
    }
}

} // verus!
