//! Reduction of a package list to the newest package of each name and arch.
use crate::package::Package;
use crate::text::{compare_text, lemma_lex_cmp, lex_cmp, flip};
use crate::version::lemma_version_total_order;
use core::cmp::Ordering;
use vstd::prelude::*;

verus! {

/// Order of package lines: by name, then by arch.
pub open spec fn line_cmp(p: Package, q: Package) -> Ordering {
    if lex_cmp(p.name@, q.name@) != Ordering::Equal {
        lex_cmp(p.name@, q.name@)
    } else {
        lex_cmp(p.arch@, q.arch@)
    }
}

/// Each package's line sorts strictly before the next one's.
pub open spec fn lines_sorted(r: Seq<Package>) -> bool {
    forall|i: int, j: int| 0 <= i < j < r.len() ==> line_cmp(#[trigger] r[i], #[trigger] r[j]) == Ordering::Less
}

/// How many leading packages of `r` have a line before that of `p`.
pub open spec fn line_position(r: Seq<Package>, p: Package) -> nat
    decreases r.len(),
{
    if r.len() == 0 || line_cmp(r[0], p) != Ordering::Less {
        0
    } else {
        1 + line_position(r.drop_first(), p)
    }
}

/// `p` taken into a list sorted by line: it replaces the package of its
/// line only if its version is greater, and takes the place of its line
/// where the list has none.
pub open spec fn keep_latest(r: Seq<Package>, p: Package) -> Seq<Package> {
    let pos = line_position(r, p) as int;
    if pos < r.len() && line_cmp(r[pos], p) == Ordering::Equal {
        if p.rpm_version().spec_cmp(&r[pos].rpm_version()) == Ordering::Greater {
            r.update(pos, p)
        } else {
            r
        }
    } else {
        r.insert(pos, p)
    }
}

/// The newest package of each name and arch, the first one seen among
/// equal versions, sorted by name and arch.
pub open spec fn latest_of(xs: Seq<Package>) -> Seq<Package>
    decreases xs.len(),
{
    if xs.len() == 0 {
        Seq::empty()
    } else {
        keep_latest(latest_of(xs.drop_last()), xs.last())
    }
}

proof fn lemma_line_cmp(p: Package, q: Package, s: Package)
    ensures
        line_cmp(p, q) == flip(line_cmp(q, p)),
        line_cmp(p, q) == Ordering::Equal <==> (p.name@ == q.name@ && p.arch@ == q.arch@),
        line_cmp(p, q) == Ordering::Less && line_cmp(q, s) == Ordering::Less ==> line_cmp(p, s)
            == Ordering::Less,
{
    lemma_lex_cmp(p.name@, q.name@, s.name@);
    lemma_lex_cmp(p.arch@, q.arch@, s.arch@);
    lemma_lex_cmp(q.name@, s.name@, s.name@);
    lemma_lex_cmp(q.arch@, s.arch@, s.arch@);
    lemma_lex_cmp(p.name@, s.name@, s.name@);
    lemma_lex_cmp(p.arch@, s.arch@, s.arch@);
}

proof fn lemma_line_position(r: Seq<Package>, p: Package)
    ensures
        line_position(r, p) <= r.len(),
        forall|k: int| 0 <= k < line_position(r, p) ==> line_cmp(#[trigger] r[k], p) == Ordering::Less,
        line_position(r, p) < r.len() ==> line_cmp(r[line_position(r, p) as int], p) != Ordering::Less,
    decreases r.len(),
{
    if r.len() > 0 && line_cmp(r[0], p) == Ordering::Less {
        lemma_line_position(r.drop_first(), p);
        assert forall|k: int| 0 <= k < line_position(r, p) implies line_cmp(#[trigger] r[k], p)
            == Ordering::Less by {
            if k > 0 {
                assert(r[k] == r.drop_first()[k - 1]);
            }
        }
    }
}

proof fn lemma_keep_latest_sorted(r: Seq<Package>, p: Package)
    requires
        lines_sorted(r),
    ensures
        lines_sorted(keep_latest(r, p)),
{
    lemma_line_position(r, p);
    let pos = line_position(r, p) as int;
    let out = keep_latest(r, p);
    if pos < r.len() && line_cmp(r[pos], p) == Ordering::Equal {
        assert forall|i: int, j: int| 0 <= i < j < out.len() implies line_cmp(
            #[trigger] out[i],
            #[trigger] out[j],
        ) == Ordering::Less by {
            lemma_line_cmp(r[pos], p, p);
            lemma_line_cmp(r[i], r[pos], p);
            lemma_line_cmp(p, r[j], r[j]);
            lemma_line_cmp(r[i], p, p);
            lemma_line_cmp(r[pos], r[j], r[j]);
            assert(r[i].name@ == out[i].name@ || i == pos);
        }
    } else {
        assert forall|i: int, j: int| 0 <= i < j < out.len() implies line_cmp(
            #[trigger] out[i],
            #[trigger] out[j],
        ) == Ordering::Less by {
            if i < pos && j == pos {
                assert(out[i] == r[i]);
            } else if i == pos {
                assert(out[j] == r[j - 1]);
                lemma_line_cmp(r[pos], p, p);
                lemma_line_cmp(p, r[pos], r[j - 1]);
            } else if i < pos && j < pos {
                assert(out[i] == r[i]);
                assert(out[j] == r[j]);
            } else if i < pos {
                assert(out[i] == r[i]);
                assert(out[j] == r[j - 1]);
            } else {
                assert(out[i] == r[i - 1]);
                assert(out[j] == r[j - 1]);
            }
        }
    }
}

/// The selection is sorted strictly by name and arch, so no line occurs
/// twice in it.
pub proof fn lemma_latest_sorted(xs: Seq<Package>)
    ensures
        lines_sorted(latest_of(xs)),
    decreases xs.len(),
{
    if xs.len() > 0 {
        lemma_latest_sorted(xs.drop_last());
        lemma_keep_latest_sorted(latest_of(xs.drop_last()), xs.last());
    }
}

proof fn lemma_latest_of_sorted_is_identity(r: Seq<Package>)
    requires
        lines_sorted(r),
    ensures
        latest_of(r) == r,
    decreases r.len(),
{
    if r.len() > 0 {
        let d = r.drop_last();
        let x = r.last();
        assert(lines_sorted(d)) by {
            assert forall|i: int, j: int| 0 <= i < j < d.len() implies line_cmp(
                #[trigger] d[i],
                #[trigger] d[j],
            ) == Ordering::Less by {
                assert(d[i] == r[i] && d[j] == r[j]);
            }
        }
        lemma_latest_of_sorted_is_identity(d);
        lemma_line_position(d, x);
        let pos = line_position(d, x) as int;
        if pos < d.len() {
            assert(line_cmp(r[pos], r[r.len() - 1]) == Ordering::Less);
        }
        assert(d.insert(d.len() as int, x) =~= r);
    }
}

/// Selecting the newest packages twice gives what selecting once gives.
pub proof fn lemma_latest_idempotent(xs: Seq<Package>)
    ensures
        latest_of(latest_of(xs)) == latest_of(xs),
{
    lemma_latest_sorted(xs);
    lemma_latest_of_sorted_is_identity(latest_of(xs));
}

/// `q` is of the line of `p` and at least as new.
pub open spec fn covers(q: Package, p: Package) -> bool {
    &&& line_cmp(q, p) == Ordering::Equal
    &&& p.rpm_version().spec_cmp(&q.rpm_version()) != Ordering::Greater
}

/// Some package of `r` covers `p`.
pub open spec fn covered(r: Seq<Package>, p: Package) -> bool {
    exists|k: int| 0 <= k < r.len() && covers(#[trigger] r[k], p)
}

proof fn lemma_keep_latest_members(l: Seq<Package>, p: Package)
    ensures
        forall|k: int|
            0 <= k < keep_latest(l, p).len() ==> #[trigger] keep_latest(l, p)[k] == p || l.contains(
                keep_latest(l, p)[k],
            ),
{
    lemma_line_position(l, p);
    let pos = line_position(l, p) as int;
    let out = keep_latest(l, p);
    assert forall|k: int| 0 <= k < out.len() implies #[trigger] out[k] == p || l.contains(out[k]) by {
        if out[k] != p {
            if pos < l.len() && line_cmp(l[pos], p) == Ordering::Equal {
                assert(out[k] == l[k]);
            } else if k < pos {
                assert(out[k] == l[k]);
            } else {
                assert(out[k] == l[k - 1]);
            }
        }
    }
}

proof fn lemma_keep_latest_covers_new(l: Seq<Package>, p: Package)
    ensures
        covered(keep_latest(l, p), p),
{
    lemma_line_position(l, p);
    let pos = line_position(l, p) as int;
    let out = keep_latest(l, p);
    lemma_line_cmp(p, p, p);
    lemma_version_total_order(p.rpm_version(), p.rpm_version(), p.rpm_version());
    if pos < l.len() && line_cmp(l[pos], p) == Ordering::Equal {
        if p.rpm_version().spec_cmp(&l[pos].rpm_version()) != Ordering::Greater {
            assert(out[pos] == l[pos]);
        }
    }
    assert(covers(out[pos], p));
}

proof fn lemma_keep_latest_covers_old(l: Seq<Package>, p: Package, q: Package)
    requires
        covered(l, q),
    ensures
        covered(keep_latest(l, p), q),
{
    lemma_line_position(l, p);
    let pos = line_position(l, p) as int;
    let out = keep_latest(l, p);
    let k = choose|k: int| 0 <= k < l.len() && covers(#[trigger] l[k], q);
    let found = pos < l.len() && line_cmp(l[pos], p) == Ordering::Equal;
    let newer = found && p.rpm_version().spec_cmp(&l[pos].rpm_version()) == Ordering::Greater;
    if newer && k == pos {
        lemma_version_total_order(q.rpm_version(), l[pos].rpm_version(), p.rpm_version());
        lemma_version_total_order(p.rpm_version(), l[pos].rpm_version(), q.rpm_version());
        lemma_line_cmp(l[pos], p, q);
        lemma_line_cmp(l[pos], q, p);
        lemma_line_cmp(p, q, q);
        assert(out[pos] == p);
        assert(covers(out[pos], q));
    } else if found {
        assert(out[k] == l[k]);
        assert(covers(out[k], q));
    } else if k < pos {
        assert(out[k] == l[k]);
        assert(covers(out[k], q));
    } else {
        assert(out[k + 1] == l[k]);
        assert(covers(out[k + 1], q));
    }
}

proof fn lemma_latest_members(xs: Seq<Package>)
    ensures
        forall|k: int| 0 <= k < latest_of(xs).len() ==> xs.contains(#[trigger] latest_of(xs)[k]),
    decreases xs.len(),
{
    if xs.len() > 0 {
        let d = xs.drop_last();
        let p = xs.last();
        let l = latest_of(d);
        let out = keep_latest(l, p);
        assert(latest_of(xs) == out);
        lemma_latest_members(d);
        lemma_keep_latest_members(l, p);
        assert forall|k: int| 0 <= k < out.len() implies xs.contains(#[trigger] out[k]) by {
            if out[k] != p {
                let i = choose|i: int| 0 <= i < l.len() && l[i] == out[k];
                assert(d.contains(l[i]));
                let j = choose|j: int| 0 <= j < d.len() && d[j] == l[i];
                assert(xs[j] == d[j]);
            } else {
                assert(xs[xs.len() - 1] == p);
            }
        }
    }
}

proof fn lemma_latest_covers(xs: Seq<Package>)
    ensures
        forall|m: int| 0 <= m < xs.len() ==> covered(latest_of(xs), #[trigger] xs[m]),
    decreases xs.len(),
{
    if xs.len() > 0 {
        let d = xs.drop_last();
        let p = xs.last();
        let l = latest_of(d);
        let out = keep_latest(l, p);
        assert(latest_of(xs) == out);
        lemma_latest_covers(d);
        assert forall|m: int| 0 <= m < xs.len() implies covered(out, #[trigger] xs[m]) by {
            if m == xs.len() - 1 {
                lemma_keep_latest_covers_new(l, p);
            } else {
                assert(xs[m] == d[m]);
                lemma_keep_latest_covers_old(l, p, d[m]);
            }
        }
    }
}

/// Every package that the selection keeps comes from the input, and every
/// input package has a kept package of its name and arch that is at least
/// as new.
pub proof fn lemma_latest_keeps_newest(xs: Seq<Package>)
    ensures
        forall|k: int| 0 <= k < latest_of(xs).len() ==> xs.contains(#[trigger] latest_of(xs)[k]),
        forall|m: int| 0 <= m < xs.len() ==> covered(latest_of(xs), #[trigger] xs[m]),
{
    lemma_latest_members(xs);
    lemma_latest_covers(xs);
}

fn line_order(a: &Package, b: &Package) -> (r: Ordering)
    ensures
        r == line_cmp(*a, *b),
{
    let n = compare_text(a.name.as_str(), b.name.as_str());
    match n {
        Ordering::Equal => compare_text(a.arch.as_str(), b.arch.as_str()),
        _ => n,
    }
}

fn line_before(a: &Package, b: &Package) -> (r: bool)
    ensures
        r == (line_cmp(*a, *b) == Ordering::Less),
{
    match line_order(a, b) {
        Ordering::Less => true,
        _ => false,
    }
}

/// Keeps the newest package of each name and arch (the first one seen
/// among equal versions) and returns them sorted by name, then arch.
pub fn filter_latest(packages: Vec<Package>) -> (r: Vec<Package>)
    ensures
        r@ == latest_of(packages@),
{
    let ghost xs = packages@;
    let n = packages.len();
    let mut rest = packages;
    let mut out: Vec<Package> = Vec::new();
    let mut i: usize = 0;
    assert(xs.skip(0) =~= xs);
    while rest.len() > 0
        invariant
            n == xs.len(),
            i + rest@.len() == n,
            rest@ == xs.skip(i as int),
            out@ == latest_of(xs.take(i as int)),
        decreases rest@.len(),
    {
        let p = rest.remove(0);
        assert(p == xs[i as int]);
        assert(xs.take(i + 1).drop_last() =~= xs.take(i as int));
        assert(xs.take(i + 1).last() == p);
        let ghost cur = out@;
        proof {
            lemma_line_position(cur, p);
        }
        let mut pos: usize = 0;
        assert(cur.skip(0) =~= cur);
        while pos < out.len() && line_before(&out[pos], &p)
            invariant
                out@ == cur,
                pos <= cur.len(),
                line_position(cur, p) == pos + line_position(cur.skip(pos as int), p),
            decreases cur.len() - pos,
        {
            assert(cur.skip(pos as int).drop_first() =~= cur.skip(pos + 1));
            pos = pos + 1;
        }
        proof {
            if pos < cur.len() {
                assert(cur.skip(pos as int)[0] == cur[pos as int]);
            }
        }
        let same = pos < out.len() && match line_order(&out[pos], &p) {
            Ordering::Equal => true,
            _ => false,
        };
        if same {
            let newer = match p.to_rpm_version().cmp(&out[pos].to_rpm_version()) {
                Ordering::Greater => true,
                _ => false,
            };
            if newer {
                let _old = out.remove(pos);
                out.insert(pos, p);
                assert(out@ =~= cur.update(pos as int, p));
            }
        } else {
            out.insert(pos, p);
        }
        i = i + 1;
        assert(rest@ =~= xs.skip(i as int));
    }
    assert(xs.take(i as int) =~= xs);
    out
}

} // verus!
