//! Hybrid ranking: lexical and semantic scores fused into one ranked list.
//!
//! Scores are fixed-point integers. A collaborator score lies in
//! `0..=SCORE_SCALE`, where `SCORE_SCALE` stands for 1.0; a weight lies in
//! `0..=WEIGHT_SCALE`, where `WEIGHT_SCALE` stands for 1.0. A combined score
//! is a sum of score times weight, so `SCORE_SCALE * WEIGHT_SCALE` stands for
//! 1.0 there.
use vstd::prelude::*;
use vstd::seq_lib::seq_to_set_is_finite;
use vstd::set_lib::lemma_len_subset;

verus! {

/// A collaborator score of 1.0.
pub const SCORE_SCALE: u64 = 1000000;

/// A weight of 1.0.
pub const WEIGHT_SCALE: u64 = 100;

/// Weight of the lexical score: 0.45.
pub const STRUCTURED_WEIGHT: u64 = 45;

/// Weight of the semantic score: 0.55.
pub const SEMANTIC_WEIGHT: u64 = 55;

/// Lowest combined score that is kept: 0.15.
pub const MIN_SCORE_THRESHOLD: u64 = 15 * SCORE_SCALE;

/// Smallest number of semantic candidates asked for.
pub const MIN_SEMANTIC_CANDIDATES: usize = 30;

/// The fixed weights and threshold of a fusion.
#[derive(Debug, Clone, Copy, PartialEq, Eq, Structural)]
pub struct FusionWeights {
    pub structured: u64,
    pub semantic: u64,
    pub min_score: u64,
}

impl FusionWeights {
    /// Each weight is at most 1.0.
    pub open spec fn wf(&self) -> bool {
        self.structured <= WEIGHT_SCALE && self.semantic <= WEIGHT_SCALE
    }

    /// Weights 0.45 and 0.55, threshold 0.15.
    pub fn standard() -> (r: FusionWeights)
        ensures
            r.structured == STRUCTURED_WEIGHT,
            r.semantic == SEMANTIC_WEIGHT,
            r.min_score == MIN_SCORE_THRESHOLD,
            r.wf(),
    {
        FusionWeights {
            structured: STRUCTURED_WEIGHT,
            semantic: SEMANTIC_WEIGHT,
            min_score: MIN_SCORE_THRESHOLD,
        }
    }
}

/// Every score of a collaborator's list lies in `0..=SCORE_SCALE`.
pub open spec fn scores_valid(s: Seq<(i64, u64)>) -> bool {
    forall|i: int| 0 <= i < s.len() ==> (#[trigger] s[i]).1 <= SCORE_SCALE
}

/// No id occurs twice in a list.
pub open spec fn ids_unique(s: Seq<(i64, u64)>) -> bool {
    forall|i: int, j: int| 0 <= i < j < s.len() ==> (#[trigger] s[i]).0 != (#[trigger] s[j]).0
}

/// The score that a list gives an id (its first entry for it), 0 if none.
pub open spec fn score_in(s: Seq<(i64, u64)>, id: i64) -> u64
    decreases s.len(),
{
    if s.len() == 0 {
        0
    } else if s[0].0 == id {
        s[0].1
    } else {
        score_in(s.drop_first(), id)
    }
}

pub open spec fn has_id(s: Seq<(i64, u64)>, id: i64) -> bool {
    exists|i: int| 0 <= i < s.len() && (#[trigger] s[i]).0 == id
}

/// Lexical score times its weight plus semantic score times its weight.
pub open spec fn combine(lexical: u64, semantic: u64, w: FusionWeights) -> u64 {
    (lexical * w.structured + semantic * w.semantic) as u64
}

/// The ids of the lexical list, in its order, with their combined scores.
pub open spec fn lexical_fused(lex: Seq<(i64, u64)>, sem: Seq<(i64, u64)>, w: FusionWeights) -> Seq<(i64, u64)>
    decreases lex.len(),
{
    if lex.len() == 0 {
        Seq::empty()
    } else {
        let e = lex.last();
        lexical_fused(lex.drop_last(), sem, w).push((e.0, combine(e.1, score_in(sem, e.0), w)))
    }
}

/// The ids that only the semantic list has, in its order, with their
/// combined scores.
pub open spec fn semantic_only(lex: Seq<(i64, u64)>, sem: Seq<(i64, u64)>, w: FusionWeights) -> Seq<(i64, u64)>
    decreases sem.len(),
{
    if sem.len() == 0 {
        Seq::empty()
    } else {
        let e = sem.last();
        let rest = semantic_only(lex, sem.drop_last(), w);
        if has_id(lex, e.0) {
            rest
        } else {
            rest.push((e.0, combine(0, e.1, w)))
        }
    }
}

/// Every id of either list once, in order of first appearance, with its
/// combined score; a list that lacks an id adds nothing to it.
pub open spec fn fused(lex: Seq<(i64, u64)>, sem: Seq<(i64, u64)>, w: FusionWeights) -> Seq<(i64, u64)> {
    lexical_fused(lex, sem, w) + semantic_only(lex, sem, w)
}

/// The entries whose score reaches `t`, in order.
pub open spec fn at_least(s: Seq<(i64, u64)>, t: u64) -> Seq<(i64, u64)>
    decreases s.len(),
{
    if s.len() == 0 {
        Seq::empty()
    } else if s.last().1 >= t {
        at_least(s.drop_last(), t).push(s.last())
    } else {
        at_least(s.drop_last(), t)
    }
}

/// How many leading entries score at least `v`.
pub open spec fn ge_prefix(s: Seq<(i64, u64)>, v: u64) -> nat
    decreases s.len(),
{
    if s.len() == 0 || s[0].1 < v {
        0
    } else {
        1 + ge_prefix(s.drop_first(), v)
    }
}

pub proof fn lemma_ge_prefix_bound(s: Seq<(i64, u64)>, v: u64)
    ensures
        ge_prefix(s, v) <= s.len(),
    decreases s.len(),
{
    if s.len() > 0 && s[0].1 >= v {
        lemma_ge_prefix_bound(s.drop_first(), v);
    }
}

/// `x` placed after every entry of a descending list that scores at least
/// as much.
pub open spec fn insert_desc(s: Seq<(i64, u64)>, x: (i64, u64)) -> Seq<(i64, u64)> {
    s.insert(ge_prefix(s, x.1) as int, x)
}

/// Sorted by descending score; entries of equal score keep their order.
pub open spec fn sort_desc(s: Seq<(i64, u64)>) -> Seq<(i64, u64)>
    decreases s.len(),
{
    if s.len() == 0 {
        Seq::empty()
    } else {
        insert_desc(sort_desc(s.drop_last()), s.last())
    }
}

/// The fused ranking: the fused entries that reach the threshold, by
/// descending score (ties in order of first appearance), the first `top_k`.
pub open spec fn fused_ranking(
    lex: Seq<(i64, u64)>,
    sem: Seq<(i64, u64)>,
    top_k: nat,
    w: FusionWeights,
) -> Seq<(i64, u64)> {
    let sorted = sort_desc(at_least(fused(lex, sem, w), w.min_score));
    if sorted.len() > top_k {
        sorted.take(top_k as int)
    } else {
        sorted
    }
}

fn lookup_score(s: &Vec<(i64, u64)>, id: i64) -> (r: Option<u64>)
    ensures
        r is Some <==> has_id(s@, id),
        r is Some ==> r->0 == score_in(s@, id),
        r is None ==> score_in(s@, id) == 0,
{
    let mut i: usize = 0;
    assert(s@.skip(0) =~= s@);
    while i < s.len()
        invariant
            i <= s@.len(),
            score_in(s@, id) == score_in(s@.skip(i as int), id),
            forall|k: int| 0 <= k < i ==> (#[trigger] s@[k]).0 != id,
        decreases s@.len() - i,
    {
        assert(s@.skip(i as int).drop_first() =~= s@.skip(i + 1));
        if s[i].0 == id {
            return Some(s[i].1);
        }
        i = i + 1;
    }
    None
}

/// The core of a hybrid search: fuses the lexical and semantic scores,
/// drops what falls below the threshold, sorts by descending score (ties in
/// order of first appearance) and keeps the first `top_k`.
pub fn fuse_scores(
    lexical: &Vec<(i64, u64)>,
    semantic: &Vec<(i64, u64)>,
    top_k: usize,
    weights: FusionWeights,
) -> (r: Vec<(i64, u64)>)
    requires
        weights.wf(),
        scores_valid(lexical@),
        scores_valid(semantic@),
    ensures
        r@ == fused_ranking(lexical@, semantic@, top_k as nat, weights),
{
    let ghost lex = lexical@;
    let ghost sem = semantic@;
    let mut entries: Vec<(i64, u64)> = Vec::new();
    let mut i: usize = 0;
    while i < lexical.len()
        invariant
            i <= lex.len(),
            lex == lexical@,
            sem == semantic@,
            weights.wf(),
            scores_valid(lex),
            scores_valid(sem),
            entries@ == lexical_fused(lex.take(i as int), sem, weights),
        decreases lex.len() - i,
    {
        assert(lex.take(i + 1).drop_last() =~= lex.take(i as int));
        let (id, score) = lexical[i];
        let s = match lookup_score(semantic, id) {
            Some(v) => v,
            None => 0,
        };
        proof {
            if has_id(sem, id) {
                let k = choose|k: int| 0 <= k < sem.len() && (#[trigger] sem[k]).0 == id;
                lemma_score_in_valid(sem, id);
            } else {
                lemma_score_in_valid(sem, id);
            }
            assert(lex[i as int].1 <= SCORE_SCALE);
            assert(score * weights.structured <= SCORE_SCALE * WEIGHT_SCALE) by (nonlinear_arith)
                requires
                    score <= SCORE_SCALE,
                    weights.structured <= WEIGHT_SCALE,
            ;
            assert(s * weights.semantic <= SCORE_SCALE * WEIGHT_SCALE) by (nonlinear_arith)
                requires
                    s <= SCORE_SCALE,
                    weights.semantic <= WEIGHT_SCALE,
            ;
        }
        entries.push((id, score * weights.structured + s * weights.semantic));
        i = i + 1;
    }
    assert(lex.take(i as int) =~= lex);
    let ghost lex_part = entries@;
    let mut j: usize = 0;
    while j < semantic.len()
        invariant
            j <= sem.len(),
            lex == lexical@,
            sem == semantic@,
            weights.wf(),
            scores_valid(sem),
            entries@ == lex_part + semantic_only(lex, sem.take(j as int), weights),
        decreases sem.len() - j,
    {
        assert(sem.take(j + 1).drop_last() =~= sem.take(j as int));
        let (id, score) = semantic[j];
        match lookup_score(lexical, id) {
            Some(_) => {},
            None => {
                assert(sem[j as int].1 <= SCORE_SCALE);
                assert(score * weights.semantic <= SCORE_SCALE * WEIGHT_SCALE) by (nonlinear_arith)
                    requires
                        score <= SCORE_SCALE,
                        weights.semantic <= WEIGHT_SCALE,
                ;
                entries.push((id, score * weights.semantic));
            },
        }
        j = j + 1;
        assert(entries@ =~= lex_part + semantic_only(lex, sem.take(j as int), weights));
    }
    assert(sem.take(j as int) =~= sem);
    let ghost all = entries@;
    assert(all == fused(lex, sem, weights));
    let mut sorted: Vec<(i64, u64)> = Vec::new();
    let mut k: usize = 0;
    while k < entries.len()
        invariant
            k <= all.len(),
            entries@ == all,
            sorted@ == sort_desc(at_least(all.take(k as int), weights.min_score)),
        decreases all.len() - k,
    {
        assert(all.take(k + 1).drop_last() =~= all.take(k as int));
        let x = entries[k];
        if x.1 >= weights.min_score {
            let mut p: usize = 0;
            let ghost cur = sorted@;
            assert(cur.skip(0) =~= cur);
            while p < sorted.len() && sorted[p].1 >= x.1
                invariant
                    p <= cur.len(),
                    sorted@ == cur,
                    ge_prefix(cur, x.1) == p + ge_prefix(cur.skip(p as int), x.1),
                decreases cur.len() - p,
            {
                assert(cur.skip(p as int).drop_first() =~= cur.skip(p + 1));
                p = p + 1;
            }
            proof {
                if p < cur.len() {
                    assert(cur.skip(p as int)[0] == cur[p as int]);
                }
            }
            sorted.insert(p, x);
            proof {
                let t = at_least(all.take(k + 1), weights.min_score);
                assert(t == at_least(all.take(k as int), weights.min_score).push(x));
                assert(t.drop_last() =~= at_least(all.take(k as int), weights.min_score));
            }
        }
        k = k + 1;
    }
    assert(all.take(k as int) =~= all);
    sorted.truncate(top_k);
    sorted
}

/// Largest combined score that the weights allow.
pub open spec fn max_combined(w: FusionWeights) -> int {
    (w.structured + w.semantic) * SCORE_SCALE
}

pub open spec fn scores_within(s: Seq<(i64, u64)>, lo: int, hi: int) -> bool {
    forall|k: int| 0 <= k < s.len() ==> lo <= (#[trigger] s[k]).1 <= hi
}

proof fn lemma_combine_bound(a: u64, b: u64, w: FusionWeights)
    requires
        a <= SCORE_SCALE,
        b <= SCORE_SCALE,
        w.wf(),
    ensures
        combine(a, b, w) == a * w.structured + b * w.semantic,
        combine(a, b, w) <= max_combined(w),
{
    assert(a * w.structured <= SCORE_SCALE * w.structured) by (nonlinear_arith)
        requires
            a <= SCORE_SCALE,
    ;
    assert(b * w.semantic <= SCORE_SCALE * w.semantic) by (nonlinear_arith)
        requires
            b <= SCORE_SCALE,
    ;
    assert(SCORE_SCALE * w.structured <= SCORE_SCALE * WEIGHT_SCALE) by (nonlinear_arith)
        requires
            w.structured <= WEIGHT_SCALE,
    ;
    assert(SCORE_SCALE * w.semantic <= SCORE_SCALE * WEIGHT_SCALE) by (nonlinear_arith)
        requires
            w.semantic <= WEIGHT_SCALE,
    ;
    assert((w.structured + w.semantic) * SCORE_SCALE == SCORE_SCALE * w.structured + SCORE_SCALE
        * w.semantic) by (nonlinear_arith);
}

proof fn lemma_fused_bound(lex: Seq<(i64, u64)>, sem: Seq<(i64, u64)>, w: FusionWeights)
    requires
        w.wf(),
        scores_valid(lex),
        scores_valid(sem),
    ensures
        scores_within(fused(lex, sem, w), 0, max_combined(w)),
{
    lemma_lexical_fused_bound(lex, sem, w);
    lemma_semantic_only_bound(lex, sem, w);
}

proof fn lemma_lexical_fused_bound(lex: Seq<(i64, u64)>, sem: Seq<(i64, u64)>, w: FusionWeights)
    requires
        w.wf(),
        scores_valid(lex),
        scores_valid(sem),
    ensures
        scores_within(lexical_fused(lex, sem, w), 0, max_combined(w)),
    decreases lex.len(),
{
    if lex.len() > 0 {
        let d = lex.drop_last();
        assert(scores_valid(d)) by {
            assert forall|i: int| 0 <= i < d.len() implies (#[trigger] d[i]).1 <= SCORE_SCALE by {
                assert(d[i] == lex[i]);
            }
        }
        lemma_lexical_fused_bound(d, sem, w);
        let e = lex.last();
        assert(e == lex[lex.len() - 1]);
        lemma_score_in_valid(sem, e.0);
        lemma_combine_bound(e.1, score_in(sem, e.0), w);
    }
}

proof fn lemma_semantic_only_bound(lex: Seq<(i64, u64)>, sem: Seq<(i64, u64)>, w: FusionWeights)
    requires
        w.wf(),
        scores_valid(sem),
    ensures
        scores_within(semantic_only(lex, sem, w), 0, max_combined(w)),
    decreases sem.len(),
{
    if sem.len() > 0 {
        let d = sem.drop_last();
        assert(scores_valid(d)) by {
            assert forall|i: int| 0 <= i < d.len() implies (#[trigger] d[i]).1 <= SCORE_SCALE by {
                assert(d[i] == sem[i]);
            }
        }
        lemma_semantic_only_bound(lex, d, w);
        let e = sem.last();
        assert(e == sem[sem.len() - 1]);
        lemma_combine_bound(0, e.1, w);
    }
}

proof fn lemma_at_least_bound(s: Seq<(i64, u64)>, t: u64, hi: int)
    requires
        scores_within(s, 0, hi),
    ensures
        scores_within(at_least(s, t), t as int, hi),
        at_least(s, t).len() <= s.len(),
    decreases s.len(),
{
    if s.len() > 0 {
        let d = s.drop_last();
        assert(scores_within(d, 0, hi)) by {
            assert forall|k: int| 0 <= k < d.len() implies 0 <= (#[trigger] d[k]).1 <= hi by {
                assert(d[k] == s[k]);
            }
        }
        lemma_at_least_bound(d, t, hi);
        assert(s.last() == s[s.len() - 1]);
    }
}

proof fn lemma_sort_desc_bound(s: Seq<(i64, u64)>, lo: int, hi: int)
    requires
        scores_within(s, lo, hi),
    ensures
        scores_within(sort_desc(s), lo, hi),
        sort_desc(s).len() == s.len(),
    decreases s.len(),
{
    if s.len() > 0 {
        let d = s.drop_last();
        assert(scores_within(d, lo, hi)) by {
            assert forall|k: int| 0 <= k < d.len() implies lo <= (#[trigger] d[k]).1 <= hi by {
                assert(d[k] == s[k]);
            }
        }
        lemma_sort_desc_bound(d, lo, hi);
        let sd = sort_desc(d);
        let x = s.last();
        assert(x == s[s.len() - 1]);
        lemma_ge_prefix_bound(sd, x.1);
        let p = ge_prefix(sd, x.1) as int;
        let r = sd.insert(p, x);
        assert forall|k: int| 0 <= k < r.len() implies lo <= (#[trigger] r[k]).1 <= hi by {
            if k < p {
                assert(r[k] == sd[k]);
            } else if k > p {
                assert(r[k] == sd[k - 1]);
            }
        }
    }
}

/// Every score that the fused ranking holds lies between the threshold and
/// the sum of the two weights (1.0 for the standard weights).
pub proof fn lemma_fusion_score_bound(
    lex: Seq<(i64, u64)>,
    sem: Seq<(i64, u64)>,
    top_k: nat,
    w: FusionWeights,
)
    requires
        w.wf(),
        scores_valid(lex),
        scores_valid(sem),
    ensures
        forall|k: int|
            0 <= k < fused_ranking(lex, sem, top_k, w).len() ==> w.min_score <= (
            #[trigger] fused_ranking(lex, sem, top_k, w)[k]).1 <= max_combined(w),
{
    let f = fused(lex, sem, w);
    lemma_fused_bound(lex, sem, w);
    lemma_at_least_bound(f, w.min_score, max_combined(w));
    lemma_sort_desc_bound(at_least(f, w.min_score), w.min_score as int, max_combined(w));
}

/// The ids that a list holds.
pub open spec fn ids_of(s: Seq<(i64, u64)>) -> Set<i64> {
    s.map_values(|e: (i64, u64)| e.0).to_set()
}

proof fn lemma_lexical_fused_ids(lex: Seq<(i64, u64)>, sem: Seq<(i64, u64)>, w: FusionWeights)
    ensures
        lexical_fused(lex, sem, w).len() == lex.len(),
        forall|k: int| 0 <= k < lex.len() ==> (#[trigger] lexical_fused(lex, sem, w)[k]).0 == lex[k].0,
    decreases lex.len(),
{
    if lex.len() > 0 {
        lemma_lexical_fused_ids(lex.drop_last(), sem, w);
        let d = lex.drop_last();
        assert forall|k: int| 0 <= k < lex.len() implies (#[trigger] lexical_fused(lex, sem, w)[k]).0
            == lex[k].0 by {
            if k < lex.len() - 1 {
                assert(lexical_fused(lex, sem, w)[k] == lexical_fused(d, sem, w)[k]);
                assert(d[k] == lex[k]);
            }
        }
    }
}

proof fn lemma_semantic_only_ids(lex: Seq<(i64, u64)>, sem: Seq<(i64, u64)>, w: FusionWeights)
    ensures
        forall|k: int|
            0 <= k < semantic_only(lex, sem, w).len() ==> has_id(
                sem,
                (#[trigger] semantic_only(lex, sem, w)[k]).0,
            ) && !has_id(lex, semantic_only(lex, sem, w)[k].0),
        ids_unique(sem) ==> ids_unique(semantic_only(lex, sem, w)),
        semantic_only(lex, sem, w).len() <= sem.len(),
    decreases sem.len(),
{
    if sem.len() > 0 {
        let d = sem.drop_last();
        lemma_semantic_only_ids(lex, d, w);
        let rest = semantic_only(lex, d, w);
        let so = semantic_only(lex, sem, w);
        assert forall|k: int| 0 <= k < rest.len() implies has_id(sem, (#[trigger] rest[k]).0) by {
            let j = choose|j: int| 0 <= j < d.len() && (#[trigger] d[j]).0 == rest[k].0;
            assert(sem[j] == d[j]);
        }
        assert(sem.last() == sem[sem.len() - 1]);
        if ids_unique(sem) {
            assert(ids_unique(d)) by {
                assert forall|i: int, j: int| 0 <= i < j < d.len() implies (#[trigger] d[i]).0 != (
                #[trigger] d[j]).0 by {
                    assert(d[i] == sem[i] && d[j] == sem[j]);
                }
            }
            assert forall|k: int| 0 <= k < rest.len() implies (#[trigger] rest[k]).0 != sem.last().0 by {
                let j = choose|j: int| 0 <= j < d.len() && (#[trigger] d[j]).0 == rest[k].0;
                assert(sem[j] == d[j]);
            }
        }
    }
}

/// The fused ranking holds at most `top_k` entries, and no more than the
/// two lists hold distinct ids between them.
pub proof fn lemma_fusion_cap(lex: Seq<(i64, u64)>, sem: Seq<(i64, u64)>, top_k: nat, w: FusionWeights)
    requires
        ids_unique(lex),
        ids_unique(sem),
    ensures
        fused_ranking(lex, sem, top_k, w).len() <= top_k,
        fused_ranking(lex, sem, top_k, w).len() <= ids_of(lex).union(ids_of(sem)).len(),
{
    broadcast use seq_to_set_is_finite;

    let lf = lexical_fused(lex, sem, w);
    let so = semantic_only(lex, sem, w);
    let f = fused(lex, sem, w);
    lemma_lexical_fused_ids(lex, sem, w);
    lemma_semantic_only_ids(lex, sem, w);
    assert(scores_within(f, 0, u64::MAX as int));
    lemma_at_least_bound(f, w.min_score, u64::MAX as int);
    lemma_sort_desc_bound(at_least(f, w.min_score), w.min_score as int, u64::MAX as int);
    let ids = f.map_values(|e: (i64, u64)| e.0);
    let union = ids_of(lex).union(ids_of(sem));
    assert forall|i: int, j: int| 0 <= i < j < f.len() implies (#[trigger] f[i]).0 != (
    #[trigger] f[j]).0 by {
        if j < lf.len() {
            assert(f[i] == lf[i] && f[j] == lf[j]);
        } else if i >= lf.len() {
            assert(f[i] == so[i - lf.len()] && f[j] == so[j - lf.len()]);
        } else {
            assert(f[i] == lf[i] && f[j] == so[j - lf.len()]);
            assert(has_id(lex, lf[i].0));
        }
    }
    assert(ids.no_duplicates()) by {
        assert forall|i: int, j: int| 0 <= i < ids.len() && 0 <= j < ids.len() && i != j implies ids[i]
            != ids[j] by {
            if i < j {
                assert(f[i].0 != f[j].0);
            } else {
                assert(f[j].0 != f[i].0);
            }
        }
    }
    ids.unique_seq_to_set();
    assert forall|x: i64| ids.to_set().contains(x) implies union.contains(x) by {
        let k = choose|k: int| 0 <= k < ids.len() && ids[k] == x;
        if k < lf.len() {
            assert(f[k] == lf[k]);
            let lids = lex.map_values(|e: (i64, u64)| e.0);
            assert(lids[k] == x);
            assert(ids_of(lex).contains(x));
        } else {
            assert(f[k] == so[k - lf.len()]);
            let j = choose|j: int| 0 <= j < sem.len() && (#[trigger] sem[j]).0 == x;
            let sids = sem.map_values(|e: (i64, u64)| e.0);
            assert(sids[j] == x);
            assert(ids_of(sem).contains(x));
        }
    }
    lemma_len_subset(ids.to_set(), union);
}

/// The ranking is a function of the two lists, the size and the weights:
/// two runs on the same collaborator outputs give the same ordered list.
pub proof fn lemma_fusion_deterministic(
    lex: Seq<(i64, u64)>,
    sem: Seq<(i64, u64)>,
    top_k: nat,
    w: FusionWeights,
    r1: Seq<(i64, u64)>,
    r2: Seq<(i64, u64)>,
)
    requires
        r1 == fused_ranking(lex, sem, top_k, w),
        r2 == fused_ranking(lex, sem, top_k, w),
    ensures
        r1 == r2,
{
}

proof fn lemma_score_in_valid(s: Seq<(i64, u64)>, id: i64)
    requires
        scores_valid(s),
    ensures
        score_in(s, id) <= SCORE_SCALE,
    decreases s.len(),
{
    if s.len() > 0 && s[0].0 != id {
        assert(scores_valid(s.drop_first())) by {
            assert forall|i: int| 0 <= i < s.drop_first().len() implies (
            #[trigger] s.drop_first()[i]).1 <= SCORE_SCALE by {
                assert(s.drop_first()[i] == s[i + 1]);
            }
        }
        lemma_score_in_valid(s.drop_first(), id);
    }
}

} // verus!
