//! Ordering of RPM `epoch:version-release` identifiers.
//!
//! A version or release string is read as a list of segments: a tilde, a
//! maximal run of ASCII digits, or a maximal run of other alphanumeric
//! characters. Everything else separates segments and is ignored. Two strings
//! are ordered by comparing their segment lists position by position, where a
//! tilde sorts before everything (even the end of the string), the end of the
//! string sorts before any other segment, and a numeric segment sorts after an
//! alphabetic one.
use core::cmp::Ordering;
use vstd::prelude::*;
use crate::text::{char_vec, compare_runs, flip, lemma_lex_cmp, lex_cmp};

verus! {

/// Whether a character has the Unicode `Alphabetic` or `Numeric` property.
pub uninterp spec fn alphanumeric(c: char) -> bool;

/// Relies on `char::is_alphanumeric`, which reports whether `c` is
/// alphabetic or numeric in the Unicode sense.
#[verifier::external_body]
fn is_alphanumeric_char(c: char) -> (r: bool)
    ensures
        r == alphanumeric(c),
{
    c.is_alphanumeric()
}

pub open spec fn is_digit(c: char) -> bool {
    '0' <= c && c <= '9'
}

/// A character that belongs to an alphabetic segment.
pub open spec fn is_letter(c: char) -> bool {
    !is_digit(c) && alphanumeric(c)
}

/// A character that only separates segments.
pub open spec fn is_separator(c: char) -> bool {
    c != '~' && !is_digit(c) && !alphanumeric(c)
}

/// One segment of a version string. A numeric segment holds its digits
/// without leading zeros, so that equal numbers give equal segments.
pub enum Segment {
    Tilde,
    Alpha(Seq<char>),
    Num(Seq<char>),
}

pub open spec fn digit_run(s: Seq<char>) -> nat
    decreases s.len(),
{
    if s.len() > 0 && is_digit(s[0]) {
        1 + digit_run(s.drop_first())
    } else {
        0
    }
}

pub open spec fn letter_run(s: Seq<char>) -> nat
    decreases s.len(),
{
    if s.len() > 0 && is_letter(s[0]) {
        1 + letter_run(s.drop_first())
    } else {
        0
    }
}

pub open spec fn strip_zeros(s: Seq<char>) -> Seq<char>
    decreases s.len(),
{
    if s.len() > 0 && s[0] == '0' {
        strip_zeros(s.drop_first())
    } else {
        s
    }
}

pub proof fn lemma_digit_run_bound(s: Seq<char>)
    ensures
        digit_run(s) <= s.len(),
    decreases s.len(),
{
    if s.len() > 0 && is_digit(s[0]) {
        lemma_digit_run_bound(s.drop_first());
    }
}

pub proof fn lemma_letter_run_bound(s: Seq<char>)
    ensures
        letter_run(s) <= s.len(),
    decreases s.len(),
{
    if s.len() > 0 && is_letter(s[0]) {
        lemma_letter_run_bound(s.drop_first());
    }
}

/// The segments of a string, in order.
pub open spec fn segments(s: Seq<char>) -> Seq<Segment>
    decreases s.len(),
{
    if s.len() == 0 {
        Seq::empty()
    } else if s[0] == '~' {
        seq![Segment::Tilde] + segments(s.drop_first())
    } else if is_digit(s[0]) {
        let n = digit_run(s);
        proof {
            lemma_digit_run_bound(s);
        }
        seq![Segment::Num(strip_zeros(s.take(n as int)))] + segments(s.skip(n as int))
    } else if alphanumeric(s[0]) {
        let n = letter_run(s);
        proof {
            lemma_letter_run_bound(s);
        }
        seq![Segment::Alpha(s.take(n as int))] + segments(s.skip(n as int))
    } else {
        segments(s.drop_first())
    }
}

/// Order of two digit strings without leading zeros: the order of the
/// numbers they write, however many digits they have.
pub open spec fn num_cmp(a: Seq<char>, b: Seq<char>) -> Ordering {
    if a.len() < b.len() {
        Ordering::Less
    } else if a.len() > b.len() {
        Ordering::Greater
    } else {
        lex_cmp(a, b)
    }
}

pub open spec fn segment_cmp(x: Segment, y: Segment) -> Ordering {
    match (x, y) {
        (Segment::Tilde, Segment::Tilde) => Ordering::Equal,
        (Segment::Tilde, _) => Ordering::Less,
        (_, Segment::Tilde) => Ordering::Greater,
        (Segment::Alpha(p), Segment::Alpha(q)) => lex_cmp(p, q),
        (Segment::Alpha(_), Segment::Num(_)) => Ordering::Less,
        (Segment::Num(_), Segment::Alpha(_)) => Ordering::Greater,
        (Segment::Num(p), Segment::Num(q)) => num_cmp(p, q),
    }
}

/// Order of segment lists; the end of a list sorts after a tilde and
/// before any other segment.
pub open spec fn segments_cmp(a: Seq<Segment>, b: Seq<Segment>) -> Ordering
    decreases a.len(),
{
    if a.len() == 0 {
        if b.len() == 0 {
            Ordering::Equal
        } else if b[0] is Tilde {
            Ordering::Greater
        } else {
            Ordering::Less
        }
    } else if b.len() == 0 {
        if a[0] is Tilde {
            Ordering::Less
        } else {
            Ordering::Greater
        }
    } else if segment_cmp(a[0], b[0]) == Ordering::Equal {
        segments_cmp(a.drop_first(), b.drop_first())
    } else {
        segment_cmp(a[0], b[0])
    }
}

/// Segment comparison of two version or release strings.
pub open spec fn compare_strings(a: Seq<char>, b: Seq<char>) -> Ordering {
    segments_cmp(segments(a), segments(b))
}

proof fn lemma_segment_cmp(x: Segment, y: Segment, z: Segment)
    ensures
        segment_cmp(x, y) == flip(segment_cmp(y, x)),
        segment_cmp(x, y) == Ordering::Equal <==> x == y,
        segment_cmp(x, y) == Ordering::Less && segment_cmp(y, z) == Ordering::Less
            ==> segment_cmp(x, z) == Ordering::Less,
{
    match (x, y, z) {
        (Segment::Alpha(p), Segment::Alpha(q), Segment::Alpha(r)) => lemma_lex_cmp(p, q, r),
        (Segment::Num(p), Segment::Num(q), Segment::Num(r)) => lemma_lex_cmp(p, q, r),
        (Segment::Alpha(p), Segment::Alpha(q), _) => lemma_lex_cmp(p, q, q),
        (Segment::Num(p), Segment::Num(q), _) => lemma_lex_cmp(p, q, q),
        _ => {},
    }
}

proof fn lemma_segments_cmp(a: Seq<Segment>, b: Seq<Segment>, c: Seq<Segment>)
    ensures
        segments_cmp(a, b) == flip(segments_cmp(b, a)),
        segments_cmp(a, b) == Ordering::Equal <==> a == b,
        segments_cmp(a, b) == Ordering::Less && segments_cmp(b, c) == Ordering::Less
            ==> segments_cmp(a, c) == Ordering::Less,
    decreases a.len(),
{
    if a.len() > 0 && b.len() > 0 {
        if c.len() > 0 {
            lemma_segment_cmp(a[0], b[0], c[0]);
            lemma_segment_cmp(b[0], c[0], c[0]);
            lemma_segment_cmp(a[0], c[0], c[0]);
            lemma_segments_cmp(a.drop_first(), b.drop_first(), c.drop_first());
        } else {
            lemma_segment_cmp(a[0], b[0], b[0]);
            lemma_segments_cmp(a.drop_first(), b.drop_first(), c);
        }
        if a.drop_first() == b.drop_first() && a[0] == b[0] {
            assert(a =~= seq![a[0]] + a.drop_first());
            assert(b =~= seq![b[0]] + b.drop_first());
        }
    } else if a.len() == 0 && b.len() == 0 {
        assert(a =~= b);
    } else if a.len() == 0 && c.len() > 0 {
        lemma_segment_cmp(b[0], c[0], c[0]);
    } else if a.len() > 0 && c.len() > 0 {
        lemma_segment_cmp(a[0], c[0], c[0]);
    }
}

/// Rebuilding a sequence from its first element and the rest.
proof fn lemma_skip_unfold(s: Seq<char>, i: int)
    requires
        0 <= i < s.len(),
    ensures
        s.skip(i)[0] == s[i],
        s.skip(i).drop_first() =~= s.skip(i + 1),
{
}

proof fn lemma_digit_run_at(s: Seq<char>, i: int, e: int)
    requires
        0 <= i <= e <= s.len(),
        forall|k: int| i <= k < e ==> is_digit(#[trigger] s[k]),
        e == s.len() || !is_digit(s[e]),
    ensures
        digit_run(s.skip(i)) == e - i,
    decreases e - i,
{
    if i < e {
        lemma_skip_unfold(s, i);
        lemma_digit_run_at(s, i + 1, e);
    }
}

proof fn lemma_letter_run_at(s: Seq<char>, i: int, e: int)
    requires
        0 <= i <= e <= s.len(),
        forall|k: int| i <= k < e ==> is_letter(#[trigger] s[k]),
        e == s.len() || !is_letter(s[e]),
    ensures
        letter_run(s.skip(i)) == e - i,
    decreases e - i,
{
    if i < e {
        lemma_skip_unfold(s, i);
        lemma_letter_run_at(s, i + 1, e);
    }
}

fn is_digit_char(c: char) -> (r: bool)
    ensures
        r == is_digit(c),
{
    '0' <= c && c <= '9'
}

/// Moves past separators from `i`; the segments that remain are the same.
fn skip_separators(v: &Vec<char>, i: usize) -> (r: usize)
    requires
        i <= v@.len(),
    ensures
        i <= r <= v@.len(),
        segments(v@.skip(r as int)) == segments(v@.skip(i as int)),
        r < v@.len() ==> !is_separator(v@[r as int]),
{
    let mut k = i;
    while k < v.len()
        invariant
            i <= k <= v@.len(),
            segments(v@.skip(k as int)) == segments(v@.skip(i as int)),
        decreases v@.len() - k,
    {
        let c = v[k];
        if c == '~' || is_digit_char(c) || is_alphanumeric_char(c) {
            return k;
        }
        proof {
            lemma_skip_unfold(v@, k as int);
        }
        k = k + 1;
    }
    k
}

/// The end of the run of ASCII digits that starts at `i`.
fn digit_run_end(v: &Vec<char>, i: usize) -> (e: usize)
    requires
        i <= v@.len(),
    ensures
        i <= e <= v@.len(),
        digit_run(v@.skip(i as int)) == e - i,
        forall|k: int| i <= k < e ==> is_digit(#[trigger] v@[k]),
{
    let mut e = i;
    while e < v.len() && is_digit_char(v[e])
        invariant
            i <= e <= v@.len(),
            forall|k: int| i <= k < e ==> is_digit(#[trigger] v@[k]),
        decreases v@.len() - e,
    {
        e = e + 1;
    }
    proof {
        lemma_digit_run_at(v@, i as int, e as int);
    }
    e
}

/// The end of the run of letters that starts at `i`.
fn letter_run_end(v: &Vec<char>, i: usize) -> (e: usize)
    requires
        i <= v@.len(),
    ensures
        i <= e <= v@.len(),
        letter_run(v@.skip(i as int)) == e - i,
{
    let mut e = i;
    while e < v.len() && !is_digit_char(v[e]) && is_alphanumeric_char(v[e])
        invariant
            i <= e <= v@.len(),
            forall|k: int| i <= k < e ==> is_letter(#[trigger] v@[k]),
        decreases v@.len() - e,
    {
        e = e + 1;
    }
    proof {
        lemma_letter_run_at(v@, i as int, e as int);
    }
    e
}

/// The first position in `lo..hi` that is not a leading zero.
fn skip_zeros(v: &Vec<char>, lo: usize, hi: usize) -> (r: usize)
    requires
        lo <= hi <= v@.len(),
    ensures
        lo <= r <= hi,
        strip_zeros(v@.subrange(lo as int, hi as int)) == v@.subrange(r as int, hi as int),
{
    let mut k = lo;
    while k < hi && v[k] == '0'
        invariant
            lo <= k <= hi <= v@.len(),
            strip_zeros(v@.subrange(lo as int, hi as int)) == strip_zeros(
                v@.subrange(k as int, hi as int),
            ),
        decreases hi - k,
    {
        assert(v@.subrange(k as int, hi as int).drop_first() =~= v@.subrange(
            k as int + 1,
            hi as int,
        ));
        k = k + 1;
    }
    k
}

/// Numeric comparison of the digit runs `v[lo..hi]` and `w[lo2..hi2]`.
fn compare_numeric(v: &Vec<char>, lo: usize, hi: usize, w: &Vec<char>, lo2: usize, hi2: usize) -> (r:
    Ordering)
    requires
        lo <= hi <= v@.len(),
        lo2 <= hi2 <= w@.len(),
    ensures
        r == num_cmp(
            strip_zeros(v@.subrange(lo as int, hi as int)),
            strip_zeros(w@.subrange(lo2 as int, hi2 as int)),
        ),
{
    let p = skip_zeros(v, lo, hi);
    let q = skip_zeros(w, lo2, hi2);
    if hi - p < hi2 - q {
        Ordering::Less
    } else if hi - p > hi2 - q {
        Ordering::Greater
    } else {
        compare_runs(v, p, hi, w, q, hi2)
    }
}

proof fn lemma_tilde_step(s: Seq<char>, i: int)
    requires
        0 <= i < s.len(),
        s[i] == '~',
    ensures
        segments(s.skip(i)) == seq![Segment::Tilde] + segments(s.skip(i + 1)),
{
    lemma_skip_unfold(s, i);
}

proof fn lemma_digit_step(s: Seq<char>, i: int, e: int)
    requires
        0 <= i < e <= s.len(),
        is_digit(s[i]),
        digit_run(s.skip(i)) == e - i,
    ensures
        segments(s.skip(i)) == seq![Segment::Num(strip_zeros(s.subrange(i, e)))] + segments(
            s.skip(e),
        ),
{
    let t = s.skip(i);
    lemma_skip_unfold(s, i);
    assert(t.take(e - i) =~= s.subrange(i, e));
    assert(t.skip(e - i) =~= s.skip(e));
}

proof fn lemma_letter_step(s: Seq<char>, i: int, e: int)
    requires
        0 <= i < e <= s.len(),
        !is_digit(s[i]),
        s[i] != '~',
        alphanumeric(s[i]),
        letter_run(s.skip(i)) == e - i,
    ensures
        segments(s.skip(i)) == seq![Segment::Alpha(s.subrange(i, e))] + segments(s.skip(e)),
{
    let t = s.skip(i);
    lemma_skip_unfold(s, i);
    assert(t.take(e - i) =~= s.subrange(i, e));
    assert(t.skip(e - i) =~= s.skip(e));
}

proof fn lemma_cons_cmp(x: Segment, y: Segment, a: Seq<Segment>, b: Seq<Segment>)
    ensures
        segments_cmp(seq![x] + a, seq![y] + b) == if segment_cmp(x, y) == Ordering::Equal {
            segments_cmp(a, b)
        } else {
            segment_cmp(x, y)
        },
{
    assert((seq![x] + a).drop_first() =~= a);
    assert((seq![y] + b).drop_first() =~= b);
}

pub open spec fn all_digits(s: Seq<char>) -> bool {
    forall|i: int| 0 <= i < s.len() ==> is_digit(#[trigger] s[i])
}

pub open spec fn pow10(n: nat) -> nat
    decreases n,
{
    if n == 0 {
        1
    } else {
        10 * pow10((n - 1) as nat)
    }
}

pub open spec fn digit_value(c: char) -> int {
    (c as u32) as int - ('0' as u32) as int
}

/// The number that a string of decimal digits writes.
pub open spec fn digits_value(s: Seq<char>) -> int
    decreases s.len(),
{
    if s.len() == 0 {
        0
    } else {
        digit_value(s[0]) * pow10((s.len() - 1) as nat) + digits_value(s.drop_first())
    }
}

pub open spec fn int_cmp(x: int, y: int) -> Ordering {
    if x < y {
        Ordering::Less
    } else if x > y {
        Ordering::Greater
    } else {
        Ordering::Equal
    }
}

proof fn lemma_pow10_monotone(m: nat, n: nat)
    requires
        m <= n,
    ensures
        1 <= pow10(m) <= pow10(n),
    decreases n,
{
    if n > 0 && m < n {
        lemma_pow10_monotone(m, (n - 1) as nat);
    } else if n > 0 {
        lemma_pow10_monotone((n - 1) as nat, (n - 1) as nat);
    }
}

proof fn lemma_digits_drop_first(s: Seq<char>)
    requires
        all_digits(s),
        s.len() > 0,
    ensures
        all_digits(s.drop_first()),
        0 <= digit_value(s[0]) <= 9,
{
    assert forall|i: int| 0 <= i < s.drop_first().len() implies is_digit(#[trigger] s.drop_first()[i]) by {
        assert(s.drop_first()[i] == s[i + 1]);
    }
    assert(is_digit(s[0]));
}

proof fn lemma_digits_value_bound(s: Seq<char>)
    requires
        all_digits(s),
    ensures
        0 <= digits_value(s) < pow10(s.len()),
    decreases s.len(),
{
    if s.len() > 0 {
        let r = s.drop_first();
        lemma_digits_drop_first(s);
        lemma_digits_value_bound(r);
        let p = pow10(r.len());
        let d = digit_value(s[0]);
        assert(s.len() - 1 == r.len());
        assert(0 <= d * p + digits_value(r) < 10 * p) by (nonlinear_arith)
            requires
                0 <= d <= 9,
                0 <= digits_value(r) < p,
        ;
    }
}

proof fn lemma_digits_value_lower(s: Seq<char>)
    requires
        all_digits(s),
        s.len() > 0,
        s[0] != '0',
    ensures
        digits_value(s) >= pow10((s.len() - 1) as nat),
{
    let r = s.drop_first();
    lemma_digits_drop_first(s);
    lemma_digits_value_bound(r);
    let p = pow10((s.len() - 1) as nat);
    let d = digit_value(s[0]);
    assert(d >= 1);
    assert(d * p >= p) by (nonlinear_arith)
        requires
            d >= 1,
            p >= 0,
    ;
}

proof fn lemma_strip_zeros_value(s: Seq<char>)
    requires
        all_digits(s),
    ensures
        all_digits(strip_zeros(s)),
        digits_value(strip_zeros(s)) == digits_value(s),
        strip_zeros(s).len() == 0 || strip_zeros(s)[0] != '0',
    decreases s.len(),
{
    if s.len() > 0 && s[0] == '0' {
        lemma_digits_drop_first(s);
        lemma_strip_zeros_value(s.drop_first());
        assert(digit_value(s[0]) == 0);
    }
}

proof fn lemma_equal_length_order(a: Seq<char>, b: Seq<char>)
    requires
        all_digits(a),
        all_digits(b),
        a.len() == b.len(),
    ensures
        lex_cmp(a, b) == int_cmp(digits_value(a), digits_value(b)),
    decreases a.len(),
{
    if a.len() > 0 {
        let (ra, rb) = (a.drop_first(), b.drop_first());
        lemma_digits_drop_first(a);
        lemma_digits_drop_first(b);
        lemma_digits_value_bound(ra);
        lemma_digits_value_bound(rb);
        lemma_equal_length_order(ra, rb);
        let p = pow10(ra.len());
        let (da, db) = (digit_value(a[0]), digit_value(b[0]));
        let (va, vb) = (digits_value(ra), digits_value(rb));
        assert(a.len() - 1 == ra.len());
        if a[0] < b[0] {
            assert(da < db);
            assert(da * p + va < db * p + vb) by (nonlinear_arith)
                requires
                    da < db,
                    0 <= va < p,
                    0 <= vb,
            ;
        } else if a[0] > b[0] {
            assert(da > db);
            assert(da * p + va > db * p + vb) by (nonlinear_arith)
                requires
                    da > db,
                    0 <= vb < p,
                    0 <= va,
            ;
        } else {
            assert(da == db);
        }
    }
}

/// Numeric segments compare as the numbers they write, however many digits
/// they have and with leading zeros ignored.
pub proof fn lemma_numeric_segments_by_value(a: Seq<char>, b: Seq<char>)
    requires
        all_digits(a),
        all_digits(b),
    ensures
        num_cmp(strip_zeros(a), strip_zeros(b)) == int_cmp(digits_value(a), digits_value(b)),
{
    let (x, y) = (strip_zeros(a), strip_zeros(b));
    lemma_strip_zeros_value(a);
    lemma_strip_zeros_value(b);
    lemma_digits_value_bound(x);
    lemma_digits_value_bound(y);
    if x.len() < y.len() {
        lemma_digits_value_lower(y);
        lemma_pow10_monotone(x.len(), (y.len() - 1) as nat);
    } else if x.len() > y.len() {
        lemma_digits_value_lower(x);
        lemma_pow10_monotone(y.len(), (x.len() - 1) as nat);
    } else {
        lemma_equal_length_order(x, y);
    }
}

/// A parsed RPM version: epoch, version string and release string.
#[derive(Debug, Clone)]
pub struct RpmVersion {
    pub epoch: i64,
    pub version: String,
    pub release: String,
}

impl RpmVersion {
    /// The order of two versions: epoch first, then version, then release.
    pub open spec fn spec_cmp(&self, other: &RpmVersion) -> Ordering {
        if self.epoch < other.epoch {
            Ordering::Less
        } else if self.epoch > other.epoch {
            Ordering::Greater
        } else if compare_strings(self.version@, other.version@) != Ordering::Equal {
            compare_strings(self.version@, other.version@)
        } else {
            compare_strings(self.release@, other.release@)
        }
    }

    /// A missing epoch is epoch 0.
    pub fn new(epoch: Option<i64>, version: String, release: String) -> (r: RpmVersion)
        ensures
            r.epoch == match epoch {
                Some(e) => e,
                None => 0,
            },
            r.version == version,
            r.release == release,
    {
        let e = match epoch {
            Some(e) => e,
            None => 0,
        };
        RpmVersion { epoch: e, version, release }
    }

    /// Segment comparison of two version or release strings.
    pub fn compare_segments(a: &str, b: &str) -> (r: Ordering)
        ensures
            r == compare_strings(a@, b@),
    {
        let av = char_vec(a);
        let bv = char_vec(b);
        let an = av.len();
        let bn = bv.len();
        let mut i: usize = 0;
        let mut j: usize = 0;
        assert(av@.skip(0) =~= av@);
        assert(bv@.skip(0) =~= bv@);
        loop
            invariant
                an == av@.len(),
                bn == bv@.len(),
                av@ == a@,
                bv@ == b@,
                i <= an,
                j <= bn,
                compare_strings(a@, b@) == segments_cmp(
                    segments(av@.skip(i as int)),
                    segments(bv@.skip(j as int)),
                ),
            decreases an - i + bn - j,
        {
            i = skip_separators(&av, i);
            j = skip_separators(&bv, j);
            let a_tilde = i < an && av[i] == '~';
            let b_tilde = j < bn && bv[j] == '~';
            if a_tilde && b_tilde {
                proof {
                    lemma_tilde_step(av@, i as int);
                    lemma_tilde_step(bv@, j as int);
                    lemma_cons_cmp(
                        Segment::Tilde,
                        Segment::Tilde,
                        segments(av@.skip(i + 1)),
                        segments(bv@.skip(j + 1)),
                    );
                }
                i = i + 1;
                j = j + 1;
                continue ;
            }
            if a_tilde {
                proof {
                    lemma_tilde_step(av@, i as int);
                    if j < bn {
                        lemma_skip_unfold(bv@, j as int);
                    }
                }
                return Ordering::Less;
            }
            if b_tilde {
                proof {
                    lemma_tilde_step(bv@, j as int);
                    if i < an {
                        lemma_skip_unfold(av@, i as int);
                    }
                }
                return Ordering::Greater;
            }
            if i == an && j == bn {
                return Ordering::Equal;
            }
            if i == an {
                proof {
                    lemma_skip_unfold(bv@, j as int);
                }
                return Ordering::Less;
            }
            if j == bn {
                proof {
                    lemma_skip_unfold(av@, i as int);
                }
                return Ordering::Greater;
            }
            let a_digit = is_digit_char(av[i]);
            let b_digit = is_digit_char(bv[j]);
            proof {
                lemma_skip_unfold(av@, i as int);
                lemma_skip_unfold(bv@, j as int);
            }
            if a_digit && !b_digit {
                return Ordering::Greater;
            }
            if !a_digit && b_digit {
                return Ordering::Less;
            }
            if a_digit {
                let ie = digit_run_end(&av, i);
                let je = digit_run_end(&bv, j);
                let o = compare_numeric(&av, i, ie, &bv, j, je);
                proof {
                    lemma_digit_step(av@, i as int, ie as int);
                    lemma_digit_step(bv@, j as int, je as int);
                    lemma_cons_cmp(
                        Segment::Num(strip_zeros(av@.subrange(i as int, ie as int))),
                        Segment::Num(strip_zeros(bv@.subrange(j as int, je as int))),
                        segments(av@.skip(ie as int)),
                        segments(bv@.skip(je as int)),
                    );
                }
                match o {
                    Ordering::Equal => {},
                    _ => {
                        return o;
                    },
                }
                i = ie;
                j = je;
            } else {
                let ie = letter_run_end(&av, i);
                let je = letter_run_end(&bv, j);
                let o = compare_runs(&av, i, ie, &bv, j, je);
                proof {
                    lemma_letter_step(av@, i as int, ie as int);
                    lemma_letter_step(bv@, j as int, je as int);
                    lemma_cons_cmp(
                        Segment::Alpha(av@.subrange(i as int, ie as int)),
                        Segment::Alpha(bv@.subrange(j as int, je as int)),
                        segments(av@.skip(ie as int)),
                        segments(bv@.skip(je as int)),
                    );
                }
                match o {
                    Ordering::Equal => {},
                    _ => {
                        return o;
                    },
                }
                i = ie;
                j = je;
            }
        }
    }

    /// Compares epoch, then version, then release.
    pub fn cmp(&self, other: &RpmVersion) -> (r: Ordering)
        ensures
            r == self.spec_cmp(other),
    {
        if self.epoch < other.epoch {
            return Ordering::Less;
        }
        if self.epoch > other.epoch {
            return Ordering::Greater;
        }
        let v = RpmVersion::compare_segments(self.version.as_str(), other.version.as_str());
        match v {
            Ordering::Equal => RpmVersion::compare_segments(
                self.release.as_str(),
                other.release.as_str(),
            ),
            _ => v,
        }
    }
}

impl PartialEq for RpmVersion {
    fn eq(&self, other: &RpmVersion) -> bool {
        match self.cmp(other) {
            Ordering::Equal => true,
            _ => false,
        }
    }
}

impl vstd::std_specs::cmp::PartialEqSpecImpl for RpmVersion {
    open spec fn obeys_eq_spec() -> bool {
        true
    }

    open spec fn eq_spec(&self, other: &RpmVersion) -> bool {
        self.spec_cmp(other) == Ordering::Equal
    }
}

impl Eq for RpmVersion {

}

impl PartialOrd for RpmVersion {
    fn partial_cmp(&self, other: &RpmVersion) -> Option<Ordering> {
        Some(self.cmp(other))
    }
}

impl vstd::std_specs::cmp::PartialOrdSpecImpl for RpmVersion {
    open spec fn obeys_partial_cmp_spec() -> bool {
        true
    }

    open spec fn partial_cmp_spec(&self, other: &RpmVersion) -> Option<Ordering> {
        Some(self.spec_cmp(other))
    }
}

/// The order on versions is a total order: comparing the other way round
/// gives the opposite answer, a version is equal to itself, and both "less"
/// and "equal" are transitive. Two versions compare equal exactly when their
/// epochs agree and their version and release strings have the same segments.
pub proof fn lemma_version_total_order(a: RpmVersion, b: RpmVersion, c: RpmVersion)
    ensures
        a.spec_cmp(&b) == flip(b.spec_cmp(&a)),
        a.spec_cmp(&a) == Ordering::Equal,
        a.spec_cmp(&b) == Ordering::Equal <==> (a.epoch == b.epoch && segments(a.version@)
            == segments(b.version@) && segments(a.release@) == segments(b.release@)),
        a.spec_cmp(&b) == Ordering::Less && b.spec_cmp(&c) == Ordering::Less ==> a.spec_cmp(&c)
            == Ordering::Less,
        a.spec_cmp(&b) == Ordering::Equal && b.spec_cmp(&c) == Ordering::Equal ==> a.spec_cmp(&c)
            == Ordering::Equal,
        a.spec_cmp(&b) == Ordering::Less && b.spec_cmp(&c) == Ordering::Equal ==> a.spec_cmp(&c)
            == Ordering::Less,
        a.spec_cmp(&b) == Ordering::Equal && b.spec_cmp(&c) == Ordering::Less ==> a.spec_cmp(&c)
            == Ordering::Less,
{
    let (av, bv, cv) = (segments(a.version@), segments(b.version@), segments(c.version@));
    let (ar, br, cr) = (segments(a.release@), segments(b.release@), segments(c.release@));
    lemma_segments_cmp(av, bv, cv);
    lemma_segments_cmp(ar, br, cr);
    lemma_segments_cmp(av, av, av);
    lemma_segments_cmp(ar, ar, ar);
    lemma_segments_cmp(bv, cv, cv);
    lemma_segments_cmp(br, cr, cr);
    lemma_segments_cmp(av, cv, cv);
    lemma_segments_cmp(ar, cr, cr);
}

/// A higher epoch wins whatever the version and release strings hold.
pub proof fn lemma_epoch_dominance(a: RpmVersion, b: RpmVersion)
    requires
        a.epoch > b.epoch,
    ensures
        a.spec_cmp(&b) == Ordering::Greater,
        b.spec_cmp(&a) == Ordering::Less,
{
}

} // verus!
