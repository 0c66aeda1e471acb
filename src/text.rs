//! Character-level helpers over strings: lexicographic order, equality,
//! decimal notation and UTF-8 lengths.
use core::cmp::Ordering;
use vstd::prelude::*;
use vstd::string::{StrSliceExecFns, StringExecFns};

verus! {

pub open spec fn flip(o: Ordering) -> Ordering {
    match o {
        Ordering::Less => Ordering::Greater,
        Ordering::Equal => Ordering::Equal,
        Ordering::Greater => Ordering::Less,
    }
}

/// Lexicographic order of character sequences, by code point.
pub open spec fn lex_cmp(a: Seq<char>, b: Seq<char>) -> Ordering
    decreases a.len(),
{
    if a.len() == 0 {
        if b.len() == 0 {
            Ordering::Equal
        } else {
            Ordering::Less
        }
    } else if b.len() == 0 {
        Ordering::Greater
    } else if a[0] < b[0] {
        Ordering::Less
    } else if a[0] > b[0] {
        Ordering::Greater
    } else {
        lex_cmp(a.drop_first(), b.drop_first())
    }
}

pub proof fn lemma_lex_cmp(a: Seq<char>, b: Seq<char>, c: Seq<char>)
    ensures
        lex_cmp(a, b) == flip(lex_cmp(b, a)),
        lex_cmp(a, b) == Ordering::Equal <==> a == b,
        lex_cmp(a, b) == Ordering::Less && lex_cmp(b, c) == Ordering::Less ==> lex_cmp(a, c)
            == Ordering::Less,
    decreases a.len(),
{
    if a.len() > 0 && b.len() > 0 {
        if c.len() > 0 {
            lemma_lex_cmp(a.drop_first(), b.drop_first(), c.drop_first());
        } else {
            lemma_lex_cmp(a.drop_first(), b.drop_first(), c);
        }
        if a.drop_first() == b.drop_first() && a[0] == b[0] {
            assert(a =~= seq![a[0]] + a.drop_first());
            assert(b =~= seq![b[0]] + b.drop_first());
        }
    }
    if a.len() == 0 && b.len() == 0 {
        assert(a =~= b);
    }
}

/// The characters of a string, one by one.
pub fn char_vec(s: &str) -> (r: Vec<char>)
    ensures
        r@ == s@,
{
    let n = s.unicode_len();
    let mut v: Vec<char> = Vec::new();
    let mut i: usize = 0;
    while i < n
        invariant
            n == s@.len(),
            i <= n,
            v@ == s@.take(i as int),
        decreases n - i,
    {
        let c = s.get_char(i);
        v.push(c);
        i = i + 1;
        assert(v@ =~= s@.take(i as int));
    }
    assert(v@ =~= s@);
    v
}

/// Lexicographic comparison of `v[lo..hi]` and `w[lo2..hi2]`.
pub fn compare_runs(v: &Vec<char>, lo: usize, hi: usize, w: &Vec<char>, lo2: usize, hi2: usize) -> (r:
    Ordering)
    requires
        lo <= hi <= v@.len(),
        lo2 <= hi2 <= w@.len(),
    ensures
        r == lex_cmp(v@.subrange(lo as int, hi as int), w@.subrange(lo2 as int, hi2 as int)),
{
    let mut i = lo;
    let mut j = lo2;
    while i < hi && j < hi2
        invariant
            lo <= i <= hi <= v@.len(),
            lo2 <= j <= hi2 <= w@.len(),
            i - lo == j - lo2,
            lex_cmp(v@.subrange(lo as int, hi as int), w@.subrange(lo2 as int, hi2 as int))
                == lex_cmp(v@.subrange(i as int, hi as int), w@.subrange(j as int, hi2 as int)),
        decreases hi - i,
    {
        let c = v[i];
        let d = w[j];
        if c < d {
            return Ordering::Less;
        }
        if c > d {
            return Ordering::Greater;
        }
        assert(v@.subrange(i as int, hi as int).drop_first() =~= v@.subrange(
            i as int + 1,
            hi as int,
        ));
        assert(w@.subrange(j as int, hi2 as int).drop_first() =~= w@.subrange(
            j as int + 1,
            hi2 as int,
        ));
        i = i + 1;
        j = j + 1;
    }
    if i < hi {
        Ordering::Greater
    } else if j < hi2 {
        Ordering::Less
    } else {
        Ordering::Equal
    }
}

/// Lexicographic comparison of two strings, by code point (which is also
/// the byte order of their UTF-8 encodings).
pub fn compare_text(a: &str, b: &str) -> (r: Ordering)
    ensures
        r == lex_cmp(a@, b@),
{
    let av = char_vec(a);
    let bv = char_vec(b);
    assert(av@.subrange(0, av@.len() as int) =~= av@);
    assert(bv@.subrange(0, bv@.len() as int) =~= bv@);
    compare_runs(&av, 0, av.len(), &bv, 0, bv.len())
}

/// Whether two strings hold the same characters.
pub fn text_eq(a: &str, b: &str) -> (r: bool)
    ensures
        r == (a@ == b@),
{
    let o = compare_text(a, b);
    proof {
        lemma_lex_cmp(a@, b@, b@);
    }
    match o {
        Ordering::Equal => true,
        _ => false,
    }
}

/// Number of bytes that the UTF-8 encoding of a character takes.
pub open spec fn utf8_width(c: char) -> nat {
    if (c as u32) < 0x80 {
        1
    } else if (c as u32) < 0x800 {
        2
    } else if (c as u32) < 0x10000 {
        3
    } else {
        4
    }
}

pub fn char_utf8_width(c: char) -> (r: usize)
    ensures
        r == utf8_width(c),
{
    let v = c as u32;
    if v < 0x80 {
        1
    } else if v < 0x800 {
        2
    } else if v < 0x10000 {
        3
    } else {
        4
    }
}

/// The digit character for a value below ten.
pub open spec fn digit_char(d: nat) -> char {
    if d == 0 { '0' }
    else if d == 1 { '1' }
    else if d == 2 { '2' }
    else if d == 3 { '3' }
    else if d == 4 { '4' }
    else if d == 5 { '5' }
    else if d == 6 { '6' }
    else if d == 7 { '7' }
    else if d == 8 { '8' }
    else { '9' }
}

/// Decimal digits of a natural number, without leading zeros ("0" for zero).
pub open spec fn nat_digits(n: nat) -> Seq<char>
    decreases n,
{
    if n < 10 {
        seq![digit_char(n)]
    } else {
        nat_digits(n / 10).push(digit_char(n % 10))
    }
}

/// Decimal notation of an integer, with a leading minus sign when negative.
pub open spec fn decimal(n: int) -> Seq<char> {
    if n < 0 {
        seq!['-'] + nat_digits((-n) as nat)
    } else {
        nat_digits(n as nat)
    }
}

fn digit_str(d: u64) -> (r: &'static str)
    requires
        d < 10,
    ensures
        r@ == seq![digit_char(d as nat)],
{
    proof {
        reveal_strlit("0");
        reveal_strlit("1");
        reveal_strlit("2");
        reveal_strlit("3");
        reveal_strlit("4");
        reveal_strlit("5");
        reveal_strlit("6");
        reveal_strlit("7");
        reveal_strlit("8");
        reveal_strlit("9");
    }
    if d == 0 { "0" }
    else if d == 1 { "1" }
    else if d == 2 { "2" }
    else if d == 3 { "3" }
    else if d == 4 { "4" }
    else if d == 5 { "5" }
    else if d == 6 { "6" }
    else if d == 7 { "7" }
    else if d == 8 { "8" }
    else { "9" }
}

fn nat_to_text(n: u64) -> (r: String)
    ensures
        r@ == nat_digits(n as nat),
    decreases n,
{
    if n < 10 {
        String::from_str(digit_str(n))
    } else {
        let mut s = nat_to_text(n / 10);
        s.append(digit_str(n % 10));
        s
    }
}

/// Decimal notation of an integer.
pub fn int_to_text(n: i64) -> (r: String)
    ensures
        r@ == decimal(n as int),
{
    if n < 0 {
        let m: u64 = if n == i64::MIN {
            9223372036854775808u64
        } else {
            (-n) as u64
        };
        proof {
            reveal_strlit("-");
        }
        let mut s = String::from_str("-");
        let d = nat_to_text(m);
        s.append(d.as_str());
        s
    } else {
        nat_to_text(n as u64)
    }
}

} // verus!
